//! The attribute system and the per-rule type attributes.
use peg::ast::Span;
use peg::attribute::{
    bool_attribute, declare_attribute, find_attribute, set_attribute, AttributeEntry,
    AttributeInfo, DefaultOrRequired,
};
use peg::diagnostic::{Diagnostic, Severity};
use peg::middle::AttributeAssignment;
use peg::rule_type::{RuleType, RuleTypeStyle};

fn chars(s: &str) -> Vec<char> {
    s.chars().collect()
}

fn text(v: &[char]) -> String {
    v.iter().collect()
}

#[test]
fn bool_attribute_starts_unassigned() {
    let a = bool_attribute(DefaultOrRequired::Default(true));
    assert!(!a.has_value());
}

#[test]
fn set_assigns_value_and_span() {
    let mut a = bool_attribute(DefaultOrRequired::Default(false));
    a.set(true, Span::new(3, 7));
    assert!(a.has_value());
    assert_eq!(a.span.lo, 3);
    assert_eq!(a.span.hi, 7);
}

#[test]
fn value_returns_assigned_value() {
    let mut a = bool_attribute(DefaultOrRequired::Default(false));
    let mut diags: Vec<Diagnostic> = Vec::new();
    a.set(true, Span::new(0, 0));
    assert_eq!(a.value(&mut diags), Some(true));
    assert!(diags.is_empty());
}

#[test]
fn value_falls_back_to_default() {
    let a = bool_attribute(DefaultOrRequired::Default(true));
    let mut diags: Vec<Diagnostic> = Vec::new();
    assert_eq!(a.value(&mut diags), Some(true));
    assert!(diags.is_empty());
}

#[test]
fn missing_required_value_reports_error() {
    let a: AttributeInfo<bool> = AttributeInfo {
        value: None,
        span: Span::new(1, 2),
        default: DefaultOrRequired::Required(chars("this attribute is required")),
    };
    let mut diags: Vec<Diagnostic> = Vec::new();
    assert_eq!(a.value(&mut diags), None);
    assert_eq!(diags.len(), 1);
    assert_eq!(diags[0].severity, Severity::Error);
    assert_eq!(text(&diags[0].msg), "this attribute is required");
}

#[test]
fn set_attribute_marks_presence() {
    let mut model: Vec<AttributeEntry> = vec![declare_attribute(chars("flag"), chars("doc"))];
    let mut diags: Vec<Diagnostic> = Vec::new();
    set_attribute(&mut model, &chars("flag"), Span::new(4, 8), &mut diags);
    assert!(model[0].info.has_value());
    assert_eq!(model[0].info.span.lo, 4);
    assert!(diags.is_empty());
}

#[test]
fn second_assignment_warns_and_wins() {
    let mut model: Vec<AttributeEntry> = vec![declare_attribute(chars("flag"), chars("doc"))];
    let mut diags: Vec<Diagnostic> = Vec::new();
    set_attribute(&mut model, &chars("flag"), Span::new(1, 2), &mut diags);
    set_attribute(&mut model, &chars("flag"), Span::new(9, 10), &mut diags);
    assert!(model[0].info.has_value());
    assert_eq!(model[0].info.span.lo, 9);
    assert_eq!(diags.len(), 1);
    assert_eq!(diags[0].severity, Severity::Warning);
    assert_eq!(text(&diags[0].msg), "duplicate attribute assignment flag");
}

#[test]
fn unknown_attribute_warns() {
    let mut model: Vec<AttributeEntry> = vec![declare_attribute(chars("flag"), chars("doc"))];
    let mut diags: Vec<Diagnostic> = Vec::new();
    set_attribute(&mut model, &chars("nope"), Span::new(0, 0), &mut diags);
    assert!(!model[0].info.has_value());
    assert_eq!(diags.len(), 1);
    assert_eq!(diags[0].severity, Severity::Warning);
    assert_eq!(text(&diags[0].msg), "unknown attribute nope");
}

#[test]
fn find_attribute_returns_first_match() {
    let model: Vec<AttributeEntry> = vec![
        declare_attribute(chars("one"), chars("")),
        declare_attribute(chars("two"), chars("")),
    ];
    assert_eq!(find_attribute(&model, &chars("two")), Some(1));
    assert_eq!(find_attribute(&model, &chars("three")), None);
}

#[test]
fn rule_type_model_declares_invisible_type() {
    let model = RuleType::model();
    assert_eq!(model.len(), 1);
    assert_eq!(text(&model[0].name), "invisible_type");
    assert!(!model[0].info.has_value());
}

#[test]
fn rule_type_style_reads_the_flag() {
    let mut model = RuleTypeStyle::model();
    let mut diags: Vec<Diagnostic> = Vec::new();
    assert_eq!(RuleTypeStyle::new(&model), RuleTypeStyle::Inline);
    set_attribute(&mut model, &chars("invisible_type"), Span::new(5, 6), &mut diags);
    assert_eq!(RuleTypeStyle::new(&model), RuleTypeStyle::Invisible(Span::new(5, 6)));
    assert_eq!(RuleType::new(&model).style, RuleTypeStyle::Invisible(Span::new(5, 6)));
}

#[test]
fn invisible_type_attribute_reaches_the_rule() {
    let attrs = vec![AttributeAssignment {
        target: Some(chars("a")),
        name: chars("invisible_type"),
        value: None,
        span: Span::new(2, 3),
    }];
    let mut diags: Vec<Diagnostic> = Vec::new();
    let mut parser = peg::front::Parser::new(chars("a = \"x\"; b = \"y\";"));
    let ast = parser.parse_grammar(chars("g")).expect("grammar must parse");
    let g = peg::middle::analyse(&ast, &attrs, &mut diags).expect("grammar must analyse");
    assert!(matches!(g.rules[0].ty.style, RuleTypeStyle::Invisible(_)));
    assert!(matches!(g.rules[1].ty.style, RuleTypeStyle::Inline));
}

#[test]
fn print_generated_defaults_to_off() {
    let attrs: Vec<AttributeAssignment> = Vec::new();
    let mut diags: Vec<Diagnostic> = Vec::new();
    let mut parser = peg::front::Parser::new(chars("a = \"x\";"));
    let ast = parser.parse_grammar(chars("g")).expect("grammar must parse");
    let g = peg::middle::analyse(&ast, &attrs, &mut diags).expect("grammar must analyse");
    assert!(!g.print_generated);
}

#[test]
fn print_generated_emits_a_note() {
    let attrs = vec![AttributeAssignment {
        target: None,
        name: chars("print_generated"),
        value: None,
        span: Span::new(0, 0),
    }];
    let mut diags: Vec<Diagnostic> = Vec::new();
    let input = chars("a = \"x\";");
    let r = peg::expand(Span::new(0, 0), chars("g"), &input, &attrs, &mut diags);
    let module = r.expect("the grammar is valid");
    assert!(diags.iter().any(|d| d.severity == Severity::Note && d.msg == module));
}
