//! The runtime matchers, the type inferencer, and the generated source text.
use peg::ast::CharacterInterval;
use peg::back::PegCompiler;
use peg::diagnostic::Diagnostic;
use peg::middle::AttributeAssignment;
use peg::runtime::{any_single_char, class_contains, make_result, match_literal, MatchError};
use peg::typing::{type_of_expr, AstRuleType};

fn chars(s: &str) -> Vec<char> {
    s.chars().collect()
}

fn text(v: &[char]) -> String {
    v.iter().collect()
}

fn compile(src: &str) -> peg::clean_ast::Grammar {
    let attrs: Vec<AttributeAssignment> = Vec::new();
    let mut diags: Vec<Diagnostic> = Vec::new();
    let mut parser = peg::front::Parser::new(chars(src));
    let ast = parser.parse_grammar(chars("g")).expect("grammar must parse");
    peg::middle::analyse(&ast, &attrs, &mut diags).expect("grammar must analyse")
}

fn generate(src: &str) -> String {
    let g = compile(src);
    let mut diags: Vec<Diagnostic> = Vec::new();
    text(&PegCompiler::compile(&g, &mut diags))
}

#[test]
fn match_literal_advances_by_length() {
    let input = chars("hello world");
    let lit = chars("hello");
    assert!(matches!(match_literal(&input, 0, &lit, 5), Ok(5)));
}

#[test]
fn match_literal_reports_expected() {
    let input = chars("help");
    let lit = chars("hello");
    match match_literal(&input, 0, &lit, 5) {
        Err(MatchError::Expected(e)) => assert_eq!(text(&e), "hello"),
        _ => panic!("the literal does not match here"),
    }
}

#[test]
fn any_single_char_steps_one_character() {
    let input = chars("ab");
    assert!(matches!(any_single_char(&input, 0), Ok(1)));
    assert!(matches!(any_single_char(&input, 2), Err(MatchError::UnexpectedEof)));
}

#[test]
fn class_contains_unions_intervals() {
    let iv = vec![
        CharacterInterval { lo: 'a', hi: 'z' },
        CharacterInterval { lo: '0', hi: '9' },
    ];
    assert!(class_contains(&iv, 'q'));
    assert!(class_contains(&iv, '7'));
    assert!(!class_contains(&iv, 'Q'));
}

#[test]
fn make_result_wraps_the_outcome() {
    let input = chars("abcd");
    assert!(matches!(make_result(&input, Ok(4)), Ok(None)));
    match make_result(&input, Ok(2)) {
        Ok(Some(tail)) => assert_eq!(text(&tail), "cd"),
        _ => panic!("a partial match keeps its tail"),
    }
    assert!(matches!(
        make_result(&input, Err(MatchError::UnexpectedEof)),
        Err(MatchError::UnexpectedEof)
    ));
}

#[test]
fn literal_and_predicates_capture_nothing() {
    let g = compile("r = \"ab\"; s = !\"a\"; t = &\"a\"; u = .;");
    for rule in &g.rules {
        assert!(type_of_expr(&rule.def).is_none());
    }
}

#[test]
fn class_captures_a_character() {
    let g = compile("r = [a-z];");
    assert!(matches!(type_of_expr(&g.rules[0].def), Some(AstRuleType::Character)));
}

#[test]
fn repetition_captures_a_vector() {
    let g = compile("r = [a-z]+;");
    match type_of_expr(&g.rules[0].def) {
        Some(AstRuleType::Vector(inner)) => {
            assert!(matches!(*inner, AstRuleType::Character))
        },
        _ => panic!("a repetition over a capturing child captures a vector"),
    }
}

#[test]
fn sequence_drops_non_capturing_children() {
    // Only the class captures, so the sequence's type is the single child's.
    let g = compile("r = \"a\" [a-z];");
    assert!(matches!(type_of_expr(&g.rules[0].def), Some(AstRuleType::Character)));
}

#[test]
fn sequence_of_two_captures_is_a_tuple() {
    let g = compile("r = [a-z] [0-9];");
    match type_of_expr(&g.rules[0].def) {
        Some(AstRuleType::Tuple(ts)) => assert_eq!(ts.len(), 2),
        _ => panic!("two capturing children make a tuple"),
    }
}

#[test]
fn choice_makes_one_branch_per_alternative() {
    let g = compile("r = [a-z] / \"x\";");
    match type_of_expr(&g.rules[0].def) {
        Some(AstRuleType::Sum(branches)) => {
            assert_eq!(branches.len(), 2);
            match &branches[0] {
                AstRuleType::SumBranch(ts) => assert_eq!(ts.len(), 1),
                _ => panic!("each alternative is a branch"),
            }
            match &branches[1] {
                AstRuleType::SumBranch(ts) => assert_eq!(ts.len(), 0),
                _ => panic!("each alternative is a branch"),
            }
        },
        _ => panic!("a choice captures a sum"),
    }
}

#[test]
fn non_terminal_captures_a_placeholder() {
    let g = compile("r = s; s = [a-z];");
    assert!(matches!(
        type_of_expr(&g.rules[0].def),
        Some(AstRuleType::RuleTypePlaceholder(1))
    ));
}

#[test]
fn generated_module_for_one_literal_rule() {
    let generated = generate("r = \"a\";");
    let expected = "pub mod g { #![allow(dead_code)] pub mod ast { } pub struct Parser; impl Parser { pub fn new() -> Parser { Parser } fn r(input: &str, pos: usize) -> Result<usize, String> { peg::runtime::match_literal(input, pos, \"a\", 1) }\n } impl peg::Parser for Parser { fn parse<'a>(&self, input: &'a str) -> Result<Option<&'a str>, String> { peg::runtime::make_result(input, &Parser::r(input, 0)) } } }";
    assert_eq!(generated, expected);
}

#[test]
fn star_emits_a_named_helper() {
    let generated = generate("r = \"a\"*;");
    assert!(generated.contains("fn star_r_0(input: &str, pos: usize)"));
    assert!(generated.contains("Parser::star_r_0(input, pos)"));
}

#[test]
fn plus_emits_both_helpers() {
    let generated = generate("r = \"a\"+;");
    assert!(generated.contains("fn star_r_0"));
    assert!(generated.contains("fn plus_r_1"));
    assert!(generated.contains("{ Ok(pos) => Parser::star_r_0(input, pos), x => x } }"));
}

#[test]
fn helper_names_use_the_lowercased_rule_name() {
    let generated = generate("LOUD = [a-z];");
    assert!(generated.contains("fn class_char_loud_0"));
}

#[test]
fn class_condition_lists_every_interval() {
    let generated = generate("r = [a-z0-9];");
    assert!(generated.contains(
        "if (current >= 'a' && current <= 'z') || (current >= '0' && current <= '9')"
    ));
}

#[test]
fn literal_text_is_escaped() {
    let generated = generate("r = \"a\\\"b\";");
    assert!(generated.contains("peg::runtime::match_literal(input, pos, \"a\\\"b\", 3)"));
}

#[test]
fn entry_point_names_the_start_rule() {
    let generated = generate("first = \"x\"; second = \"y\";");
    assert!(generated.contains("&Parser::first(input, 0)"));
}

#[test]
fn nested_sequences_are_folded() {
    // `("a" "b") "c"` normalizes to one three-child sequence: three nested
    // matches, each threading the position.
    let g = compile("r = (\"a\" \"b\") \"c\";");
    match &g.rules[0].def {
        peg::clean_ast::CleanExpression::Sequence(cs) => assert_eq!(cs.len(), 3),
        _ => panic!("the folded body is a sequence"),
    }
}

#[test]
fn nested_choices_are_folded() {
    let g = compile("r = (\"a\" / \"b\") / \"c\";");
    match &g.rules[0].def {
        peg::clean_ast::CleanExpression::Choice(cs) => assert_eq!(cs.len(), 3),
        _ => panic!("the folded body is a choice"),
    }
}

#[test]
fn message_renders_each_failure() {
    assert_eq!(text(&peg::runtime::message(&MatchError::Expected(chars("x")))), "expected x");
    assert_eq!(
        text(&peg::runtime::message(&MatchError::UnexpectedEof)),
        "unexpected end of input"
    );
    assert_eq!(
        text(&peg::runtime::message(&MatchError::NotInClass)),
        "It doesn't match the character class."
    );
    assert_eq!(text(&peg::runtime::message(&MatchError::UnexpectedMatch)), "An `!expr` failed.");
}

#[test]
fn placeholders_resolve_through_rules() {
    let g = compile("r = s; s = [a-z];");
    let resolved = peg::typing::resolve_rule_types(&g).expect("no cycle here");
    assert!(matches!(resolved[0], Some(AstRuleType::Character)));
    assert!(matches!(resolved[1], Some(AstRuleType::Character)));
}

#[test]
fn invisible_rules_contribute_nothing() {
    let attrs = vec![peg::middle::AttributeAssignment {
        target: Some(chars("s")),
        name: chars("invisible_type"),
        value: None,
        span: peg::ast::Span::new(0, 0),
    }];
    let mut diags: Vec<Diagnostic> = Vec::new();
    let mut parser = peg::front::Parser::new(chars("r = s; s = [a-z];"));
    let ast = parser.parse_grammar(chars("g")).expect("grammar must parse");
    let g = peg::middle::analyse(&ast, &attrs, &mut diags).expect("grammar must analyse");
    let resolved = peg::typing::resolve_rule_types(&g).expect("no cycle here");
    assert!(resolved[0].is_none());
}

#[test]
fn placeholder_cycle_is_an_error() {
    let g = compile("a = b; b = a;");
    assert!(peg::typing::resolve_rule_types(&g).is_err());
}

#[test]
fn literal_length_counts_utf8_bytes() {
    let generated = generate("r = \"\u{e9}x\";");
    assert!(generated.contains("\u{e9}x\", 3)"));
}
