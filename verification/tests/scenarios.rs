//! End-to-end scenarios: grammar text through the front-end and the
//! analyser, then run through the reference matcher semantics.
use peg::clean_ast::Grammar;
use peg::diagnostic::{Diagnostic, Severity};
use peg::middle::AttributeAssignment;
use peg::runtime::MatchError;
use peg::semantics::run_parser;

fn chars(s: &str) -> Vec<char> {
    s.chars().collect()
}

fn text(v: &[char]) -> String {
    v.iter().collect()
}

fn compile(src: &str) -> Grammar {
    let attrs: Vec<AttributeAssignment> = Vec::new();
    let mut diags: Vec<Diagnostic> = Vec::new();
    let mut parser = peg::front::Parser::new(chars(src));
    let ast = parser.parse_grammar(chars("g")).expect("grammar must parse");
    peg::middle::analyse(&ast, &attrs, &mut diags).expect("grammar must analyse")
}

fn diags_of(src: &str) -> Vec<Diagnostic> {
    let attrs: Vec<AttributeAssignment> = Vec::new();
    let mut diags: Vec<Diagnostic> = Vec::new();
    let mut parser = peg::front::Parser::new(chars(src));
    let ast = parser.parse_grammar(chars("g")).expect("grammar must parse");
    let r = peg::middle::analyse(&ast, &attrs, &mut diags);
    assert!(r.is_none());
    diags
}

fn run(src: &str, input: &str) -> Result<Option<String>, String> {
    let g = compile(src);
    match run_parser(&g, &chars(input), 10_000).expect("allowance must suffice") {
        Ok(None) => Ok(None),
        Ok(Some(tail)) => Ok(Some(text(&tail))),
        Err(e) => Err(text(&peg::runtime::message(&e))),
    }
}

#[test]
fn literal_full_match() {
    assert_eq!(run("r = \"hello\";", "hello"), Ok(None));
}

#[test]
fn literal_partial_match_reports_tail() {
    assert_eq!(run("r = \"hello\";", "hello world"), Ok(Some(" world".to_string())));
}

#[test]
fn ordered_choice_second_alternative() {
    assert_eq!(run("r = \"a\" / \"b\";", "b"), Ok(None));
}

#[test]
fn star_three_iterations() {
    assert_eq!(run("r = \"a\"*;", "aaa"), Ok(None));
}

#[test]
fn not_predicate_then_any() {
    assert_eq!(run("r = !\"a\" .;", "b"), Ok(None));
}

#[test]
fn class_one_or_more() {
    assert_eq!(run("r = [a-z0-9]+;", "abc9"), Ok(None));
}

#[test]
fn duplicate_rule_is_an_error() {
    let diags = diags_of("r = s; s = \"x\"; s = \"y\";");
    assert!(diags.iter().any(|d| d.severity == Severity::Error && text(&d.msg)
        == "duplicate rule `s`"));
}

#[test]
fn unresolved_reference_is_an_error() {
    let diags = diags_of("r = q;");
    assert!(diags.iter().any(|d| d.severity == Severity::Error && text(&d.msg)
        == "unresolved reference `q`"));
}

#[test]
fn malformed_class_is_an_error() {
    let diags = diags_of("r = [z-a];");
    assert!(diags.iter().any(|d| d.severity == Severity::Error && text(&d.msg)
        == "malformed character class"));
}

#[test]
fn choice_backtracks_to_entry_position() {
    // The first alternative consumes "foo" before failing; the second is
    // tried from the entry position and matches the whole input.
    assert_eq!(run("a = \"foox\" / \"foobar\";", "foobar"), Ok(None));
}

#[test]
fn ordered_choice_commits_to_first_success() {
    // Ordered choice: "foo" succeeds first, so "foobar" is never tried and
    // the tail remains.
    assert_eq!(run("a = \"foo\" / \"foobar\";", "foobar"), Ok(Some("bar".to_string())));
}

#[test]
fn predicates_consume_no_input() {
    assert_eq!(run("r = &\"ab\" \"ab\";", "ab"), Ok(None));
}

#[test]
fn zero_width_star_terminates_at_entry() {
    // The child matches without consuming; the repetition stops at once at
    // the entry position, so the whole input is the tail.
    assert_eq!(run("r = (&\"a\")*;", "aaa"), Ok(Some("aaa".to_string())));
}

#[test]
fn parser_is_deterministic_across_runs() {
    let first = run("r = [a-z]+ \"!\"?;", "peg");
    let second = run("r = [a-z]+ \"!\"?;", "peg");
    assert_eq!(first, second);
}

#[test]
fn one_or_more_needs_one_iteration() {
    let r = run("r = \"a\"+;", "b");
    assert_eq!(r, Err("expected a".to_string()));
}

#[test]
fn any_char_fails_at_end_of_input() {
    assert_eq!(run("r = .;", ""), Err("unexpected end of input".to_string()));
}

#[test]
fn class_error_when_no_interval_matches() {
    assert_eq!(
        run("r = [a-z];", "9"),
        Err("It doesn't match the character class.".to_string())
    );
}

#[test]
fn not_predicate_error_when_child_matches() {
    assert_eq!(run("r = !\"a\";", "a"), Err("An `!expr` failed.".to_string()));
}

#[test]
fn optional_matches_nothing_on_failure() {
    assert_eq!(run("r = \"a\"? \"b\";", "b"), Ok(None));
}

#[test]
fn sequence_error_is_first_failing_childs() {
    assert_eq!(run("r = \"a\" \"b\";", "ax"), Err("expected b".to_string()));
}

#[test]
fn choice_error_is_last_childs() {
    assert_eq!(run("r = \"a\" / \"b\";", "c"), Err("expected b".to_string()));
}

#[test]
fn non_terminals_delegate_between_rules() {
    assert_eq!(run("r = s s; s = \"ab\";", "abab"), Ok(None));
}

#[test]
fn syntax_error_aborts_with_fatal() {
    let attrs: Vec<AttributeAssignment> = Vec::new();
    let mut diags: Vec<Diagnostic> = Vec::new();
    let input = chars("r = ;");
    let r = peg::expand(peg::ast::Span::new(0, 0), chars("g"), &input, &attrs, &mut diags);
    assert!(r.is_none());
    assert!(diags.iter().any(|d| d.severity == Severity::Fatal));
}

#[test]
fn start_attribute_selects_rule() {
    let attrs = vec![AttributeAssignment {
        target: None,
        name: chars("start"),
        value: Some(chars("b")),
        span: peg::ast::Span::new(0, 0),
    }];
    let mut diags: Vec<Diagnostic> = Vec::new();
    let mut parser = peg::front::Parser::new(chars("a = \"x\"; b = \"y\";"));
    let ast = parser.parse_grammar(chars("g")).expect("grammar must parse");
    let g = peg::middle::analyse(&ast, &attrs, &mut diags).expect("grammar must analyse");
    assert_eq!(g.start_rule_idx, 1);
    match run_parser(&g, &chars("y"), 100).expect("allowance must suffice") {
        Ok(None) => {},
        _ => panic!("start rule must match its input"),
    }
}

#[test]
fn unknown_start_rule_is_an_error() {
    let attrs = vec![AttributeAssignment {
        target: None,
        name: chars("start"),
        value: Some(chars("zz")),
        span: peg::ast::Span::new(0, 0),
    }];
    let mut diags: Vec<Diagnostic> = Vec::new();
    let mut parser = peg::front::Parser::new(chars("a = \"x\";"));
    let ast = parser.parse_grammar(chars("g")).expect("grammar must parse");
    assert!(peg::middle::analyse(&ast, &attrs, &mut diags).is_none());
    assert!(diags.iter().any(|d| d.severity == Severity::Error && text(&d.msg)
        == "unresolved reference `zz`"));
}

#[test]
fn empty_literal_matches_everywhere() {
    assert_eq!(run("r = \"\" \"ab\";", "ab"), Ok(None));
}

#[test]
fn match_error_carries_the_literal() {
    let g = compile("r = \"hello\";");
    match run_parser(&g, &chars("help"), 100).expect("allowance must suffice") {
        Err(MatchError::Expected(lit)) => assert_eq!(text(&lit), "hello"),
        _ => panic!("a failed literal must report what it expected"),
    }
}

#[test]
fn whitespace_between_tokens_is_skipped() {
    assert_eq!(run("r  =\n  \"a\"   /  \"b\" ;", "b"), Ok(None));
}

#[test]
fn grouping_controls_precedence() {
    // `("ab")+` repeats the group; without the group the `+` would bind to
    // the last atom alone.
    assert_eq!(run("r = (\"ab\")+;", "abab"), Ok(None));
}

#[test]
fn escapes_in_literals_and_classes() {
    assert_eq!(run("r = \"a\\\"b\";", "a\"b"), Ok(None));
    assert_eq!(run("r = [\\]];", "]"), Ok(None));
}

#[test]
fn trailing_garbage_is_a_syntax_error() {
    let attrs: Vec<AttributeAssignment> = Vec::new();
    let mut diags: Vec<Diagnostic> = Vec::new();
    let input = chars("r = \"a\"; @@@");
    let r = peg::expand(peg::ast::Span::new(0, 0), chars("g"), &input, &attrs, &mut diags);
    assert!(r.is_none());
    assert!(diags.iter().any(|d| d.severity == Severity::Fatal));
}

#[test]
fn single_char_class_item_is_a_point_interval() {
    assert_eq!(run("r = [x];", "x"), Ok(None));
    assert_eq!(run("r = [x];", "y"), Err("It doesn't match the character class.".to_string()));
}
