//! A Parsing Expression Grammar (PEG) compiler: a front-end parser for the
//! grammar surface syntax, a semantic analyser that resolves rule references
//! and normalizes the expression tree, a type inferencer for capture types,
//! and a back-end that emits a recursive-descent parser as source text.
//! A verified reference semantics states what the emitted matchers do.
use vstd::prelude::*;

pub mod ast;
pub mod attribute;
pub mod back;
pub mod clean_ast;
pub mod diagnostic;
pub mod front;
pub mod middle;
pub mod rule_type;
pub mod semantics;
pub mod typing;
pub mod runtime;
pub mod utility;

verus! {

/// The pipeline's promise on success: the front-end accepted the whole text
/// as some raw grammar under the given name, semantic analysis accepted that
/// grammar and made a clean grammar of it, and the produced text is exactly
/// the module the back-end generates for that clean grammar.
pub open spec fn generated_from(
    grammar_name: Seq<char>,
    attrs: Seq<middle::AttributeAssignment>,
    out: Seq<char>,
) -> bool {
    exists|raw: ast::Grammar, c: clean_ast::Grammar|
        #![trigger middle::analysed(raw, attrs, c)]
        raw.name@ == grammar_name && middle::analyse_ok(raw, attrs) && middle::analysed(
            raw,
            attrs,
            c,
        ) && out == back::spec_module_of(c)
}

/// Runs the three stages on a grammar text: the front-end parser, the
/// semantic analyser, and the code generator. On a syntax error a fatal
/// diagnostic is reported and nothing is returned; semantic defects are
/// collected — each under its message — and abort before generation. On
/// success the generated parser module's source text comes back, pinned to
/// the back-end's specification for the analysed grammar.
pub fn parse(
    grammar_name: Vec<char>,
    input: &Vec<char>,
    attrs: &Vec<middle::AttributeAssignment>,
    diags: &mut Vec<diagnostic::Diagnostic>,
) -> (r: Option<Vec<char>>)
    ensures
        r is None ==> diagnostic::has_fatal(final(diags)@),
        r is Some ==> diagnostic::no_fatal_added(old(diags)@, final(diags)@),
        r is Some ==> generated_from(grammar_name@, attrs@, r->0@),
        final(diags)@.len() >= old(diags)@.len(),
        final(diags)@.subrange(0, old(diags)@.len() as int) == old(diags)@,
{
    let mut parser = front::Parser::new(runtime::copy_chars(input));
    let ast_g = match parser.parse_grammar(grammar_name) {
        Result::Ok(g) => g,
        Result::Err(e) => {
            diagnostic::emit(diags, diagnostic::Severity::Fatal, e.span, e.msg);
            proof {
                assert(final(diags)@.subrange(0, old(diags)@.len() as int) =~= old(diags)@);
            }
            return Option::None;
        },
    };
    let clean = match middle::analyse(&ast_g, attrs, diags) {
        Option::Some(c) => c,
        Option::None => {
            return Option::None;
        },
    };
    let ghost mid = diags@;
    let text = back::PegCompiler::compile(&clean, diags);
    proof {
        assert(diags@.subrange(0, old(diags)@.len() as int) =~= mid.subrange(
            0,
            old(diags)@.len() as int,
        ));
        assert(middle::analysed(ast_g, attrs@, clean));
        assert(generated_from(grammar_name@, attrs@, text@));
        assert(diags@.subrange(0, mid.len() as int) =~= mid);
        assert forall|ii: int|
            old(diags)@.len() <= ii < diags@.len() implies ((#[trigger] diags@[ii]).severity
            == diagnostic::Severity::Note || diags@[ii].severity
            == diagnostic::Severity::Warning) by {
            if ii < mid.len() {
                assert(diags@.subrange(0, mid.len() as int)[ii] == diags@[ii]);
            } else {
                assert(ii == diags@.len() - 1);
            }
        }
    }
    Option::Some(text)
}

/// The invocation surface the host calls: parses the grammar, runs semantic
/// analysis and, when no fatal diagnostic was raised, returns the generated
/// module. The body forwards to `parse` unchanged; the invocation span
/// appears in no clause below, so nothing promised here depends on it.
pub fn expand(
    sp: ast::Span,
    grammar_name: Vec<char>,
    input: &Vec<char>,
    attrs: &Vec<middle::AttributeAssignment>,
    diags: &mut Vec<diagnostic::Diagnostic>,
) -> (r: Option<Vec<char>>)
    ensures
        r is None ==> diagnostic::has_fatal(final(diags)@),
        r is Some ==> diagnostic::no_fatal_added(old(diags)@, final(diags)@),
        r is Some ==> generated_from(grammar_name@, attrs@, r->0@),
        final(diags)@.len() >= old(diags)@.len(),
        final(diags)@.subrange(0, old(diags)@.len() as int) == old(diags)@,
{
    let _ = sp;
    parse(grammar_name, input, attrs, diags)
}

} // verus!
