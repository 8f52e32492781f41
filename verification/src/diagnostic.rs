//! The diagnostic sink. The host owns it; the compiler only appends to it.
use vstd::prelude::*;
use crate::ast::Span;

verus! {

/// Severity of a diagnostic, from least to most severe.
#[derive(Clone, Copy, PartialEq, Eq, Debug)]
pub enum Severity {
    Note,
    Warning,
    Error,
    Fatal,
}

/// One reported diagnostic: a severity, the span it points at, and a message.
#[derive(Clone, PartialEq, Eq, Debug)]
pub struct Diagnostic {
    pub severity: Severity,
    pub span: Span,
    pub msg: Vec<char>,
}

/// True if the sink holds a diagnostic that aborts compilation.
pub open spec fn has_fatal(diags: Seq<Diagnostic>) -> bool {
    exists|i: int|
        0 <= i < diags.len() && (diags[i].severity == Severity::Error
            || diags[i].severity == Severity::Fatal)
}

/// Holds exactly when `new_d` is `old_d` with one diagnostic of the given
/// shape appended.
pub open spec fn appended_one(
    old_d: Seq<Diagnostic>,
    new_d: Seq<Diagnostic>,
    severity: Severity,
    span: Span,
    msg: Seq<char>,
) -> bool {
    &&& new_d.len() == old_d.len() + 1
    &&& new_d.subrange(0, old_d.len() as int) == old_d
    &&& new_d.last().severity == severity
    &&& new_d.last().span == span
    &&& new_d.last().msg@ == msg
}

/// Some diagnostic of this severity carries this message.
pub open spec fn has_diag(diags: Seq<Diagnostic>, severity: Severity, msg: Seq<char>) -> bool {
    exists|i: int|
        0 <= i < diags.len() && (#[trigger] diags[i]).severity == severity && diags[i].msg@ == msg
}

/// Some diagnostic of this severity carries this message at this span.
pub open spec fn has_diag_at(
    diags: Seq<Diagnostic>,
    severity: Severity,
    span: Span,
    msg: Seq<char>,
) -> bool {
    exists|i: int|
        0 <= i < diags.len() && (#[trigger] diags[i]).severity == severity && diags[i].span == span
            && diags[i].msg@ == msg
}

/// Everything this invocation appended is informational: a note or a
/// warning, never an error or a fatal diagnostic.
pub open spec fn no_fatal_added(old_d: Seq<Diagnostic>, new_d: Seq<Diagnostic>) -> bool {
    forall|i: int|
        old_d.len() <= i < new_d.len() ==> ((#[trigger] new_d[i]).severity == Severity::Note
            || new_d[i].severity == Severity::Warning)
}

/// A sink only ever grows, so every diagnostic it holds stays in it.
pub proof fn lemma_diag_monotone(d1: Seq<Diagnostic>, d2: Seq<Diagnostic>)
    requires
        d1.len() <= d2.len(),
        d2.subrange(0, d1.len() as int) == d1,
    ensures
        forall|severity: Severity, msg: Seq<char>|
            has_diag(d1, severity, msg) ==> has_diag(d2, severity, msg),
        forall|severity: Severity, span: Span, msg: Seq<char>|
            has_diag_at(d1, severity, span, msg) ==> has_diag_at(d2, severity, span, msg),
{
    assert forall|severity: Severity, msg: Seq<char>|
        has_diag(d1, severity, msg) implies has_diag(d2, severity, msg) by {
        let i = choose|i: int|
            0 <= i < d1.len() && (#[trigger] d1[i]).severity == severity && d1[i].msg@ == msg;
        assert(d2.subrange(0, d1.len() as int)[i] == d2[i]);
        assert(d2[i].severity == severity && d2[i].msg@ == msg);
    }
    assert forall|severity: Severity, span: Span, msg: Seq<char>|
        has_diag_at(d1, severity, span, msg) implies has_diag_at(d2, severity, span, msg) by {
        let i = choose|i: int|
            0 <= i < d1.len() && (#[trigger] d1[i]).severity == severity && d1[i].span == span
                && d1[i].msg@ == msg;
        assert(d2.subrange(0, d1.len() as int)[i] == d2[i]);
        assert(d2[i].severity == severity && d2[i].span == span && d2[i].msg@ == msg);
    }
}

/// Appends one diagnostic to the sink.
pub fn emit(diags: &mut Vec<Diagnostic>, severity: Severity, span: Span, msg: Vec<char>)
    ensures
        appended_one(old(diags)@, final(diags)@, severity, span, msg@),
{
    diags.push(Diagnostic { severity, span, msg });
    proof {
        assert(diags@.subrange(0, old(diags)@.len() as int) =~= old(diags)@);
    }
}

} // verus!
