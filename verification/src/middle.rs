//! The semantic analyser: duplicate-rule detection, reference resolution,
//! attribute application, well-formedness checks and normalization. Errors
//! are collected across the whole grammar; the stage succeeds only if none
//! were raised.
use vstd::prelude::*;
use crate::ast;
use crate::ast::Span;
use crate::attribute::set_attribute;
use crate::clean_ast::{normalized, wf_expr, CleanExpression};
use crate::diagnostic::{emit, has_fatal, Diagnostic, Severity};
use crate::rule_type::RuleType;
use crate::utility::{chars_eq, chars_of, push_chars, push_str_chars};

verus! {

/// One attribute assignment handed in by the host: on the grammar when
/// `target` is `None`, on the named rule otherwise. `value` carries the
/// identifier argument of valued attributes such as `start`.
pub struct AttributeAssignment {
    pub target: Option<Vec<char>>,
    pub name: Vec<char>,
    pub value: Option<Vec<char>>,
    pub span: Span,
}

/// The names of the rules, in declaration order.
pub open spec fn rule_names(rules: Seq<ast::Rule>) -> Seq<Seq<char>> {
    rules.map_values(|r: ast::Rule| r.name@)
}

/// Rule names are pairwise distinct.
pub open spec fn raw_names_unique(rules: Seq<ast::Rule>) -> bool {
    forall|i: int, j: int|
        0 <= i < j < rules.len() ==> (#[trigger] rules[i].name@) != (#[trigger] rules[j].name@)
}

/// Every non-terminal of `e` names a rule present in `names`.
pub open spec fn spec_resolvable(e: ast::Expression, names: Seq<Seq<char>>) -> bool
    decreases e,
{
    match e.node {
        ast::ExpressionNode::StrLiteral(_) => true,
        ast::ExpressionNode::AnySingleChar => true,
        ast::ExpressionNode::NonTerminalSymbol(n) => exists|i: int|
            0 <= i < names.len() && names[i] == n@,
        ast::ExpressionNode::Sequence(cs) => forall|i: int|
            0 <= i < cs@.len() ==> spec_resolvable(#[trigger] cs@[i], names),
        ast::ExpressionNode::Choice(cs) => forall|i: int|
            0 <= i < cs@.len() ==> spec_resolvable(#[trigger] cs@[i], names),
        ast::ExpressionNode::ZeroOrMore(c) => spec_resolvable(*c, names),
        ast::ExpressionNode::OneOrMore(c) => spec_resolvable(*c, names),
        ast::ExpressionNode::Optional(c) => spec_resolvable(*c, names),
        ast::ExpressionNode::NotPredicate(c) => spec_resolvable(*c, names),
        ast::ExpressionNode::AndPredicate(c) => spec_resolvable(*c, names),
        ast::ExpressionNode::CharacterClass(_) => true,
    }
}

/// Every character class of `e` is well-formed: each interval has `lo <= hi`.
pub open spec fn spec_classes_ok(e: ast::Expression) -> bool
    decreases e,
{
    match e.node {
        ast::ExpressionNode::StrLiteral(_) => true,
        ast::ExpressionNode::AnySingleChar => true,
        ast::ExpressionNode::NonTerminalSymbol(_) => true,
        ast::ExpressionNode::Sequence(cs) => forall|i: int|
            0 <= i < cs@.len() ==> spec_classes_ok(#[trigger] cs@[i]),
        ast::ExpressionNode::Choice(cs) => forall|i: int|
            0 <= i < cs@.len() ==> spec_classes_ok(#[trigger] cs@[i]),
        ast::ExpressionNode::ZeroOrMore(c) => spec_classes_ok(*c),
        ast::ExpressionNode::OneOrMore(c) => spec_classes_ok(*c),
        ast::ExpressionNode::Optional(c) => spec_classes_ok(*c),
        ast::ExpressionNode::NotPredicate(c) => spec_classes_ok(*c),
        ast::ExpressionNode::AndPredicate(c) => spec_classes_ok(*c),
        ast::ExpressionNode::CharacterClass(cc) => forall|i: int|
            0 <= i < cc.intervals@.len() ==> (#[trigger] cc.intervals@[i]).lo
                <= cc.intervals@[i].hi,
    }
}

/// One normalization step over already-clean children: a child sequence is
/// spliced into its parent sequence; likewise for choices (handled by the
/// caller choosing which variant splices).
pub open spec fn flatten_seq(ds: Seq<CleanExpression>) -> Seq<CleanExpression>
    decreases ds.len(),
{
    if ds.len() == 0 {
        Seq::empty()
    } else {
        (match ds[0] {
            CleanExpression::Sequence(gs) => gs@,
            _ => seq![ds[0]],
        }) + flatten_seq(ds.drop_first())
    }
}

/// The choice counterpart of `flatten_seq`.
pub open spec fn flatten_choice(ds: Seq<CleanExpression>) -> Seq<CleanExpression>
    decreases ds.len(),
{
    if ds.len() == 0 {
        Seq::empty()
    } else {
        (match ds[0] {
            CleanExpression::Choice(gs) => gs@,
            _ => seq![ds[0]],
        }) + flatten_choice(ds.drop_first())
    }
}

/// `clean` is the folded sequence over the cleaned children `ds`.
pub open spec fn seq_folded(ds: Seq<CleanExpression>, clean: CleanExpression) -> bool {
    let flat = flatten_seq(ds);
    if flat.len() == 1 {
        clean == flat[0]
    } else {
        clean matches CleanExpression::Sequence(v) && v@ == flat
    }
}

/// `clean` is the folded choice over the cleaned children `ds`.
pub open spec fn choice_folded(ds: Seq<CleanExpression>, clean: CleanExpression) -> bool {
    let flat = flatten_choice(ds);
    if flat.len() == 1 {
        clean == flat[0]
    } else {
        clean matches CleanExpression::Choice(v) && v@ == flat
    }
}

/// The resolution-and-normalization relation between a raw expression and a
/// clean one: literals and classes carry the same text, every non-terminal
/// carries the index of the first rule bearing its name, and nested
/// sequences and choices are folded into their parents.
pub open spec fn transform_rel(
    e: ast::Expression,
    clean: CleanExpression,
    names: Seq<Seq<char>>,
) -> bool
    decreases e,
{
    match e.node {
        ast::ExpressionNode::StrLiteral(s) => clean matches CleanExpression::StrLiteral(t) && t@
            == s@,
        ast::ExpressionNode::AnySingleChar => clean is AnySingleChar,
        ast::ExpressionNode::NonTerminalSymbol(n) => clean matches
            CleanExpression::NonTerminalSymbol(i) && i < names.len() && names[i as int] == n@ && (
        forall|j: int| 0 <= j < i ==> names[j] != n@),
        ast::ExpressionNode::Sequence(cs) => exists|ds: Seq<CleanExpression>|
            #![auto]
            ds.len() == cs@.len() && (forall|i: int|
                0 <= i < cs@.len() ==> transform_rel(cs@[i], ds[i], names)) && seq_folded(
                ds,
                clean,
            ),
        ast::ExpressionNode::Choice(cs) => exists|ds: Seq<CleanExpression>|
            #![auto]
            ds.len() == cs@.len() && (forall|i: int|
                0 <= i < cs@.len() ==> transform_rel(cs@[i], ds[i], names)) && choice_folded(
                ds,
                clean,
            ),
        ast::ExpressionNode::ZeroOrMore(c) => clean matches CleanExpression::ZeroOrMore(d)
            && transform_rel(*c, *d, names),
        ast::ExpressionNode::OneOrMore(c) => clean matches CleanExpression::OneOrMore(d)
            && transform_rel(*c, *d, names),
        ast::ExpressionNode::Optional(c) => clean matches CleanExpression::Optional(d)
            && transform_rel(*c, *d, names),
        ast::ExpressionNode::NotPredicate(c) => clean matches CleanExpression::NotPredicate(d)
            && transform_rel(*c, *d, names),
        ast::ExpressionNode::AndPredicate(c) => clean matches CleanExpression::AndPredicate(d)
            && transform_rel(*c, *d, names),
        ast::ExpressionNode::CharacterClass(cc) => clean matches CleanExpression::CharacterClass(
            dd,
        ) && dd.intervals@ == cc.intervals@,
    }
}

/// Splices the children of each direct sub-sequence into one list, keeping
/// order; the other children are kept as they are.
fn flatten_sequences(ds: Vec<CleanExpression>, Ghost(n_rules): Ghost<nat>) -> (r: Vec<CleanExpression>)
    ensures
        r@ == flatten_seq(ds@),
        (forall|i: int| 0 <= i < ds@.len() ==> normalized(#[trigger] ds@[i])) ==> r@.len()
            >= ds@.len(),
        (forall|i: int| 0 <= i < ds@.len() ==> normalized(#[trigger] ds@[i])) ==> (forall|j: int|
            0 <= j < r@.len() ==> normalized(#[trigger] r@[j]) && !(r@[j] is Sequence)),
        (forall|i: int| 0 <= i < ds@.len() ==> wf_expr(#[trigger] ds@[i], n_rules)) ==> (forall|
            j: int,
        |
            0 <= j < r@.len() ==> wf_expr(#[trigger] r@[j], n_rules)),
{
    let ghost orig = ds@;
    let mut ds = ds;
    let mut out: Vec<CleanExpression> = Vec::new();
    let ghost mut k: int = 0;
    proof {
        assert(ds@ =~= orig.subrange(k, orig.len() as int));
    }
    while ds.len() > 0
        invariant
            0 <= k <= orig.len(),
            k + ds@.len() == orig.len(),
            ds@ == orig.subrange(k, orig.len() as int),
            flatten_seq(orig) == out@ + flatten_seq(ds@),
            (forall|i: int| 0 <= i < orig.len() ==> normalized(#[trigger] orig[i])) ==> out@.len()
                >= k,
            (forall|i: int| 0 <= i < orig.len() ==> normalized(#[trigger] orig[i])) ==> (forall|
                j: int,
            |
                0 <= j < out@.len() ==> normalized(#[trigger] out@[j]) && !(out@[j] is Sequence)),
            (forall|i: int| 0 <= i < orig.len() ==> wf_expr(#[trigger] orig[i], n_rules)) ==> (
            forall|j: int|
                0 <= j < out@.len() ==> wf_expr(#[trigger] out@[j], n_rules)),
        decreases ds@.len(),
    {
        let ghost ds_before = ds@;
        let ghost out_before = out@;
        let d = ds.remove(0);
        proof {
            assert(d == orig[k]);
            assert(ds@ =~= ds_before.drop_first());
            assert(ds@ =~= orig.subrange(k + 1, orig.len() as int));
        }
        match d {
            CleanExpression::Sequence(gs) => {
                let ghost gs_view = gs@;
                let mut gs = gs;
                proof {
                    assert(gs_view.subrange(0, 0) =~= Seq::<CleanExpression>::empty());
                    assert(out@ =~= out_before + gs_view.subrange(0, gs_view.len() - gs@.len()));
                    assert(gs@ =~= gs_view.subrange(
                        gs_view.len() - gs@.len(),
                        gs_view.len() as int,
                    ));
                }
                while gs.len() > 0
                    invariant
                        gs@.len() <= gs_view.len(),
                        out@ == out_before + gs_view.subrange(
                            0,
                            gs_view.len() - gs@.len(),
                        ),
                        gs@ == gs_view.subrange(
                            gs_view.len() - gs@.len(),
                            gs_view.len() as int,
                        ),
                    decreases gs@.len(),
                {
                    let x = gs.remove(0);
                    out.push(x);
                    proof {
                        assert(gs@ =~= gs_view.subrange(
                            gs_view.len() - gs@.len(),
                            gs_view.len() as int,
                        ));
                        assert(out@ =~= out_before + gs_view.subrange(
                            0,
                            gs_view.len() - gs@.len(),
                        ));
                    }
                }
                proof {
                    assert(gs_view.subrange(0, gs_view.len() as int) =~= gs_view);
                    assert(out@ =~= out_before + gs_view);
                    assert(flatten_seq(ds_before) == gs_view + flatten_seq(ds_before.drop_first()));
                    assert(flatten_seq(orig) =~= out@ + flatten_seq(ds@));
                    assert(normalized(orig[k]) ==> (forall|j: int|
                        0 <= j < gs_view.len() ==> normalized(#[trigger] gs_view[j]) && !(
                        gs_view[j] is Sequence) && gs_view.len() >= 2));
                    k = k + 1;
                }
            },
            other => {
                out.push(other);
                proof {
                    assert(flatten_seq(ds_before) == seq![orig[k]] + flatten_seq(
                        ds_before.drop_first(),
                    ));
                    assert(out@ =~= out_before + seq![orig[k]]);
                    assert(flatten_seq(orig) =~= out@ + flatten_seq(ds@));
                    k = k + 1;
                }
            },
        }
    }
    proof {
        assert(flatten_seq(ds@) =~= Seq::<CleanExpression>::empty());
        assert(out@ =~= flatten_seq(orig));
    }
    out
}

/// Splices the children of each direct sub-choice into one list, keeping
/// order; the other children are kept as they are.
fn flatten_choices(ds: Vec<CleanExpression>, Ghost(n_rules): Ghost<nat>) -> (r: Vec<CleanExpression>)
    ensures
        r@ == flatten_choice(ds@),
        (forall|i: int| 0 <= i < ds@.len() ==> normalized(#[trigger] ds@[i])) ==> r@.len()
            >= ds@.len(),
        (forall|i: int| 0 <= i < ds@.len() ==> normalized(#[trigger] ds@[i])) ==> (forall|j: int|
            0 <= j < r@.len() ==> normalized(#[trigger] r@[j]) && !(r@[j] is Choice)),
        (forall|i: int| 0 <= i < ds@.len() ==> wf_expr(#[trigger] ds@[i], n_rules)) ==> (forall|
            j: int,
        |
            0 <= j < r@.len() ==> wf_expr(#[trigger] r@[j], n_rules)),
{
    let ghost orig = ds@;
    let mut ds = ds;
    let mut out: Vec<CleanExpression> = Vec::new();
    let ghost mut k: int = 0;
    proof {
        assert(ds@ =~= orig.subrange(k, orig.len() as int));
    }
    while ds.len() > 0
        invariant
            0 <= k <= orig.len(),
            k + ds@.len() == orig.len(),
            ds@ == orig.subrange(k, orig.len() as int),
            flatten_choice(orig) == out@ + flatten_choice(ds@),
            (forall|i: int| 0 <= i < orig.len() ==> normalized(#[trigger] orig[i])) ==> out@.len()
                >= k,
            (forall|i: int| 0 <= i < orig.len() ==> normalized(#[trigger] orig[i])) ==> (forall|
                j: int,
            |
                0 <= j < out@.len() ==> normalized(#[trigger] out@[j]) && !(out@[j] is Choice)),
            (forall|i: int| 0 <= i < orig.len() ==> wf_expr(#[trigger] orig[i], n_rules)) ==> (
            forall|j: int|
                0 <= j < out@.len() ==> wf_expr(#[trigger] out@[j], n_rules)),
        decreases ds@.len(),
    {
        let ghost ds_before = ds@;
        let ghost out_before = out@;
        let d = ds.remove(0);
        proof {
            assert(d == orig[k]);
            assert(ds@ =~= ds_before.drop_first());
            assert(ds@ =~= orig.subrange(k + 1, orig.len() as int));
        }
        match d {
            CleanExpression::Choice(gs) => {
                let ghost gs_view = gs@;
                let mut gs = gs;
                proof {
                    assert(gs_view.subrange(0, 0) =~= Seq::<CleanExpression>::empty());
                    assert(out@ =~= out_before + gs_view.subrange(0, gs_view.len() - gs@.len()));
                    assert(gs@ =~= gs_view.subrange(
                        gs_view.len() - gs@.len(),
                        gs_view.len() as int,
                    ));
                }
                while gs.len() > 0
                    invariant
                        gs@.len() <= gs_view.len(),
                        out@ == out_before + gs_view.subrange(
                            0,
                            gs_view.len() - gs@.len(),
                        ),
                        gs@ == gs_view.subrange(
                            gs_view.len() - gs@.len(),
                            gs_view.len() as int,
                        ),
                    decreases gs@.len(),
                {
                    let x = gs.remove(0);
                    out.push(x);
                    proof {
                        assert(gs@ =~= gs_view.subrange(
                            gs_view.len() - gs@.len(),
                            gs_view.len() as int,
                        ));
                        assert(out@ =~= out_before + gs_view.subrange(
                            0,
                            gs_view.len() - gs@.len(),
                        ));
                    }
                }
                proof {
                    assert(gs_view.subrange(0, gs_view.len() as int) =~= gs_view);
                    assert(out@ =~= out_before + gs_view);
                    assert(flatten_choice(ds_before) == gs_view + flatten_choice(
                        ds_before.drop_first(),
                    ));
                    assert(flatten_choice(orig) =~= out@ + flatten_choice(ds@));
                    k = k + 1;
                }
            },
            other => {
                out.push(other);
                proof {
                    assert(flatten_choice(ds_before) == seq![orig[k]] + flatten_choice(
                        ds_before.drop_first(),
                    ));
                    assert(out@ =~= out_before + seq![orig[k]]);
                    assert(flatten_choice(orig) =~= out@ + flatten_choice(ds@));
                    k = k + 1;
                }
            },
        }
    }
    proof {
        assert(flatten_choice(ds@) =~= Seq::<CleanExpression>::empty());
        assert(out@ =~= flatten_choice(orig));
    }
    out
}

/// The message reported for a second rule bearing an already-used name.
pub open spec fn spec_dup_rule_msg(name: Seq<char>) -> Seq<char> {
    "duplicate rule `"@ + name + "`"@
}

/// The message reported for a non-terminal that names no rule.
pub open spec fn spec_unresolved_msg(name: Seq<char>) -> Seq<char> {
    "unresolved reference `"@ + name + "`"@
}

/// The message reported for a character class with an interval out of order.
pub open spec fn spec_malformed_class_msg() -> Seq<char> {
    "malformed character class"@
}

/// Some non-terminal of `e` is named `n`, and no rule carries that name.
pub open spec fn mentions_unresolved(
    e: ast::Expression,
    n: Seq<char>,
    names: Seq<Seq<char>>,
) -> bool
    decreases e,
{
    match e.node {
        ast::ExpressionNode::StrLiteral(_) => false,
        ast::ExpressionNode::AnySingleChar => false,
        ast::ExpressionNode::NonTerminalSymbol(m) => m@ == n && !(exists|i: int|
            0 <= i < names.len() && names[i] == n),
        ast::ExpressionNode::Sequence(cs) => exists|i: int|
            0 <= i < cs@.len() && mentions_unresolved(#[trigger] cs@[i], n, names),
        ast::ExpressionNode::Choice(cs) => exists|i: int|
            0 <= i < cs@.len() && mentions_unresolved(#[trigger] cs@[i], n, names),
        ast::ExpressionNode::ZeroOrMore(c) => mentions_unresolved(*c, n, names),
        ast::ExpressionNode::OneOrMore(c) => mentions_unresolved(*c, n, names),
        ast::ExpressionNode::Optional(c) => mentions_unresolved(*c, n, names),
        ast::ExpressionNode::NotPredicate(c) => mentions_unresolved(*c, n, names),
        ast::ExpressionNode::AndPredicate(c) => mentions_unresolved(*c, n, names),
        ast::ExpressionNode::CharacterClass(_) => false,
    }
}

/// Some character class of `e` holds an interval with `lo > hi`.
pub open spec fn has_malformed_class(e: ast::Expression) -> bool
    decreases e,
{
    match e.node {
        ast::ExpressionNode::StrLiteral(_) => false,
        ast::ExpressionNode::AnySingleChar => false,
        ast::ExpressionNode::NonTerminalSymbol(_) => false,
        ast::ExpressionNode::Sequence(cs) => exists|i: int|
            0 <= i < cs@.len() && has_malformed_class(#[trigger] cs@[i]),
        ast::ExpressionNode::Choice(cs) => exists|i: int|
            0 <= i < cs@.len() && has_malformed_class(#[trigger] cs@[i]),
        ast::ExpressionNode::ZeroOrMore(c) => has_malformed_class(*c),
        ast::ExpressionNode::OneOrMore(c) => has_malformed_class(*c),
        ast::ExpressionNode::Optional(c) => has_malformed_class(*c),
        ast::ExpressionNode::NotPredicate(c) => has_malformed_class(*c),
        ast::ExpressionNode::AndPredicate(c) => has_malformed_class(*c),
        ast::ExpressionNode::CharacterClass(cc) => exists|i: int|
            0 <= i < cc.intervals@.len() && !((#[trigger] cc.intervals@[i]).lo
                <= cc.intervals@[i].hi),
    }
}

/// The index of the first rule named `name`, if any.
pub fn find_rule_index(rules: &Vec<ast::Rule>, name: &Vec<char>) -> (r: Option<usize>)
    ensures
        match r {
            Some(i) => i < rules@.len() && rule_names(rules@)[i as int] == name@ && forall|j: int|
                0 <= j < i ==> rule_names(rules@)[j] != name@,
            None => forall|j: int| 0 <= j < rules@.len() ==> rule_names(rules@)[j] != name@,
        },
{
    let mut i: usize = 0;
    while i < rules.len()
        invariant
            i <= rules@.len(),
            forall|j: int| 0 <= j < i ==> rules@[j].name@ != name@,
        decreases rules@.len() - i,
    {
        if chars_eq(&rules[i].name, name) {
            return Option::Some(i);
        }
        i += 1;
    }
    Option::None
}

/// Resolves every non-terminal of `e` to its rule index, checks character
/// classes, and normalizes the tree (folding nested sequences and choices).
/// Succeeds exactly when every reference resolves and every class is
/// well-formed; otherwise the defects are reported and collection goes on.
pub fn transform_expr(
    e: &ast::Expression,
    rules: &Vec<ast::Rule>,
    diags: &mut Vec<Diagnostic>,
) -> (r: Option<CleanExpression>)
    requires
        ast::raw_wf(*e),
    ensures
        r is Some ==> transform_rel(*e, r->0, rule_names(rules@)) && wf_expr(
            r->0,
            rules@.len() as nat,
        ) && normalized(r->0),
        r is Some <==> spec_resolvable(*e, rule_names(rules@)) && spec_classes_ok(*e),
        r is Some ==> final(diags)@ == old(diags)@,
        final(diags)@.len() >= old(diags)@.len(),
        final(diags)@.subrange(0, old(diags)@.len() as int) == old(diags)@,
        r is None ==> has_fatal(final(diags)@),
        forall|n: Seq<char>|
            #![trigger spec_unresolved_msg(n)]
            #![trigger mentions_unresolved(*e, n, rule_names(rules@))]
            mentions_unresolved(*e, n, rule_names(rules@)) ==> crate::diagnostic::has_diag(
                final(diags)@,
                Severity::Error,
                spec_unresolved_msg(n),
            ),
        has_malformed_class(*e) ==> crate::diagnostic::has_diag(
            final(diags)@,
            Severity::Error,
            spec_malformed_class_msg(),
        ),
    decreases *e,
{
    match &e.node {
        ast::ExpressionNode::StrLiteral(s) => Option::Some(
            CleanExpression::StrLiteral(crate::runtime::copy_chars(s)),
        ),
        ast::ExpressionNode::AnySingleChar => Option::Some(CleanExpression::AnySingleChar),
        ast::ExpressionNode::NonTerminalSymbol(n) => {
            match find_rule_index(rules, n) {
                Option::Some(i) => Option::Some(CleanExpression::NonTerminalSymbol(i)),
                Option::None => {
                    let mut msg: Vec<char> = Vec::new();
                    push_str_chars(&mut msg, "unresolved reference `");
                    push_chars(&mut msg, n);
                    push_str_chars(&mut msg, "`");
                    proof {
                        assert(msg@ =~= spec_unresolved_msg(n@));
                    }
                    emit(diags, Severity::Error, e.span, msg);
                    proof {
                        assert(crate::diagnostic::has_diag(
                            diags@,
                            Severity::Error,
                            spec_unresolved_msg(n@),
                        ));
                    }
                    Option::None
                },
            }
        },
        ast::ExpressionNode::Sequence(cs) => {
            let rr = transform_children(cs, rules, diags);
            proof {
                assert forall|n: Seq<char>|
                    mentions_unresolved(*e, n, rule_names(rules@)) implies exists|i: int|
                    0 <= i < cs@.len() && mentions_unresolved(
                        #[trigger] cs@[i],
                        n,
                        rule_names(rules@),
                    ) by {}
            }
            match rr {
                Option::Some(ds) => {
                    let ghost ds_view = ds@;
                    let mut flat = flatten_sequences(ds, Ghost(rules@.len() as nat));
                    if flat.len() == 1 {
                        let single = flat.remove(0);
                        proof {
                            assert(seq_folded(ds_view, single));
                            assert(transform_rel(*e, single, rule_names(rules@)));
                        }
                        Option::Some(single)
                    } else {
                        let ghost flat_view = flat@;
                        let out = CleanExpression::Sequence(flat);
                        proof {
                            assert(seq_folded(ds_view, out));
                            assert(transform_rel(*e, out, rule_names(rules@)));
                        }
                        Option::Some(out)
                    }
                },
                Option::None => Option::None,
            }
        },
        ast::ExpressionNode::Choice(cs) => {
            let rr = transform_children(cs, rules, diags);
            proof {
                assert forall|n: Seq<char>|
                    mentions_unresolved(*e, n, rule_names(rules@)) implies exists|i: int|
                    0 <= i < cs@.len() && mentions_unresolved(
                        #[trigger] cs@[i],
                        n,
                        rule_names(rules@),
                    ) by {}
            }
            match rr {
                Option::Some(ds) => {
                    let ghost ds_view = ds@;
                    let mut flat = flatten_choices(ds, Ghost(rules@.len() as nat));
                    if flat.len() == 1 {
                        let single = flat.remove(0);
                        proof {
                            assert(choice_folded(ds_view, single));
                            assert(transform_rel(*e, single, rule_names(rules@)));
                        }
                        Option::Some(single)
                    } else {
                        let ghost flat_view = flat@;
                        let out = CleanExpression::Choice(flat);
                        proof {
                            assert(choice_folded(ds_view, out));
                            assert(transform_rel(*e, out, rule_names(rules@)));
                        }
                        Option::Some(out)
                    }
                },
                Option::None => Option::None,
            }
        },
        ast::ExpressionNode::ZeroOrMore(c) => {
            let rr = transform_expr(c, rules, diags);
            proof {
                assert forall|n: Seq<char>|
                    mentions_unresolved(*e, n, rule_names(rules@)) implies mentions_unresolved(
                    **c,
                    n,
                    rule_names(rules@),
                ) by {}
            }
            match rr {
                Option::Some(d) => Option::Some(CleanExpression::ZeroOrMore(Box::new(d))),
                Option::None => Option::None,
            }
        },
        ast::ExpressionNode::OneOrMore(c) => {
            let rr = transform_expr(c, rules, diags);
            proof {
                assert forall|n: Seq<char>|
                    mentions_unresolved(*e, n, rule_names(rules@)) implies mentions_unresolved(
                    **c,
                    n,
                    rule_names(rules@),
                ) by {}
            }
            match rr {
                Option::Some(d) => Option::Some(CleanExpression::OneOrMore(Box::new(d))),
                Option::None => Option::None,
            }
        },
        ast::ExpressionNode::Optional(c) => {
            let rr = transform_expr(c, rules, diags);
            proof {
                assert forall|n: Seq<char>|
                    mentions_unresolved(*e, n, rule_names(rules@)) implies mentions_unresolved(
                    **c,
                    n,
                    rule_names(rules@),
                ) by {}
            }
            match rr {
                Option::Some(d) => Option::Some(CleanExpression::Optional(Box::new(d))),
                Option::None => Option::None,
            }
        },
        ast::ExpressionNode::NotPredicate(c) => {
            let rr = transform_expr(c, rules, diags);
            proof {
                assert forall|n: Seq<char>|
                    mentions_unresolved(*e, n, rule_names(rules@)) implies mentions_unresolved(
                    **c,
                    n,
                    rule_names(rules@),
                ) by {}
            }
            match rr {
                Option::Some(d) => Option::Some(CleanExpression::NotPredicate(Box::new(d))),
                Option::None => Option::None,
            }
        },
        ast::ExpressionNode::AndPredicate(c) => {
            let rr = transform_expr(c, rules, diags);
            proof {
                assert forall|n: Seq<char>|
                    mentions_unresolved(*e, n, rule_names(rules@)) implies mentions_unresolved(
                    **c,
                    n,
                    rule_names(rules@),
                ) by {}
            }
            match rr {
                Option::Some(d) => Option::Some(CleanExpression::AndPredicate(Box::new(d))),
                Option::None => Option::None,
            }
        },
        ast::ExpressionNode::CharacterClass(cc) => {
            let mut i: usize = 0;
            let mut ok = true;
            while i < cc.intervals.len()
                invariant
                    i <= cc.intervals@.len(),
                    ok == (forall|j: int|
                        0 <= j < i ==> (#[trigger] cc.intervals@[j]).lo <= cc.intervals@[j].hi),
                decreases cc.intervals@.len() - i,
            {
                if !(cc.intervals[i].lo <= cc.intervals[i].hi) {
                    ok = false;
                }
                i += 1;
            }
            if ok {
                Option::Some(
                    CleanExpression::CharacterClass(
                        ast::CharacterClassExpr {
                            intervals: crate::utility::copy_intervals(&cc.intervals),
                        },
                    ),
                )
            } else {
                let mut msg: Vec<char> = Vec::new();
                push_str_chars(&mut msg, "malformed character class");
                proof {
                    assert(msg@ =~= spec_malformed_class_msg());
                }
                emit(diags, Severity::Error, e.span, msg);
                proof {
                    assert(crate::diagnostic::has_diag(
                        diags@,
                        Severity::Error,
                        spec_malformed_class_msg(),
                    ));
                }
                Option::None
            }
        },
    }
}

/// Transforms every child; `None` if any child fails, with every child's
/// defects reported.
fn transform_children(
    cs: &Vec<ast::Expression>,
    rules: &Vec<ast::Rule>,
    diags: &mut Vec<Diagnostic>,
) -> (r: Option<Vec<CleanExpression>>)
    requires
        forall|i: int| 0 <= i < cs@.len() ==> ast::raw_wf(#[trigger] cs@[i]),
    ensures
        r is Some ==> r->0@.len() == cs@.len() && forall|i: int|
            0 <= i < cs@.len() ==> transform_rel(cs@[i], #[trigger] r->0@[i], rule_names(rules@))
                && wf_expr(r->0@[i], rules@.len() as nat) && normalized(r->0@[i]),
        r is Some <==> (forall|i: int|
            0 <= i < cs@.len() ==> spec_resolvable(#[trigger] cs@[i], rule_names(rules@))
                && spec_classes_ok(cs@[i])),
        r is Some ==> final(diags)@ == old(diags)@,
        final(diags)@.len() >= old(diags)@.len(),
        final(diags)@.subrange(0, old(diags)@.len() as int) == old(diags)@,
        r is None ==> has_fatal(final(diags)@),
        forall|i: int, n: Seq<char>|
            #![trigger mentions_unresolved(cs@[i], n, rule_names(rules@))]
            0 <= i < cs@.len() && mentions_unresolved(cs@[i], n, rule_names(rules@))
                ==> crate::diagnostic::has_diag(
                final(diags)@,
                Severity::Error,
                spec_unresolved_msg(n),
            ),
        forall|i: int|
            0 <= i < cs@.len() && has_malformed_class(#[trigger] cs@[i])
                ==> crate::diagnostic::has_diag(
                final(diags)@,
                Severity::Error,
                spec_malformed_class_msg(),
            ),
    decreases cs@,
{
    let mut ds: Vec<CleanExpression> = Vec::new();
    let mut ok = true;
    let mut i: usize = 0;
    while i < cs.len()
        invariant
            i <= cs@.len(),
            forall|j: int| 0 <= j < cs@.len() ==> ast::raw_wf(#[trigger] cs@[j]),
            ok ==> ds@.len() == i,
            ok ==> forall|j: int|
                0 <= j < i ==> transform_rel(cs@[j], #[trigger] ds@[j], rule_names(rules@))
                    && wf_expr(ds@[j], rules@.len() as nat) && normalized(ds@[j]),
            ok == (forall|j: int|
                0 <= j < i ==> spec_resolvable(#[trigger] cs@[j], rule_names(rules@))
                    && spec_classes_ok(cs@[j])),
            ok ==> diags@ == old(diags)@,
            diags@.len() >= old(diags)@.len(),
            diags@.subrange(0, old(diags)@.len() as int) == old(diags)@,
            !ok ==> has_fatal(diags@),
            forall|j: int, n: Seq<char>|
                #![trigger mentions_unresolved(cs@[j], n, rule_names(rules@))]
                0 <= j < i && mentions_unresolved(cs@[j], n, rule_names(rules@))
                    ==> crate::diagnostic::has_diag(
                    diags@,
                    Severity::Error,
                    spec_unresolved_msg(n),
                ),
            forall|j: int|
                0 <= j < i && has_malformed_class(#[trigger] cs@[j])
                    ==> crate::diagnostic::has_diag(
                    diags@,
                    Severity::Error,
                    spec_malformed_class_msg(),
                ),
        decreases cs@.len() - i,
    {
        proof {
            assert(decreases_to!(cs@ => cs@[i as int]));
        }
        let ghost mid = diags@;
        match transform_expr(&cs[i], rules, diags) {
            Option::Some(d) => {
                if ok {
                    ds.push(d);
                }
            },
            Option::None => {
                ok = false;
            },
        }
        proof {
            assert(diags@.subrange(0, old(diags)@.len() as int) =~= mid.subrange(
                0,
                old(diags)@.len() as int,
            ));
            assert(diags@.subrange(0, mid.len() as int) =~= mid);
            crate::diagnostic::lemma_diag_monotone(mid, diags@);
        }
        i += 1;
    }
    if ok {
        Option::Some(ds)
    } else {
        Option::None
    }
}

/// Reports every duplicated rule name, at its second occurrence; true means
/// all names are distinct.
pub fn check_duplicate_rules(rules: &Vec<ast::Rule>, diags: &mut Vec<Diagnostic>) -> (r: bool)
    ensures
        r == raw_names_unique(rules@),
        r ==> final(diags)@ == old(diags)@,
        final(diags)@.len() >= old(diags)@.len(),
        final(diags)@.subrange(0, old(diags)@.len() as int) == old(diags)@,
        !r ==> has_fatal(final(diags)@),
        forall|j: int|
            #![auto]
            (0 <= j < rules@.len() && exists|a: int|
                0 <= a < j && rules@[a].name@ == rules@[j].name@) ==> crate::diagnostic::has_diag_at(
                final(diags)@,
                Severity::Error,
                rules@[j].span,
                spec_dup_rule_msg(rules@[j].name@),
            ),
{
    let mut ok = true;
    let mut j: usize = 0;
    while j < rules.len()
        invariant
            j <= rules@.len(),
            ok == (forall|a: int, b: int|
                0 <= a < b < j ==> (#[trigger] rules@[a].name@) != (#[trigger] rules@[b].name@)),
            ok ==> diags@ == old(diags)@,
            diags@.len() >= old(diags)@.len(),
            diags@.subrange(0, old(diags)@.len() as int) == old(diags)@,
            !ok ==> has_fatal(diags@),
            forall|j2: int|
                #![auto]
                (0 <= j2 < j && exists|a: int|
                    0 <= a < j2 && rules@[a].name@ == rules@[j2].name@)
                    ==> crate::diagnostic::has_diag_at(
                    diags@,
                    Severity::Error,
                    rules@[j2].span,
                    spec_dup_rule_msg(rules@[j2].name@),
                ),
        decreases rules@.len() - j,
    {
        let mut found = false;
        let mut i: usize = 0;
        while i < j
            invariant
                i <= j < rules@.len(),
                found == (exists|a: int| 0 <= a < i && rules@[a].name@ == rules@[j as int].name@),
            decreases j - i,
        {
            if chars_eq(&rules[i].name, &rules[j].name) {
                found = true;
            }
            i += 1;
        }
        if found {
            let ghost mid = diags@;
            let mut msg: Vec<char> = Vec::new();
            push_str_chars(&mut msg, "duplicate rule `");
            push_chars(&mut msg, &rules[j].name);
            push_str_chars(&mut msg, "`");
            proof {
                assert(msg@ =~= spec_dup_rule_msg(rules@[j as int].name@));
            }
            emit(diags, Severity::Error, rules[j].span, msg);
            ok = false;
            proof {
                assert(diags@.subrange(0, old(diags)@.len() as int) =~= mid.subrange(
                    0,
                    old(diags)@.len() as int,
                ));
                assert(diags@.last().severity == Severity::Error);
                assert(has_fatal(diags@));
                assert(diags@.subrange(0, mid.len() as int) =~= mid);
                crate::diagnostic::lemma_diag_monotone(mid, diags@);
                assert(crate::diagnostic::has_diag_at(
                    diags@,
                    Severity::Error,
                    rules@[j as int].span,
                    spec_dup_rule_msg(rules@[j as int].name@),
                ));
            }
        }
        j += 1;
    }
    ok
}

/// `k` is the last grammar-scoped `start` assignment.
pub open spec fn start_attr_at(attrs: Seq<AttributeAssignment>, k: int) -> bool {
    &&& 0 <= k < attrs.len()
    &&& attrs[k].target is None
    &&& attrs[k].name@ == "start"@
    &&& forall|j: int|
        k < j < attrs.len() ==> !((#[trigger] attrs[j]).target is None && attrs[j].name@
            == "start"@)
}

/// The `start` attribute resolves: the last grammar-scoped assignment (if
/// any) carries a value that names a rule.
pub open spec fn start_ok(attrs: Seq<AttributeAssignment>, rules: Seq<ast::Rule>) -> bool {
    forall|k: int|
        start_attr_at(attrs, k) ==> (#[trigger] attrs[k]).value is Some && exists|i: int|
            0 <= i < rules.len() && rule_names(rules)[i] == attrs[k].value->0@
}

/// Some grammar-scoped assignment names `print_generated`.
pub open spec fn print_generated_set(attrs: Seq<AttributeAssignment>) -> bool {
    exists|k: int|
        0 <= k < attrs.len() && (#[trigger] attrs[k]).target is None && attrs[k].name@
            == "print_generated"@
}

/// Some assignment targets rule `rname` with the `invisible_type` flag.
pub open spec fn rule_invisible(attrs: Seq<AttributeAssignment>, rname: Seq<char>) -> bool {
    exists|k: int|
        0 <= k < attrs.len() && (#[trigger] attrs[k]).target is Some && attrs[k].target->0@
            == rname && attrs[k].name@ == "invisible_type"@
}

/// Semantic analysis succeeds exactly under these conditions.
pub open spec fn analyse_ok(g: ast::Grammar, attrs: Seq<AttributeAssignment>) -> bool {
    &&& g.rules@.len() >= 1
    &&& raw_names_unique(g.rules@)
    &&& forall|i: int|
        0 <= i < g.rules@.len() ==> spec_resolvable(
            (#[trigger] g.rules@[i]).def,
            rule_names(g.rules@),
        ) && spec_classes_ok(g.rules@[i].def)
    &&& start_ok(attrs, g.rules@)
}

/// The last grammar-scoped `start` assignment, if any.
fn find_start_attr(attrs: &Vec<AttributeAssignment>) -> (r: Option<usize>)
    ensures
        match r {
            Some(k) => start_attr_at(attrs@, k as int),
            None => forall|k: int| !start_attr_at(attrs@, k),
        },
{
    let mut last: Option<usize> = Option::None;
    let mut k: usize = 0;
    while k < attrs.len()
        invariant
            k <= attrs@.len(),
            match last {
                Some(l) => l < k && attrs@[l as int].target is None && attrs@[l as int].name@
                    == "start"@ && forall|j: int|
                    l < j < k ==> !((#[trigger] attrs@[j]).target is None && attrs@[j].name@
                        == "start"@),
                None => forall|j: int|
                    0 <= j < k ==> !((#[trigger] attrs@[j]).target is None && attrs@[j].name@
                        == "start"@),
            },
        decreases attrs@.len() - k,
    {
        let name = chars_of("start");
        if attrs[k].target.is_none() && chars_eq(&attrs[k].name, &name) {
            last = Option::Some(k);
        }
        k += 1;
    }
    proof {
        match last {
            Some(l) => assert(start_attr_at(attrs@, l as int)),
            None => assert(forall|k2: int| !start_attr_at(attrs@, k2)),
        }
    }
    last
}

/// The clean grammar `c` is what semantic analysis makes of the raw grammar
/// `g` under the assignments `attrs`: well-formed, same name, one clean rule
/// per raw rule related by resolution-and-normalization, the type attributes
/// applied, and the start rule selected.
pub open spec fn analysed(
    g: ast::Grammar,
    attrs: Seq<AttributeAssignment>,
    c: crate::clean_ast::Grammar,
) -> bool {
    &&& crate::clean_ast::wf_grammar(c)
    &&& c.name@ == g.name@
    &&& c.rules@.len() == g.rules@.len()
    &&& forall|i: int|
        0 <= i < g.rules@.len() ==> (#[trigger] c.rules@[i]).name@ == g.rules@[i].name@
            && transform_rel(g.rules@[i].def, c.rules@[i].def, rule_names(g.rules@)) && normalized(
            c.rules@[i].def,
        ) && (c.rules@[i].ty.style is Invisible <==> rule_invisible(attrs, g.rules@[i].name@))
    &&& c.print_generated == print_generated_set(attrs)
    &&& (forall|k: int| !start_attr_at(attrs, k)) ==> c.start_rule_idx == 0
    &&& forall|k: int|
        start_attr_at(attrs, k) ==> rule_names(g.rules@)[c.start_rule_idx as int] == (
        #[trigger] attrs[k]).value->0@
}

/// Runs semantic analysis: duplicate-rule detection, reference resolution,
/// start-rule selection, attribute application, well-formedness checks and
/// normalization. Errors are collected over the whole grammar; the clean
/// grammar comes back only if none were raised. Each defect is reported
/// under its message: a duplicated rule at its second occurrence, an
/// unresolved reference under the name it used, a malformed class.
pub fn analyse(
    g: &ast::Grammar,
    attrs: &Vec<AttributeAssignment>,
    diags: &mut Vec<Diagnostic>,
) -> (r: Option<crate::clean_ast::Grammar>)
    requires
        forall|i: int| 0 <= i < g.rules@.len() ==> ast::raw_wf((#[trigger] g.rules@[i]).def),
    ensures
        r is Some <==> analyse_ok(*g, attrs@),
        r is None ==> has_fatal(final(diags)@),
        final(diags)@.len() >= old(diags)@.len(),
        final(diags)@.subrange(0, old(diags)@.len() as int) == old(diags)@,
        r is Some ==> analysed(*g, attrs@, r->0),
        r is Some ==> crate::diagnostic::no_fatal_added(old(diags)@, final(diags)@),
        forall|j: int|
            #![auto]
            (0 <= j < g.rules@.len() && exists|a: int|
                0 <= a < j && g.rules@[a].name@ == g.rules@[j].name@)
                ==> crate::diagnostic::has_diag_at(
                final(diags)@,
                Severity::Error,
                g.rules@[j].span,
                spec_dup_rule_msg(g.rules@[j].name@),
            ),
        forall|i: int, n: Seq<char>|
            #![trigger mentions_unresolved(g.rules@[i].def, n, rule_names(g.rules@))]
            0 <= i < g.rules@.len() && mentions_unresolved(g.rules@[i].def, n, rule_names(g.rules@))
                ==> crate::diagnostic::has_diag(
                final(diags)@,
                Severity::Error,
                spec_unresolved_msg(n),
            ),
        forall|i: int|
            0 <= i < g.rules@.len() && has_malformed_class((#[trigger] g.rules@[i]).def)
                ==> crate::diagnostic::has_diag(
                final(diags)@,
                Severity::Error,
                spec_malformed_class_msg(),
            ),
{
    let mut ok = true;
    if g.rules.len() == 0 {
        let mut msg: Vec<char> = Vec::new();
        push_str_chars(&mut msg, "grammar has no rules");
        emit(diags, Severity::Error, g.span, msg);
        ok = false;
    }
    let dup_ok = check_duplicate_rules(&g.rules, diags);
    if !dup_ok {
        ok = false;
    }
    let ghost diags_mark = diags@;

    // Per-rule attribute application and body transformation.
    let mut clean_rules: Vec<crate::clean_ast::Rule> = Vec::new();
    let mut i: usize = 0;
    let invisible_name = chars_of("invisible_type");
    while i < g.rules.len()
        invariant
            i <= g.rules@.len(),
            invisible_name@ == "invisible_type"@,
            forall|ii: int|
                0 <= ii < g.rules@.len() ==> ast::raw_wf((#[trigger] g.rules@[ii]).def),
            ok ==> clean_rules@.len() == i,
            ok ==> forall|j: int|
                0 <= j < i ==> (#[trigger] clean_rules@[j]).name@ == g.rules@[j].name@
                    && transform_rel(g.rules@[j].def, clean_rules@[j].def, rule_names(g.rules@))
                    && wf_expr(clean_rules@[j].def, g.rules@.len() as nat) && normalized(
                    clean_rules@[j].def,
                ) && (clean_rules@[j].ty.style is Invisible <==> rule_invisible(
                    attrs@,
                    g.rules@[j].name@,
                )),
            ok == (g.rules@.len() >= 1 && raw_names_unique(g.rules@) && (forall|j: int|
                0 <= j < i ==> spec_resolvable((#[trigger] g.rules@[j]).def, rule_names(g.rules@))
                    && spec_classes_ok(g.rules@[j].def))),
            diags@.len() >= old(diags)@.len(),
            diags@.subrange(0, old(diags)@.len() as int) == old(diags)@,
            diags@.len() >= diags_mark.len(),
            diags@.subrange(0, diags_mark.len() as int) == diags_mark,
            ok ==> crate::diagnostic::no_fatal_added(old(diags)@, diags@),
            !ok ==> has_fatal(diags@),
            forall|j: int, n: Seq<char>|
                #![trigger mentions_unresolved(g.rules@[j].def, n, rule_names(g.rules@))]
                0 <= j < i && mentions_unresolved(g.rules@[j].def, n, rule_names(g.rules@))
                    ==> crate::diagnostic::has_diag(
                    diags@,
                    Severity::Error,
                    spec_unresolved_msg(n),
                ),
            forall|j: int|
                0 <= j < i && has_malformed_class((#[trigger] g.rules@[j]).def)
                    ==> crate::diagnostic::has_diag(
                    diags@,
                    Severity::Error,
                    spec_malformed_class_msg(),
                ),
        decreases g.rules@.len() - i,
    {
        let ghost body_mark = diags@;
        // Instantiate the rule's attribute model and apply its assignments.
        let mut model = RuleType::model();
        let mut k: usize = 0;
        while k < attrs.len()
            invariant
                k <= attrs@.len(),
                i < g.rules@.len(),
                invisible_name@ == "invisible_type"@,
                model@.len() == 1,
                model@[0].name@ == "invisible_type"@,
                model@[0].info.value is Some <==> (exists|a: int|
                    0 <= a < k && (#[trigger] attrs@[a]).target is Some && attrs@[a].target->0@
                        == g.rules@[i as int].name@ && attrs@[a].name@ == "invisible_type"@),
                diags@.len() >= old(diags)@.len(),
                diags@.subrange(0, old(diags)@.len() as int) == old(diags)@,
                diags@.len() >= body_mark.len(),
                diags@.subrange(0, body_mark.len() as int) == body_mark,
                crate::diagnostic::no_fatal_added(body_mark, diags@),
                !ok ==> has_fatal(diags@),
            decreases attrs@.len() - k,
        {
            let applies = match &attrs[k].target {
                Option::Some(t) => chars_eq(t, &g.rules[i].name),
                Option::None => false,
            };
            if applies {
                if chars_eq(&attrs[k].name, &invisible_name) {
                    let ghost mid = diags@;
                    set_attribute(&mut model, &attrs[k].name, attrs[k].span, diags);
                    proof {
                        assert(diags@.subrange(0, old(diags)@.len() as int) =~= mid.subrange(
                            0,
                            old(diags)@.len() as int,
                        ));
                        assert(diags@.subrange(0, body_mark.len() as int) =~= mid.subrange(
                            0,
                            body_mark.len() as int,
                        ));
                        assert(diags@.subrange(0, mid.len() as int) =~= mid);
                        assert forall|ii: int|
                            body_mark.len() <= ii < diags@.len() implies ((
                        #[trigger] diags@[ii]).severity == Severity::Note || diags@[ii].severity
                            == Severity::Warning) by {
                            if ii < mid.len() {
                                assert(diags@.subrange(0, mid.len() as int)[ii] == diags@[ii]);
                            } else {
                                assert(ii == diags@.len() - 1);
                            }
                        }
                    }
                }
            }
            k += 1;
        }
        let ty = RuleType::new(&model);
        proof {
            if model@[0].info.value is Some {
                assert(crate::rule_type::spec_invisible_at(model@, 0));
                assert(ty.style is Invisible);
            } else {
                assert(forall|a: int| !crate::rule_type::spec_invisible_at(model@, a));
                assert(ty.style is Inline);
            }
        }

        proof {
            assert(diags@.subrange(0, body_mark.len() as int) =~= body_mark);
            crate::diagnostic::lemma_diag_monotone(body_mark, diags@);
        }
        let ghost mid = diags@;
        let def = transform_expr(&g.rules[i].def, &g.rules, diags);
        proof {
            assert(diags@.subrange(0, old(diags)@.len() as int) =~= mid.subrange(
                0,
                old(diags)@.len() as int,
            ));
            assert(diags@.subrange(0, diags_mark.len() as int) =~= mid.subrange(
                0,
                diags_mark.len() as int,
            ));
            assert(diags@.subrange(0, mid.len() as int) =~= mid);
            crate::diagnostic::lemma_diag_monotone(mid, diags@);
        }
        match def {
            Option::Some(d) => {
                if ok {
                    let name = crate::runtime::copy_chars(&g.rules[i].name);
                    clean_rules.push(crate::clean_ast::Rule { name, def: d, ty });
                }
            },
            Option::None => {
                ok = false;
            },
        }
        proof {
            if ok {
                assert forall|ii: int|
                    old(diags)@.len() <= ii < diags@.len() implies ((
                #[trigger] diags@[ii]).severity == Severity::Note || diags@[ii].severity
                    == Severity::Warning) by {
                    if ii < body_mark.len() {
                        assert(diags@.subrange(0, body_mark.len() as int)[ii] == diags@[ii]);
                    }
                }
            }
        }
        i += 1;
    }

    let ghost mark2 = diags@;

    // Start-rule selection: the last grammar-scoped assignment wins; the
    // default is the first rule.
    let ghost prev_ok = ok;
    let mut start_idx: usize = 0;
    match find_start_attr(attrs) {
        Option::Some(k) => {
            proof {
                assert forall|k2: int| start_attr_at(attrs@, k2) implies k2 == k as int by {
                    if k2 < k as int {
                        assert(!((#[trigger] attrs@[k as int]).target is None
                            && attrs@[k as int].name@ == "start"@));
                    } else if k2 > k as int {
                        assert(!((#[trigger] attrs@[k2]).target is None && attrs@[k2].name@
                            == "start"@));
                    }
                }
            }
            match &attrs[k].value {
                Option::Some(v) => {
                    match find_rule_index(&g.rules, v) {
                        Option::Some(ri) => {
                            start_idx = ri;
                            proof {
                                assert(rule_names(g.rules@)[ri as int] == attrs@[k as int].value->0@);
                                assert(start_ok(attrs@, g.rules@));
                                assert(ok == (prev_ok && start_ok(attrs@, g.rules@)));
                            }
                        },
                        Option::None => {
                            let mut msg: Vec<char> = Vec::new();
                            push_str_chars(&mut msg, "unresolved reference `");
                            push_chars(&mut msg, v);
                            push_str_chars(&mut msg, "`");
                            let ghost mid = diags@;
                            emit(diags, Severity::Error, attrs[k].span, msg);
                            ok = false;
                            proof {
                                assert(diags@.subrange(0, old(diags)@.len() as int)
                                    =~= mid.subrange(0, old(diags)@.len() as int));
                                assert(diags@.subrange(0, mark2.len() as int) =~= mark2);
                                assert(has_fatal(diags@));
                                assert(!start_ok(attrs@, g.rules@));
                                assert(ok == (prev_ok && start_ok(attrs@, g.rules@)));
                            }
                        },
                    }
                },
                Option::None => {
                    let mut msg: Vec<char> = Vec::new();
                    push_str_chars(&mut msg, "the `start` attribute needs a rule name");
                    let ghost mid = diags@;
                    emit(diags, Severity::Error, attrs[k].span, msg);
                    ok = false;
                    proof {
                        assert(diags@.subrange(0, old(diags)@.len() as int) =~= mid.subrange(
                            0,
                            old(diags)@.len() as int,
                        ));
                        assert(diags@.subrange(0, mark2.len() as int) =~= mark2);
                        assert(has_fatal(diags@));
                        assert(!start_ok(attrs@, g.rules@));
                        assert(ok == (prev_ok && start_ok(attrs@, g.rules@)));
                    }
                },
            }
        },
        Option::None => {
            proof {
                assert(start_ok(attrs@, g.rules@));
                assert(ok == (prev_ok && start_ok(attrs@, g.rules@)));
            }
        },
    }
    proof {
        assert(ok == (prev_ok && start_ok(attrs@, g.rules@)));
        assert(ok == analyse_ok(*g, attrs@));
    }

    let ghost mark3 = diags@;
    proof {
        assert(mark3.subrange(0, mark2.len() as int) =~= mark2);
    }

    // Grammar attributes: `print_generated` through the attribute model.
    let mut gmodel: Vec<crate::attribute::AttributeEntry> = Vec::new();
    let pg_name = chars_of("print_generated");
    let pg_doc = chars_of("print the generated code as an informational note");
    gmodel.push(crate::attribute::declare_attribute(pg_name, pg_doc));
    let pg_name2 = chars_of("print_generated");
    let mut k: usize = 0;
    while k < attrs.len()
        invariant
            k <= attrs@.len(),
            pg_name2@ == "print_generated"@,
            gmodel@.len() == 1,
            gmodel@[0].name@ == "print_generated"@,
            gmodel@[0].info.value is Some <==> (exists|a: int|
                0 <= a < k && (#[trigger] attrs@[a]).target is None && attrs@[a].name@
                    == "print_generated"@),
            diags@.len() >= old(diags)@.len(),
            diags@.subrange(0, old(diags)@.len() as int) == old(diags)@,
            diags@.len() >= mark3.len(),
            diags@.subrange(0, mark3.len() as int) == mark3,
            crate::diagnostic::no_fatal_added(mark3, diags@),
            !ok ==> has_fatal(diags@),
        decreases attrs@.len() - k,
    {
        let is_grammar_attr = attrs[k].target.is_none();
        if is_grammar_attr {
            if chars_eq(&attrs[k].name, &pg_name2) {
                let ghost mid = diags@;
                set_attribute(&mut gmodel, &attrs[k].name, attrs[k].span, diags);
                proof {
                    assert(diags@.subrange(0, old(diags)@.len() as int) =~= mid.subrange(
                        0,
                        old(diags)@.len() as int,
                    ));
                    assert(diags@.subrange(0, mark3.len() as int) =~= mid.subrange(
                        0,
                        mark3.len() as int,
                    ));
                    assert(diags@.subrange(0, mid.len() as int) =~= mid);
                    assert forall|ii: int|
                        mark3.len() <= ii < diags@.len() implies ((#[trigger] diags@[ii]).severity
                        == Severity::Note || diags@[ii].severity == Severity::Warning) by {
                        if ii < mid.len() {
                            assert(diags@.subrange(0, mid.len() as int)[ii] == diags@[ii]);
                        } else {
                            assert(ii == diags@.len() - 1);
                        }
                    }
                }
            }
        }
        k += 1;
    }
    let print_generated = gmodel[0].info.value.is_some();
    proof {
        assert(diags@.subrange(0, mark2.len() as int) =~= mark2);
        assert(diags@.subrange(0, diags_mark.len() as int) =~= diags_mark);
        crate::diagnostic::lemma_diag_monotone(mark2, diags@);
        crate::diagnostic::lemma_diag_monotone(diags_mark, diags@);
        if ok {
            assert forall|ii: int|
                old(diags)@.len() <= ii < diags@.len() implies ((#[trigger] diags@[ii]).severity
                == Severity::Note || diags@[ii].severity == Severity::Warning) by {
                if ii < mark3.len() {
                    assert(diags@.subrange(0, mark3.len() as int)[ii] == diags@[ii]);
                    assert(mark3[ii] == mark2[ii]);
                    assert(mark2.subrange(0, mark2.len() as int)[ii] == mark2[ii]);
                }
            }
            assert(crate::diagnostic::no_fatal_added(old(diags)@, diags@));
        }
    }

    if ok {
        let name = crate::runtime::copy_chars(&g.name);
        Option::Some(
            crate::clean_ast::Grammar {
                name,
                rules: clean_rules,
                start_rule_idx: start_idx,
                print_generated,
            },
        )
    } else {
        Option::None
    }
}

/// Every non-terminal of `e` carries an index under `n`.
pub open spec fn refs_within(e: CleanExpression, n: nat) -> bool
    decreases e,
{
    match e {
        CleanExpression::StrLiteral(_) => true,
        CleanExpression::AnySingleChar => true,
        CleanExpression::NonTerminalSymbol(i) => i < n,
        CleanExpression::Sequence(cs) => forall|i: int|
            0 <= i < cs@.len() ==> refs_within(#[trigger] cs@[i], n),
        CleanExpression::Choice(cs) => forall|i: int|
            0 <= i < cs@.len() ==> refs_within(#[trigger] cs@[i], n),
        CleanExpression::ZeroOrMore(c) => refs_within(*c, n),
        CleanExpression::OneOrMore(c) => refs_within(*c, n),
        CleanExpression::Optional(c) => refs_within(*c, n),
        CleanExpression::NotPredicate(c) => refs_within(*c, n),
        CleanExpression::AndPredicate(c) => refs_within(*c, n),
        CleanExpression::CharacterClass(_) => true,
    }
}

/// A well-formed expression references only rules of the grammar.
pub proof fn lemma_wf_refs_within(e: CleanExpression, n: nat)
    requires
        wf_expr(e, n),
    ensures
        refs_within(e, n),
    decreases e,
{
    match e {
        CleanExpression::Sequence(cs) => {
            assert forall|i: int| 0 <= i < cs@.len() implies refs_within(#[trigger] cs@[i], n) by {
                lemma_wf_refs_within(cs@[i], n);
            }
        },
        CleanExpression::Choice(cs) => {
            assert forall|i: int| 0 <= i < cs@.len() implies refs_within(#[trigger] cs@[i], n) by {
                lemma_wf_refs_within(cs@[i], n);
            }
        },
        CleanExpression::ZeroOrMore(c) => lemma_wf_refs_within(*c, n),
        CleanExpression::OneOrMore(c) => lemma_wf_refs_within(*c, n),
        CleanExpression::Optional(c) => lemma_wf_refs_within(*c, n),
        CleanExpression::NotPredicate(c) => lemma_wf_refs_within(*c, n),
        CleanExpression::AndPredicate(c) => lemma_wf_refs_within(*c, n),
        _ => {},
    }
}

/// Reference closure: after semantic analysis every non-terminal of every
/// rule body carries a valid rule index — an index into the grammar's own
/// rule list.
pub proof fn lemma_reference_closure(c: crate::clean_ast::Grammar)
    requires
        crate::clean_ast::wf_grammar(c),
    ensures
        forall|i: int|
            0 <= i < c.rules@.len() ==> refs_within(
                (#[trigger] c.rules@[i]).def,
                c.rules@.len() as nat,
            ),
{
    assert forall|i: int| 0 <= i < c.rules@.len() implies refs_within(
        (#[trigger] c.rules@[i]).def,
        c.rules@.len() as nat,
    ) by {
        lemma_wf_refs_within(c.rules@[i].def, c.rules@.len() as nat);
    }
}

} // verus!
