//! The clean grammar AST: what semantic analysis produces. Every
//! non-terminal carries the index of the rule it names, rule attributes are
//! resolved, and the expression tree is normalized.
use vstd::prelude::*;
use crate::ast::CharacterClassExpr;
use crate::rule_type::RuleType;

verus! {

/// A PEG expression over resolved rule indices.
pub enum CleanExpression {
    StrLiteral(Vec<char>),
    AnySingleChar,
    NonTerminalSymbol(usize),
    Sequence(Vec<CleanExpression>),
    Choice(Vec<CleanExpression>),
    ZeroOrMore(Box<CleanExpression>),
    OneOrMore(Box<CleanExpression>),
    Optional(Box<CleanExpression>),
    NotPredicate(Box<CleanExpression>),
    AndPredicate(Box<CleanExpression>),
    CharacterClass(CharacterClassExpr),
}

/// A resolved rule: its name, its body, and its resolved type attributes.
pub struct Rule {
    pub name: Vec<char>,
    pub def: CleanExpression,
    pub ty: RuleType,
}

/// The clean grammar. `start_rule_idx` points into `rules`;
/// `print_generated` asks the back-end to dump the generated code as a note.
pub struct Grammar {
    pub name: Vec<char>,
    pub rules: Vec<Rule>,
    pub start_rule_idx: usize,
    pub print_generated: bool,
}

/// Well-formedness of a clean expression against a rule count: every
/// non-terminal index is in range, sequences and choices have at least two
/// children, and classes have at least one interval, each with `lo <= hi`.
pub open spec fn wf_expr(e: CleanExpression, n_rules: nat) -> bool
    decreases e,
{
    match e {
        CleanExpression::StrLiteral(_) => true,
        CleanExpression::AnySingleChar => true,
        CleanExpression::NonTerminalSymbol(i) => i < n_rules,
        CleanExpression::Sequence(cs) => cs@.len() >= 2 && forall|i: int|
            0 <= i < cs@.len() ==> wf_expr(#[trigger] cs@[i], n_rules),
        CleanExpression::Choice(cs) => cs@.len() >= 2 && forall|i: int|
            0 <= i < cs@.len() ==> wf_expr(#[trigger] cs@[i], n_rules),
        CleanExpression::ZeroOrMore(c) => wf_expr(*c, n_rules),
        CleanExpression::OneOrMore(c) => wf_expr(*c, n_rules),
        CleanExpression::Optional(c) => wf_expr(*c, n_rules),
        CleanExpression::NotPredicate(c) => wf_expr(*c, n_rules),
        CleanExpression::AndPredicate(c) => wf_expr(*c, n_rules),
        CleanExpression::CharacterClass(cc) => cc.intervals@.len() >= 1 && forall|i: int|
            0 <= i < cc.intervals@.len() ==> (#[trigger] cc.intervals@[i]).lo
                <= cc.intervals@[i].hi,
    }
}

/// Rule names are pairwise distinct.
pub open spec fn names_unique(rules: Seq<Rule>) -> bool {
    forall|i: int, j: int|
        0 <= i < j < rules.len() ==> (#[trigger] rules[i].name@) != (#[trigger] rules[j].name@)
}

/// Well-formedness of the whole clean grammar.
pub open spec fn wf_grammar(g: Grammar) -> bool {
    &&& g.rules@.len() >= 1
    &&& g.start_rule_idx < g.rules@.len()
    &&& names_unique(g.rules@)
    &&& forall|i: int|
        0 <= i < g.rules@.len() ==> wf_expr(#[trigger] g.rules@[i].def, g.rules@.len() as nat)
}

/// A clean expression in normal form: no sequence directly holds a sequence,
/// no choice directly holds a choice, and no singleton sequence or choice
/// remains.
pub open spec fn normalized(e: CleanExpression) -> bool
    decreases e,
{
    match e {
        CleanExpression::StrLiteral(_) => true,
        CleanExpression::AnySingleChar => true,
        CleanExpression::NonTerminalSymbol(_) => true,
        CleanExpression::Sequence(cs) => cs@.len() >= 2 && forall|i: int|
            0 <= i < cs@.len() ==> normalized(#[trigger] cs@[i]) && !(cs@[i] is Sequence),
        CleanExpression::Choice(cs) => cs@.len() >= 2 && forall|i: int|
            0 <= i < cs@.len() ==> normalized(#[trigger] cs@[i]) && !(cs@[i] is Choice),
        CleanExpression::ZeroOrMore(c) => normalized(*c),
        CleanExpression::OneOrMore(c) => normalized(*c),
        CleanExpression::Optional(c) => normalized(*c),
        CleanExpression::NotPredicate(c) => normalized(*c),
        CleanExpression::AndPredicate(c) => normalized(*c),
        CleanExpression::CharacterClass(_) => true,
    }
}

} // verus!
