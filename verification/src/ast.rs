//! Raw grammar AST produced by the front-end: expressions still refer to
//! rules by name, and every construct carries a source span for diagnostics.
use vstd::prelude::*;

verus! {

/// A source-location range. Spans serve diagnostics only and never affect
/// parsing outcomes.
#[derive(Clone, Copy, PartialEq, Eq, Debug)]
pub struct Span {
    pub lo: usize,
    pub hi: usize,
}

impl Span {
    /// The span used where no real source location exists.
    pub fn dummy() -> (s: Span)
        ensures
            s.lo == 0,
            s.hi == 0,
    {
        Span { lo: 0, hi: 0 }
    }

    pub fn new(lo: usize, hi: usize) -> (s: Span)
        ensures
            s.lo == lo,
            s.hi == hi,
    {
        Span { lo, hi }
    }
}

/// A scalar range `[lo, hi]` of a character class; membership of the class is
/// the union of its intervals.
#[derive(Clone, Copy, PartialEq, Eq, Debug)]
pub struct CharacterInterval {
    pub lo: char,
    pub hi: char,
}

/// A character class: one or more intervals, possibly overlapping.
pub struct CharacterClassExpr {
    pub intervals: Vec<CharacterInterval>,
}

/// A PEG expression with its source span.
pub struct Expression {
    pub span: Span,
    pub node: ExpressionNode,
}

/// The PEG operators. Non-terminals refer to rules by name; the semantic
/// analyser later rewrites them to rule indices.
pub enum ExpressionNode {
    StrLiteral(Vec<char>),
    AnySingleChar,
    NonTerminalSymbol(Vec<char>),
    Sequence(Vec<Expression>),
    Choice(Vec<Expression>),
    ZeroOrMore(Box<Expression>),
    OneOrMore(Box<Expression>),
    Optional(Box<Expression>),
    NotPredicate(Box<Expression>),
    AndPredicate(Box<Expression>),
    CharacterClass(CharacterClassExpr),
}

/// A named rule of the raw grammar.
pub struct Rule {
    pub name: Vec<char>,
    pub span: Span,
    pub def: Expression,
}

/// The raw grammar: a name and its rules, in declaration order.
pub struct Grammar {
    pub name: Vec<char>,
    pub span: Span,
    pub rules: Vec<Rule>,
}

/// Structural well-formedness the front-end guarantees of every expression it
/// returns: sequence and choice nodes hold at least two children and classes
/// at least one interval. Interval order (`lo <= hi`) is not part of this:
/// the semantic analyser checks it and reports a diagnostic.
pub open spec fn raw_wf(e: Expression) -> bool
    decreases e,
{
    match e.node {
        ExpressionNode::StrLiteral(_) => true,
        ExpressionNode::AnySingleChar => true,
        ExpressionNode::NonTerminalSymbol(_) => true,
        ExpressionNode::Sequence(cs) => cs.len() >= 2 && forall|i: int|
            0 <= i < cs.len() ==> raw_wf(#[trigger] cs[i]),
        ExpressionNode::Choice(cs) => cs.len() >= 2 && forall|i: int|
            0 <= i < cs.len() ==> raw_wf(#[trigger] cs[i]),
        ExpressionNode::ZeroOrMore(c) => raw_wf(*c),
        ExpressionNode::OneOrMore(c) => raw_wf(*c),
        ExpressionNode::Optional(c) => raw_wf(*c),
        ExpressionNode::NotPredicate(c) => raw_wf(*c),
        ExpressionNode::AndPredicate(c) => raw_wf(*c),
        ExpressionNode::CharacterClass(cc) => cc.intervals.len() >= 1,
    }
}

} // verus!
