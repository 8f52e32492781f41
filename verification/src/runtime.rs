//! The runtime matchers the generated parser calls: literal match, any-char,
//! character-class membership, and wrapping of the start rule's outcome.
//! Positions are indices into the input's character sequence; every advance
//! moves by whole characters.
use vstd::prelude::*;
use crate::ast::CharacterInterval;

verus! {

/// Why a matcher failed, structurally; `message` renders it for the user.
pub enum MatchError {
    Expected(Vec<char>),
    UnexpectedEof,
    NotInClass,
    UnexpectedMatch,
}

/// Membership of `c` in the union of the intervals.
pub open spec fn in_class(c: char, intervals: Seq<CharacterInterval>) -> bool {
    exists|i: int| 0 <= i < intervals.len() && intervals[i].lo <= c && c <= intervals[i].hi
}

/// Whether `input` starts with `lit` at `pos`.
pub open spec fn literal_matches_at(input: Seq<char>, pos: int, lit: Seq<char>) -> bool {
    pos + lit.len() <= input.len() && input.subrange(pos, pos + lit.len()) == lit
}

/// Matches the literal `lit` (of length `n`) at `pos`: on success the new
/// position right after it, otherwise the expected-literal error.
pub fn match_literal(input: &Vec<char>, pos: usize, lit: &Vec<char>, n: usize) -> (r: Result<
    usize,
    MatchError,
>)
    requires
        pos <= input@.len(),
        n == lit@.len(),
    ensures
        literal_matches_at(input@, pos as int, lit@) ==> r is Ok && r->Ok_0 == pos + n,
        !literal_matches_at(input@, pos as int, lit@) ==> r is Err && r->Err_0 is Expected
            && r->Err_0->Expected_0@ == lit@,
{
    if input.len() - pos < n {
        proof {
            assert(!literal_matches_at(input@, pos as int, lit@));
        }
        return Result::Err(MatchError::Expected(copy_chars(lit)));
    }
    let mut i: usize = 0;
    while i < n
        invariant
            i <= n,
            pos + n <= input@.len(),
            pos + n <= usize::MAX,
            n == lit@.len(),
            forall|j: int| 0 <= j < i ==> input@[pos + j] == lit@[j],
        decreases n - i,
    {
        if input[pos + i] != lit[i] {
            proof {
                assert(input@.subrange(pos as int, pos + lit@.len())[i as int] != lit@[i as int]);
            }
            return Result::Err(MatchError::Expected(copy_chars(lit)));
        }
        i += 1;
    }
    proof {
        assert(input@.subrange(pos as int, pos + lit@.len()) =~= lit@);
    }
    Result::Ok(pos + n)
}

/// A fresh vector with the same characters.
pub fn copy_chars(src: &Vec<char>) -> (r: Vec<char>)
    ensures
        r@ == src@,
{
    let mut r: Vec<char> = Vec::new();
    crate::utility::push_chars(&mut r, src);
    r
}

/// Matches any single character: the next position, or the end-of-input
/// error when none remains.
pub fn any_single_char(input: &Vec<char>, pos: usize) -> (r: Result<usize, MatchError>)
    requires
        pos <= input@.len(),
    ensures
        pos < input@.len() ==> r is Ok && r->Ok_0 == pos + 1,
        pos >= input@.len() ==> r is Err && r->Err_0 is UnexpectedEof,
{
    if pos < input.len() {
        Result::Ok(pos + 1)
    } else {
        Result::Err(MatchError::UnexpectedEof)
    }
}

/// Whether `c` lies in the union of the intervals.
pub fn class_contains(intervals: &Vec<CharacterInterval>, c: char) -> (r: bool)
    ensures
        r == in_class(c, intervals@),
{
    let mut i: usize = 0;
    while i < intervals.len()
        invariant
            i <= intervals@.len(),
            forall|j: int| 0 <= j < i ==> !(intervals@[j].lo <= c && c <= intervals@[j].hi),
        decreases intervals@.len() - i,
    {
        if intervals[i].lo <= c && c <= intervals[i].hi {
            return true;
        }
        i += 1;
    }
    false
}

/// Wraps the start rule's outcome for the caller of the generated parser:
/// full-input match, the unconsumed tail, or the rule's error unchanged.
pub fn make_result(input: &Vec<char>, outcome: Result<usize, MatchError>) -> (r: Result<
    Option<Vec<char>>,
    MatchError,
>)
    requires
        outcome is Ok ==> outcome->Ok_0 <= input@.len(),
    ensures
        outcome is Ok && outcome->Ok_0 == input@.len() ==> r is Ok && r->Ok_0 is None,
        outcome is Ok && outcome->Ok_0 < input@.len() ==> r is Ok && r->Ok_0 is Some
            && r->Ok_0->0@ == input@.subrange(outcome->Ok_0 as int, input@.len() as int),
        outcome is Err ==> r is Err && r->Err_0 == outcome->Err_0,
{
    match outcome {
        Result::Ok(p) => {
            if p == input.len() {
                Result::Ok(Option::None)
            } else {
                let mut tail: Vec<char> = Vec::new();
                let mut i: usize = p;
                while i < input.len()
                    invariant
                        p <= i <= input@.len(),
                        tail@ == input@.subrange(p as int, i as int),
                    decreases input@.len() - i,
                {
                    tail.push(input[i]);
                    i += 1;
                    proof {
                        assert(tail@ =~= input@.subrange(p as int, i as int));
                    }
                }
                Result::Ok(Option::Some(tail))
            }
        },
        Result::Err(e) => Result::Err(e),
    }
}

/// Renders the failure for the user of the generated parser, with the same
/// wording the emitted matchers produce.
pub fn message(e: &MatchError) -> (r: Vec<char>)
    ensures
        e is Expected ==> r@ == "expected "@ + e->Expected_0@,
        e is UnexpectedEof ==> r@ == "unexpected end of input"@,
        e is NotInClass ==> r@ == "It doesn't match the character class."@,
        e is UnexpectedMatch ==> r@ == "An `!expr` failed."@,
{
    let mut r: Vec<char> = Vec::new();
    match e {
        MatchError::Expected(lit) => {
            crate::utility::push_str_chars(&mut r, "expected ");
            crate::utility::push_chars(&mut r, lit);
        },
        MatchError::UnexpectedEof => {
            crate::utility::push_str_chars(&mut r, "unexpected end of input");
        },
        MatchError::NotInClass => {
            crate::utility::push_str_chars(&mut r, "It doesn't match the character class.");
        },
        MatchError::UnexpectedMatch => {
            crate::utility::push_str_chars(&mut r, "An `!expr` failed.");
        },
    }
    r
}

} // verus!
