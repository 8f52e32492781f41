//! Small text helpers shared by the stages: conversion between `&str` and
//! character vectors, character-wise equality, ASCII lowercasing, and the
//! decimal rendering used for generated names.
use vstd::prelude::*;

verus! {

/// The characters of `s`, as a vector.
pub fn chars_of(s: &str) -> (v: Vec<char>)
    ensures
        v@ == s@,
{
    broadcast use vstd::string::next_postcondition;

    let mut v: Vec<char> = Vec::new();
    let mut it = s.chars();
    proof {
        vstd::string::axiom_spec_iter(s);
        assert(v@ =~= s@.subrange(0, v@.len() as int));
        assert(vstd::std_specs::iter::IteratorSpec::remaining(&it) =~= s@.subrange(
            v@.len() as int,
            s@.len() as int,
        ));
    }
    loop
        invariant
            v@.len() <= s@.len(),
            v@ == s@.subrange(0, v@.len() as int),
            vstd::std_specs::iter::IteratorSpec::remaining(&it) == s@.subrange(
                v@.len() as int,
                s@.len() as int,
            ),
        ensures
            v@ == s@,
        decreases s@.len() - v@.len(),
    {
        let ghost old_rem = vstd::std_specs::iter::IteratorSpec::remaining(&it);
        let ghost old_v = v@;
        match it.next() {
            Some(c) => {
                proof {
                    assert(old_rem.len() > 0);
                    assert(c == s@[old_v.len() as int]);
                }
                v.push(c);
                proof {
                    assert(v@ =~= s@.subrange(0, v@.len() as int));
                    assert(vstd::std_specs::iter::IteratorSpec::remaining(&it) =~= s@.subrange(
                        v@.len() as int,
                        s@.len() as int,
                    ));
                }
            },
            None => {
                proof {
                    assert(old_rem.len() == 0);
                    assert(v@ =~= s@);
                }
                break ;
            },
        }
    }
    v
}

/// True exactly when the two vectors hold the same characters.
pub fn chars_eq(a: &Vec<char>, b: &Vec<char>) -> (r: bool)
    ensures
        r == (a@ == b@),
{
    if a.len() != b.len() {
        proof {
            assert(a@ != b@);
        }
        return false;
    }
    let mut i: usize = 0;
    while i < a.len()
        invariant
            i <= a.len(),
            a@.len() == b@.len(),
            forall|j: int| 0 <= j < i ==> a@[j] == b@[j],
        decreases a@.len() - i,
    {
        if a[i] != b[i] {
            proof {
                assert(a@[i as int] != b@[i as int]);
            }
            return false;
        }
        i += 1;
    }
    proof {
        assert(a@ =~= b@);
    }
    true
}

/// The ASCII lowercase counterpart of `c`; characters outside `A..Z` are kept.
pub open spec fn spec_lower_char(c: char) -> char {
    if 'A' <= c && c <= 'Z' {
        ((c as u32) + 32) as char
    } else {
        c
    }
}

/// Maps the sequence characterwise to ASCII lowercase.
pub open spec fn spec_lower(s: Seq<char>) -> Seq<char> {
    s.map_values(|c: char| spec_lower_char(c))
}

/// ASCII-lowercases one character.
pub fn lower_char(c: char) -> (r: char)
    ensures
        r == spec_lower_char(c),
{
    match c {
        'A' => 'a',
        'B' => 'b',
        'C' => 'c',
        'D' => 'd',
        'E' => 'e',
        'F' => 'f',
        'G' => 'g',
        'H' => 'h',
        'I' => 'i',
        'J' => 'j',
        'K' => 'k',
        'L' => 'l',
        'M' => 'm',
        'N' => 'n',
        'O' => 'o',
        'P' => 'p',
        'Q' => 'q',
        'R' => 'r',
        'S' => 's',
        'T' => 't',
        'U' => 'u',
        'V' => 'v',
        'W' => 'w',
        'X' => 'x',
        'Y' => 'y',
        'Z' => 'z',
        _ => c,
    }
}

/// ASCII-lowercases a name, as the generated matcher names require.
pub fn string_to_lowercase(s: &Vec<char>) -> (r: Vec<char>)
    ensures
        r@ == spec_lower(s@),
{
    let mut r: Vec<char> = Vec::new();
    let mut i: usize = 0;
    while i < s.len()
        invariant
            i <= s@.len(),
            r@.len() == i,
            forall|j: int| 0 <= j < i ==> r@[j] == spec_lower_char(s@[j]),
        decreases s@.len() - i,
    {
        let c = lower_char(s[i]);
        r.push(c);
        i += 1;
    }
    proof {
        assert(r@ =~= spec_lower(s@));
    }
    r
}

/// The decimal digits of `n`, most significant first.
pub open spec fn spec_decimal(n: nat) -> Seq<char>
    decreases n,
{
    if n < 10 {
        seq![spec_digit_char(n)]
    } else {
        spec_decimal(n / 10) + seq![spec_digit_char(n % 10)]
    }
}

/// The character for one decimal digit.
pub open spec fn spec_digit_char(d: nat) -> char {
    if d == 0 {
        '0'
    } else if d == 1 {
        '1'
    } else if d == 2 {
        '2'
    } else if d == 3 {
        '3'
    } else if d == 4 {
        '4'
    } else if d == 5 {
        '5'
    } else if d == 6 {
        '6'
    } else if d == 7 {
        '7'
    } else if d == 8 {
        '8'
    } else {
        '9'
    }
}

/// Appends the decimal rendering of `n`.
pub fn push_decimal(out: &mut Vec<char>, n: usize)
    ensures
        final(out)@ == old(out)@ + spec_decimal(n as nat),
    decreases n,
{
    if n >= 10 {
        push_decimal(out, n / 10);
    }
    let d: usize = n % 10;
    let c: char = match d {
        0 => '0',
        1 => '1',
        2 => '2',
        3 => '3',
        4 => '4',
        5 => '5',
        6 => '6',
        7 => '7',
        8 => '8',
        _ => '9',
    };
    proof {
        assert(c == spec_digit_char((n % 10) as nat));
    }
    out.push(c);
    proof {
        assert(out@ =~= old(out)@ + spec_decimal(n as nat));
    }
}

/// Appends every character of `src`.
pub fn push_chars(out: &mut Vec<char>, src: &Vec<char>)
    ensures
        final(out)@ == old(out)@ + src@,
{
    let mut i: usize = 0;
    while i < src.len()
        invariant
            i <= src@.len(),
            out@ == old(out)@ + src@.subrange(0, i as int),
        decreases src@.len() - i,
    {
        out.push(src[i]);
        i += 1;
        proof {
            assert(out@ =~= old(out)@ + src@.subrange(0, i as int));
        }
    }
    proof {
        assert(src@.subrange(0, src@.len() as int) =~= src@);
    }
}

/// A fresh vector with the same intervals.
pub fn copy_intervals(src: &Vec<crate::ast::CharacterInterval>) -> (r: Vec<
    crate::ast::CharacterInterval,
>)
    ensures
        r@ == src@,
{
    let mut r: Vec<crate::ast::CharacterInterval> = Vec::new();
    let mut i: usize = 0;
    while i < src.len()
        invariant
            i <= src@.len(),
            r@ == src@.subrange(0, i as int),
        decreases src@.len() - i,
    {
        r.push(src[i]);
        i += 1;
        proof {
            assert(r@ =~= src@.subrange(0, i as int));
        }
    }
    proof {
        assert(r@ =~= src@);
    }
    r
}

/// The UTF-8 byte length of one character.
pub open spec fn spec_utf8_len(c: char) -> nat {
    if (c as u32) < 0x80 {
        1
    } else if (c as u32) < 0x800 {
        2
    } else if (c as u32) < 0x10000 {
        3
    } else {
        4
    }
}

/// The UTF-8 byte length of a text.
pub open spec fn spec_byte_len(s: Seq<char>) -> nat
    decreases s.len(),
{
    if s.len() == 0 {
        0
    } else {
        spec_utf8_len(s[0]) + spec_byte_len(s.drop_first())
    }
}

/// The byte length, capped at the machine word: what the byte counter
/// computes.
pub open spec fn spec_byte_len_capped(s: Seq<char>) -> nat {
    if spec_byte_len(s) < usize::MAX as nat {
        spec_byte_len(s)
    } else {
        usize::MAX as nat
    }
}

/// The UTF-8 byte length of the text, saturating at the machine word.
pub fn byte_len_of(s: &Vec<char>) -> (n: usize)
    ensures
        n as nat == spec_byte_len_capped(s@),
{
    let mut n: usize = 0;
    let mut i: usize = 0;
    proof {
        assert(s@.subrange(0, s@.len() as int) =~= s@);
    }
    while i < s.len()
        invariant
            i <= s@.len(),
            ({
                let m = usize::MAX as nat;
                let rest = spec_byte_len(s@.subrange(i as int, s@.len() as int));
                &&& (if spec_byte_len(s@) < m {
                    spec_byte_len(s@)
                } else {
                    m
                }) == (if n as nat + rest < m {
                    n as nat + rest
                } else {
                    m
                })
            }),
        decreases s@.len() - i,
    {
        let ghost pre = s@.subrange(i as int, s@.len() as int);
        proof {
            assert(pre[0] == s@[i as int]);
            assert(pre.drop_first() =~= s@.subrange(i as int + 1, s@.len() as int));
        }
        let c = s[i];
        let cu: u32 = c as u32;
        let d: usize = if cu < 0x80 {
            1
        } else if cu < 0x800 {
            2
        } else if cu < 0x10000 {
            3
        } else {
            4
        };
        proof {
            assert(d as nat == spec_utf8_len(s@[i as int]));
        }
        if n > usize::MAX - d {
            n = usize::MAX;
        } else {
            n = n + d;
        }
        i += 1;
    }
    proof {
        assert(spec_byte_len(s@.subrange(i as int, s@.len() as int)) == 0);
    }
    n
}

/// Appends the characters of a literal fragment.
pub fn push_str_chars(out: &mut Vec<char>, src: &str)
    ensures
        final(out)@ == old(out)@ + src@,
{
    let v = chars_of(src);
    push_chars(out, &v);
}

} // verus!
