//! The back-end code generator: lowers each rule body to matcher source
//! text, emits one helper function per composite operator under a
//! deterministically generated name, and composes the parser module around
//! them. Every emitted fragment is pinned, character for character, by a
//! specification mirror.
use vstd::prelude::*;
use crate::ast::{CharacterInterval, Span};
use crate::clean_ast::{CleanExpression, Grammar};
use crate::diagnostic::{emit, Diagnostic, Severity};
use crate::typing::{type_of_expr, AstRuleType};
use crate::utility::{push_chars, push_decimal, push_str_chars, spec_decimal, spec_lower,
    string_to_lowercase};

verus! {

/// One generated top-level item: a helper or rule matcher function.
pub struct GenItem {
    pub name: Vec<char>,
    pub text: Vec<char>,
}

/// The items, as pairs of name and text.
pub open spec fn items_view(items: Seq<GenItem>) -> Seq<(Seq<char>, Seq<char>)> {
    items.map_values(|it: GenItem| (it.name@, it.text@))
}

/// The texts, as character sequences.
pub open spec fn texts_view(ts: Seq<Vec<char>>) -> Seq<Seq<char>> {
    ts.map_values(|t: Vec<char>| t@)
}

/// The next helper identifier: one more, until the counter is exhausted.
pub open spec fn spec_next_uid(uid: nat) -> nat {
    if uid < usize::MAX as nat {
        uid + 1
    } else {
        uid
    }
}

/// The escape of one character inside a generated string literal.
pub open spec fn spec_escape_char(c: char) -> Seq<char> {
    if c == '"' {
        seq!['\\', '"']
    } else if c == '\\' {
        seq!['\\', '\\']
    } else if c == '\n' {
        seq!['\\', 'n']
    } else if c == '\t' {
        seq!['\\', 't']
    } else if c == '\r' {
        seq!['\\', 'r']
    } else {
        seq![c]
    }
}

/// The escape of a whole generated string literal.
pub open spec fn spec_escape(s: Seq<char>) -> Seq<char>
    decreases s.len(),
{
    if s.len() == 0 {
        Seq::empty()
    } else {
        spec_escape_char(s[0]) + spec_escape(s.drop_first())
    }
}

/// A generated character literal, escaped.
pub open spec fn spec_char_lit(c: char) -> Seq<char> {
    if c == '\'' {
        seq!['\'', '\\', '\''] + seq!['\'']
    } else {
        seq!['\''] + spec_escape_char(c) + seq!['\'']
    }
}

/// The class-membership condition over the intervals.
pub open spec fn spec_cond(iv: Seq<CharacterInterval>) -> Seq<char>
    decreases iv.len(),
{
    if iv.len() == 0 {
        Seq::empty()
    } else {
        let one = "(current >= "@ + spec_char_lit(iv[0].lo) + " && current <= "@ + spec_char_lit(
            iv[0].hi,
        ) + ")"@;
        if iv.len() == 1 {
            one
        } else {
            one + " || "@ + spec_cond(iv.drop_first())
        }
    }
}

/// A call of a generated matcher.
pub open spec fn spec_call(name: Seq<char>) -> Seq<char> {
    "Parser::"@ + name + "(input, pos)"@
}

/// A generated helper name: `<prefix>_<rule-lowercase>_<uid>`.
pub open spec fn spec_sym(prefix: Seq<char>, rule_lc: Seq<char>, uid: nat) -> Seq<char> {
    prefix + "_"@ + rule_lc + "_"@ + spec_decimal(uid)
}

/// The right fold of the sequence operator: position threads through the
/// children.
pub open spec fn spec_fold_ok(texts: Seq<Seq<char>>) -> Seq<char>
    decreases texts.len(),
{
    if texts.len() == 0 {
        Seq::empty()
    } else if texts.len() == 1 {
        texts[0]
    } else {
        "match "@ + texts[0] + " { Ok(pos) => { "@ + spec_fold_ok(texts.drop_first())
            + " } x => x }"@
    }
}

/// The right fold of the choice operator: the next alternative runs from the
/// entry position.
pub open spec fn spec_fold_err(texts: Seq<Seq<char>>) -> Seq<char>
    decreases texts.len(),
{
    if texts.len() == 0 {
        Seq::empty()
    } else if texts.len() == 1 {
        texts[0]
    } else {
        "match "@ + texts[0] + " { Err(_) => { "@ + spec_fold_err(texts.drop_first())
            + " } x => x }"@
    }
}

/// The star helper: iterate the child while it advances; a failing or
/// zero-width iteration ends the loop without error.
pub open spec fn spec_star_item(name: Seq<char>, child: Seq<char>) -> Seq<char> {
    "fn "@ + name
        + "(input: &str, pos: usize) -> Result<usize, String> { let mut npos = pos; loop { let pos = npos; match "@
        + child
        + " { Ok(next) => { if next <= npos { break; } npos = next; } _ => { break; } } } Ok(npos) }"@
}

/// The plus helper: one obligatory iteration, then the star helper.
pub open spec fn spec_plus_item(name: Seq<char>, child: Seq<char>, star_call: Seq<char>) -> Seq<
    char,
> {
    "fn "@ + name + "(input: &str, pos: usize) -> Result<usize, String> { match "@ + child
        + " { Ok(pos) => "@ + star_call + ", x => x } }"@
}

/// The class helper: advance one character when it lies in the class.
pub open spec fn spec_class_item(name: Seq<char>, cond: Seq<char>) -> Seq<char> {
    "fn "@ + name
        + "(input: &str, pos: usize) -> Result<usize, String> { match input[pos..].chars().next() { Some(current) => { if "@
        + cond
        + " { Ok(pos + current.len_utf8()) } else { Err(String::from(\"It doesn't match the character class.\")) } } None => Err(String::from(\"It doesn't match the character class.\")) } }"@
}

/// The matcher text of one expression, with the helper items it adds and the
/// next free identifier. Items are pairs of name and text. The emitted code
/// is byte-positional, so a literal's length argument is its UTF-8 byte
/// length.
pub open spec fn spec_gen_expr(g: Grammar, e: CleanExpression, rule_lc: Seq<char>, uid: nat) -> (
    Seq<char>,
    Seq<(Seq<char>, Seq<char>)>,
    nat,
)
    decreases e, 0int,
{
    match e {
        CleanExpression::StrLiteral(lit) => (
            "peg::runtime::match_literal(input, pos, \""@ + spec_escape(lit@) + "\", "@
                + spec_decimal(crate::utility::spec_byte_len_capped(lit@)) + ")"@,
            Seq::empty(),
            uid,
        ),
        CleanExpression::AnySingleChar => (
            "peg::runtime::any_single_char(input, pos)"@,
            Seq::empty(),
            uid,
        ),
        CleanExpression::NonTerminalSymbol(i) => (
            if i < g.rules@.len() {
                spec_call(g.rules@[i as int].name@)
            } else {
                Seq::empty()
            },
            Seq::empty(),
            uid,
        ),
        CleanExpression::Sequence(cs) => {
            let (texts, items, uid2) = spec_gen_list(g, cs@, rule_lc, uid);
            (spec_fold_ok(texts), items, uid2)
        },
        CleanExpression::Choice(cs) => {
            let (texts, items, uid2) = spec_gen_list(g, cs@, rule_lc, uid);
            (spec_fold_err(texts), items, uid2)
        },
        CleanExpression::ZeroOrMore(c) => {
            let (child, items, uid2) = spec_gen_expr(g, *c, rule_lc, uid);
            let name = spec_sym("star"@, rule_lc, uid2);
            (
                spec_call(name),
                items.push((name, spec_star_item(name, child))),
                spec_next_uid(uid2),
            )
        },
        CleanExpression::OneOrMore(c) => {
            let (child, items, uid2) = spec_gen_expr(g, *c, rule_lc, uid);
            let star_name = spec_sym("star"@, rule_lc, uid2);
            let uid3 = spec_next_uid(uid2);
            let plus_name = spec_sym("plus"@, rule_lc, uid3);
            (
                spec_call(plus_name),
                items.push((star_name, spec_star_item(star_name, child))).push(
                    (plus_name, spec_plus_item(plus_name, child, spec_call(star_name))),
                ),
                spec_next_uid(uid3),
            )
        },
        CleanExpression::Optional(c) => {
            let (child, items, uid2) = spec_gen_expr(g, *c, rule_lc, uid);
            ("match "@ + child + " { Ok(pos) => Ok(pos), _ => Ok(pos) }"@, items, uid2)
        },
        CleanExpression::NotPredicate(c) => {
            let (child, items, uid2) = spec_gen_expr(g, *c, rule_lc, uid);
            (
                "match "@ + child
                    + " { Ok(_) => Err(String::from(\"An `!expr` failed.\")), _ => Ok(pos) }"@,
                items,
                uid2,
            )
        },
        CleanExpression::AndPredicate(c) => {
            let (child, items, uid2) = spec_gen_expr(g, *c, rule_lc, uid);
            ("match "@ + child + " { Ok(_) => Ok(pos), x => x }"@, items, uid2)
        },
        CleanExpression::CharacterClass(cc) => {
            let name = spec_sym("class_char"@, rule_lc, uid);
            (
                spec_call(name),
                Seq::empty().push((name, spec_class_item(name, spec_cond(cc.intervals@)))),
                spec_next_uid(uid),
            )
        },
    }
}

/// The matcher texts of a child list, threading items and identifiers left
/// to right.
pub open spec fn spec_gen_list(
    g: Grammar,
    cs: Seq<CleanExpression>,
    rule_lc: Seq<char>,
    uid: nat,
) -> (Seq<Seq<char>>, Seq<(Seq<char>, Seq<char>)>, nat)
    decreases cs, 1int,
{
    if cs.len() == 0 {
        (Seq::empty(), Seq::empty(), uid)
    } else {
        let (head, items1, uid1) = spec_gen_expr(g, cs[0], rule_lc, uid);
        let (rest, items2, uid2) = spec_gen_list(g, cs.drop_first(), rule_lc, uid1);
        (seq![head] + rest, items1 + items2, uid2)
    }
}

/// One generated rule: the helpers its body adds, then the rule's own
/// matcher function, named after the rule.
pub open spec fn spec_gen_rules(g: Grammar, i: int, uid: nat) -> (
    Seq<(Seq<char>, Seq<char>)>,
    nat,
)
    decreases g.rules@.len() - i,
{
    if i < 0 || i >= g.rules@.len() {
        (Seq::empty(), uid)
    } else {
        let name = g.rules@[i].name@;
        let (body, items, uid2) = spec_gen_expr(g, g.rules@[i].def, spec_lower(name), uid);
        let (rest, uid3) = spec_gen_rules(g, i + 1, uid2);
        (items.push((name, spec_rule_item(name, body))) + rest, uid3)
    }
}

/// A rule's matcher function.
pub open spec fn spec_rule_item(name: Seq<char>, body: Seq<char>) -> Seq<char> {
    "fn "@ + name + "(input: &str, pos: usize) -> Result<usize, String> { "@ + body + " }"@
}

/// The generated entry point: run the start rule from position zero and
/// wrap its outcome.
pub open spec fn spec_entry(start_name: Seq<char>) -> Seq<char> {
    "impl peg::Parser for Parser { fn parse<'a>(&self, input: &'a str) -> Result<Option<&'a str>, String> { peg::runtime::make_result(input, &Parser::"@
        + start_name + "(input, 0)) } }"@
}

/// The generated items, joined one per line.
pub open spec fn spec_join(items: Seq<(Seq<char>, Seq<char>)>) -> Seq<char>
    decreases items.len(),
{
    if items.len() == 0 {
        Seq::empty()
    } else {
        items[0].1 + "\n"@ + spec_join(items.drop_first())
    }
}

/// The whole generated module.
pub open spec fn spec_module_of(g: Grammar) -> Seq<char> {
    let (items, _) = spec_gen_rules(g, 0, 0);
    "pub mod "@ + g.name@ + " { #![allow(dead_code)] "@ + "pub mod ast { }"@
        + " pub struct Parser; impl Parser { pub fn new() -> Parser { Parser } "@
        + spec_join(items) + " } "@ + spec_entry(
        if g.start_rule_idx < g.rules@.len() {
            g.rules@[g.start_rule_idx as int].name@
        } else {
            Seq::empty()
        },
    ) + " }"@
}

/// The code generator's per-compile state: the emitted items, the helper
/// identifier counter, and the rule being compiled.
pub struct PegCompiler {
    pub top_level_items: Vec<GenItem>,
    pub unique_id: usize,
    pub current_rule_idx: usize,
}

impl PegCompiler {
    /// The next helper identifier; monotonic through one compile.
    pub fn gen_uid(&mut self) -> (r: usize)
        ensures
            r == old(self).unique_id,
            final(self).unique_id as nat == spec_next_uid(old(self).unique_id as nat),
            final(self).top_level_items == old(self).top_level_items,
            final(self).current_rule_idx == old(self).current_rule_idx,
    {
        let r = self.unique_id;
        if self.unique_id < usize::MAX {
            self.unique_id = self.unique_id + 1;
        }
        r
    }

    /// The current rule's name, lowercased for generated helper names.
    pub fn current_lc_rule_name(&self, g: &Grammar) -> (r: Vec<char>)
        requires
            self.current_rule_idx < g.rules@.len(),
        ensures
            r@ == spec_lower(g.rules@[self.current_rule_idx as int].name@),
    {
        string_to_lowercase(&g.rules[self.current_rule_idx].name)
    }

    /// A fresh helper name `<prefix>_<rule-lowercase>_<uid>`.
    pub fn gensym(&mut self, prefix: &str, g: &Grammar) -> (r: Vec<char>)
        requires
            old(self).current_rule_idx < g.rules@.len(),
        ensures
            r@ == spec_sym(
                prefix@,
                spec_lower(g.rules@[old(self).current_rule_idx as int].name@),
                old(self).unique_id as nat,
            ),
            final(self).unique_id as nat == spec_next_uid(old(self).unique_id as nat),
            final(self).top_level_items == old(self).top_level_items,
            final(self).current_rule_idx == old(self).current_rule_idx,
    {
        let mut r: Vec<char> = Vec::new();
        push_str_chars(&mut r, prefix);
        push_str_chars(&mut r, "_");
        let lc = self.current_lc_rule_name(g);
        push_chars(&mut r, &lc);
        push_str_chars(&mut r, "_");
        let uid = self.gen_uid();
        push_decimal(&mut r, uid);
        proof {
            assert(r@ =~= spec_sym(
                prefix@,
                spec_lower(g.rules@[old(self).current_rule_idx as int].name@),
                old(self).unique_id as nat,
            ));
        }
        r
    }
}

/// Appends the escaped form of a generated string literal's contents.
fn push_escaped(out: &mut Vec<char>, s: &Vec<char>)
    ensures
        final(out)@ == old(out)@ + spec_escape(s@),
{
    let mut i: usize = 0;
    proof {
        assert(s@.subrange(0, s@.len() as int) =~= s@);
    }
    while i < s.len()
        invariant
            i <= s@.len(),
            old(out)@ + spec_escape(s@) == out@ + spec_escape(s@.subrange(i as int, s@.len() as int)),
        decreases s@.len() - i,
    {
        let ghost pre = s@.subrange(i as int, s@.len() as int);
        proof {
            assert(pre[0] == s@[i as int]);
            assert(pre.drop_first() =~= s@.subrange(i as int + 1, s@.len() as int));
        }
        let c = s[i];
        match c {
            '"' => {
                out.push('\\');
                out.push('"');
            },
            '\\' => {
                out.push('\\');
                out.push('\\');
            },
            '\n' => {
                out.push('\\');
                out.push('n');
            },
            '\t' => {
                out.push('\\');
                out.push('t');
            },
            '\r' => {
                out.push('\\');
                out.push('r');
            },
            _ => {
                out.push(c);
            },
        }
        i += 1;
        proof {
            assert(out@ + spec_escape(s@.subrange(i as int, s@.len() as int)) =~= old(out)@
                + spec_escape(s@));
        }
    }
    proof {
        assert(spec_escape(s@.subrange(i as int, s@.len() as int)) =~= Seq::<char>::empty());
        assert(out@ =~= old(out)@ + spec_escape(s@));
    }
}

/// Appends a generated character literal.
fn push_char_lit(out: &mut Vec<char>, c: char)
    ensures
        final(out)@ == old(out)@ + spec_char_lit(c),
{
    out.push('\'');
    match c {
        '\'' => {
            out.push('\\');
            out.push('\'');
        },
        '"' => {
            out.push('\\');
            out.push('"');
        },
        '\\' => {
            out.push('\\');
            out.push('\\');
        },
        '\n' => {
            out.push('\\');
            out.push('n');
        },
        '\t' => {
            out.push('\\');
            out.push('t');
        },
        '\r' => {
            out.push('\\');
            out.push('r');
        },
        _ => {
            out.push(c);
        },
    }
    out.push('\'');
    proof {
        assert(out@ =~= old(out)@ + spec_char_lit(c));
    }
}

/// Appends the class-membership condition over the intervals.
fn push_cond(out: &mut Vec<char>, iv: &Vec<CharacterInterval>)
    ensures
        final(out)@ == old(out)@ + spec_cond(iv@),
{
    let mut i: usize = 0;
    proof {
        assert(iv@.subrange(0, iv@.len() as int) =~= iv@);
    }
    while i < iv.len()
        invariant
            i <= iv@.len(),
            old(out)@ + spec_cond(iv@) == out@ + spec_cond(iv@.subrange(i as int, iv@.len() as int)),
        decreases iv@.len() - i,
    {
        let ghost pre = iv@.subrange(i as int, iv@.len() as int);
        proof {
            assert(pre[0] == iv@[i as int]);
            assert(pre.drop_first() =~= iv@.subrange(i as int + 1, iv@.len() as int));
        }
        push_str_chars(out, "(current >= ");
        push_char_lit(out, iv[i].lo);
        push_str_chars(out, " && current <= ");
        push_char_lit(out, iv[i].hi);
        push_str_chars(out, ")");
        if i + 1 < iv.len() {
            push_str_chars(out, " || ");
        }
        i += 1;
        proof {
            assert(out@ + spec_cond(iv@.subrange(i as int, iv@.len() as int)) =~= old(out)@
                + spec_cond(iv@));
        }
    }
    proof {
        assert(spec_cond(iv@.subrange(i as int, iv@.len() as int)) =~= Seq::<char>::empty());
        assert(out@ =~= old(out)@ + spec_cond(iv@));
    }
}

impl PegCompiler {
    /// Lowers one expression to matcher text, emitting helper items for the
    /// composite operators it holds.
    pub fn compile_expression(&mut self, g: &Grammar, e: &CleanExpression) -> (r: Vec<char>)
        requires
            old(self).current_rule_idx < g.rules@.len(),
        ensures
            ({
                let m = spec_gen_expr(
                    *g,
                    *e,
                    spec_lower(g.rules@[old(self).current_rule_idx as int].name@),
                    old(self).unique_id as nat,
                );
                &&& r@ == m.0
                &&& items_view(final(self).top_level_items@) == items_view(
                    old(self).top_level_items@,
                ) + m.1
                &&& final(self).unique_id as nat == m.2
                &&& final(self).current_rule_idx == old(self).current_rule_idx
            }),
        decreases *e, 0int,
    {
        let ghost m = spec_gen_expr(
            *g,
            *e,
            spec_lower(g.rules@[self.current_rule_idx as int].name@),
            self.unique_id as nat,
        );
        let r = match e {
            CleanExpression::StrLiteral(lit) => {
                let mut t: Vec<char> = Vec::new();
                push_str_chars(&mut t, "peg::runtime::match_literal(input, pos, \"");
                push_escaped(&mut t, lit);
                push_str_chars(&mut t, "\", ");
                push_decimal(&mut t, crate::utility::byte_len_of(lit));
                push_str_chars(&mut t, ")");
                t
            },
            CleanExpression::AnySingleChar => {
                let mut t: Vec<char> = Vec::new();
                push_str_chars(&mut t, "peg::runtime::any_single_char(input, pos)");
                t
            },
            CleanExpression::NonTerminalSymbol(i) => {
                let mut t: Vec<char> = Vec::new();
                if *i < g.rules.len() {
                    push_str_chars(&mut t, "Parser::");
                    push_chars(&mut t, &g.rules[*i].name);
                    push_str_chars(&mut t, "(input, pos)");
                }
                t
            },
            CleanExpression::Sequence(cs) => self.compile_sequence(g, cs),
            CleanExpression::Choice(cs) => self.compile_choice(g, cs),
            CleanExpression::ZeroOrMore(c) => self.compile_zero_or_more(g, c),
            CleanExpression::OneOrMore(c) => self.compile_one_or_more(g, c),
            CleanExpression::Optional(c) => self.compile_optional(g, c),
            CleanExpression::NotPredicate(c) => self.compile_not_predicate(g, c),
            CleanExpression::AndPredicate(c) => self.compile_and_predicate(g, c),
            CleanExpression::CharacterClass(cc) => self.compile_character_class(g, cc),
        };
        proof {
            assert(r@ =~= m.0);
        }
        r
    }

    /// Lowers each child in order, threading helper items and identifiers.
    fn compile_list(&mut self, g: &Grammar, cs: &Vec<CleanExpression>) -> (r: Vec<Vec<char>>)
        requires
            old(self).current_rule_idx < g.rules@.len(),
        ensures
            ({
                let m = spec_gen_list(
                    *g,
                    cs@,
                    spec_lower(g.rules@[old(self).current_rule_idx as int].name@),
                    old(self).unique_id as nat,
                );
                &&& texts_view(r@) == m.0
                &&& items_view(final(self).top_level_items@) == items_view(
                    old(self).top_level_items@,
                ) + m.1
                &&& final(self).unique_id as nat == m.2
                &&& final(self).current_rule_idx == old(self).current_rule_idx
            }),
        decreases cs@, 1int,
    {
        let ghost lc = spec_lower(g.rules@[self.current_rule_idx as int].name@);
        let ghost m = spec_gen_list(*g, cs@, lc, self.unique_id as nat);
        let ghost items0 = items_view(self.top_level_items@);
        let mut texts: Vec<Vec<char>> = Vec::new();
        let mut i: usize = 0;
        proof {
            assert(cs@.subrange(0, cs@.len() as int) =~= cs@);
            assert(items_view(self.top_level_items@).subrange(0, items0.len() as int) =~= items0);
        }
        while i < cs.len()
            invariant
                i <= cs@.len(),
                self.current_rule_idx == old(self).current_rule_idx,
                self.current_rule_idx < g.rules@.len(),
                lc == spec_lower(g.rules@[old(self).current_rule_idx as int].name@),
                items0.len() <= items_view(self.top_level_items@).len(),
                items_view(self.top_level_items@).subrange(0, items0.len() as int) == items0,
                ({
                    let iv = items_view(self.top_level_items@);
                    let added = iv.subrange(items0.len() as int, iv.len() as int);
                    let rest = spec_gen_list(
                        *g,
                        cs@.subrange(i as int, cs@.len() as int),
                        lc,
                        self.unique_id as nat,
                    );
                    &&& m.0 == texts_view(texts@) + rest.0
                    &&& m.1 == added + rest.1
                    &&& m.2 == rest.2
                }),
            decreases cs@.len() - i,
        {
            let ghost pre = cs@.subrange(i as int, cs@.len() as int);
            let ghost iv_before = items_view(self.top_level_items@);
            let ghost added_before = iv_before.subrange(items0.len() as int, iv_before.len() as int);
            let ghost uid_b = self.unique_id as nat;
            let ghost texts_before = texts_view(texts@);
            proof {
                assert(pre[0] == cs@[i as int]);
                assert(pre.drop_first() =~= cs@.subrange(i as int + 1, cs@.len() as int));
                assert(decreases_to!(cs@ => cs@[i as int]));
            }
            let t = self.compile_expression(g, &cs[i]);
            let ghost t_v = t@;
            texts.push(t);
            i += 1;
            proof {
                let iv = items_view(self.top_level_items@);
                let added = iv.subrange(items0.len() as int, iv.len() as int);
                let head = spec_gen_expr(*g, cs@[i - 1], lc, uid_b);
                assert(cs@[i - 1] == pre[0]);
                assert(t_v == head.0);
                assert(texts@.len() == texts_before.len() + 1);
                assert(forall|j: int|
                    0 <= j < texts_before.len() ==> texts_view(texts@)[j] == texts_before[j]);
                assert(texts_view(texts@)[texts_before.len() as int] == t_v);
                assert(spec_gen_list(*g, pre, lc, uid_b).0 == seq![head.0] + spec_gen_list(
                    *g,
                    pre.drop_first(),
                    lc,
                    head.2,
                ).0);
                assert(spec_gen_list(*g, pre, lc, uid_b).1 == head.1 + spec_gen_list(
                    *g,
                    pre.drop_first(),
                    lc,
                    head.2,
                ).1);
                assert(spec_gen_list(*g, pre, lc, uid_b).2 == spec_gen_list(
                    *g,
                    pre.drop_first(),
                    lc,
                    head.2,
                ).2);
                assert(texts_view(texts@) =~~= texts_before + seq![head.0]);
                assert(iv =~~= iv_before + head.1);
                assert(iv.subrange(0, items0.len() as int) =~= items0);
                assert(added =~= added_before + head.1);
                assert(m.0 =~= texts_view(texts@) + spec_gen_list(
                    *g,
                    cs@.subrange(i as int, cs@.len() as int),
                    lc,
                    self.unique_id as nat,
                ).0);
                assert(m.1 =~= added + spec_gen_list(
                    *g,
                    cs@.subrange(i as int, cs@.len() as int),
                    lc,
                    self.unique_id as nat,
                ).1);
            }
        }
        proof {
            let iv = items_view(self.top_level_items@);
            let added = iv.subrange(items0.len() as int, iv.len() as int);
            let rest = spec_gen_list(
                *g,
                cs@.subrange(i as int, cs@.len() as int),
                lc,
                self.unique_id as nat,
            );
            assert(rest.0 =~= Seq::<Seq<char>>::empty());
            assert(rest.1 =~= Seq::<(Seq<char>, Seq<char>)>::empty());
            assert(m.0 =~= texts_view(texts@));
            assert(m.1 =~= added);
            assert(iv =~= items0 + m.1);
        }
        texts
    }

    /// Folds the children's matchers into the sequence shape: each `Ok`
    /// hands its new position to the next child.
    pub fn compile_sequence(&mut self, g: &Grammar, cs: &Vec<CleanExpression>) -> (r: Vec<char>)
        requires
            old(self).current_rule_idx < g.rules@.len(),
        ensures
            ({
                let m = spec_gen_list(
                    *g,
                    cs@,
                    spec_lower(g.rules@[old(self).current_rule_idx as int].name@),
                    old(self).unique_id as nat,
                );
                &&& r@ == spec_fold_ok(m.0)
                &&& items_view(final(self).top_level_items@) == items_view(
                    old(self).top_level_items@,
                ) + m.1
                &&& final(self).unique_id as nat == m.2
                &&& final(self).current_rule_idx == old(self).current_rule_idx
            }),
        decreases cs@, 2int,
    {
        let texts = self.compile_list(g, cs);
        fold_texts(texts, true)
    }

    /// Folds the children's matchers into the choice shape: each `Err` lets
    /// the next alternative run from the entry position.
    pub fn compile_choice(&mut self, g: &Grammar, cs: &Vec<CleanExpression>) -> (r: Vec<char>)
        requires
            old(self).current_rule_idx < g.rules@.len(),
        ensures
            ({
                let m = spec_gen_list(
                    *g,
                    cs@,
                    spec_lower(g.rules@[old(self).current_rule_idx as int].name@),
                    old(self).unique_id as nat,
                );
                &&& r@ == spec_fold_err(m.0)
                &&& items_view(final(self).top_level_items@) == items_view(
                    old(self).top_level_items@,
                ) + m.1
                &&& final(self).unique_id as nat == m.2
                &&& final(self).current_rule_idx == old(self).current_rule_idx
            }),
        decreases cs@, 2int,
    {
        let texts = self.compile_list(g, cs);
        fold_texts(texts, false)
    }
}

/// Folds matcher texts right to left into nested matches: the sequence
/// shape on `Ok`, the choice shape on `Err`.
fn fold_texts(texts: Vec<Vec<char>>, on_ok: bool) -> (r: Vec<char>)
    ensures
        on_ok ==> r@ == spec_fold_ok(texts_view(texts@)),
        !on_ok ==> r@ == spec_fold_err(texts_view(texts@)),
{
    let ghost ts = texts_view(texts@);
    let mut texts = texts;
    if texts.len() == 0 {
        proof {
            assert(ts.len() == 0);
        }
        return Vec::new();
    }
    let mut acc = texts.pop().unwrap();
    proof {
        assert(texts@.len() + 1 == ts.len());
        assert(acc@ == ts[ts.len() - 1]);
        assert(ts.subrange(ts.len() - 1, ts.len() as int).len() == 1);
        assert(ts.subrange(ts.len() - 1, ts.len() as int)[0] == ts[ts.len() - 1]);
        assert(forall|j: int| 0 <= j < texts@.len() ==> (#[trigger] texts@[j])@ == ts[j]);
    }
    while texts.len() > 0
        invariant
            texts@.len() < ts.len(),
            forall|j: int| 0 <= j < texts@.len() ==> (#[trigger] texts@[j])@ == ts[j],
            on_ok ==> acc@ == spec_fold_ok(ts.subrange(texts@.len() as int, ts.len() as int)),
            !on_ok ==> acc@ == spec_fold_err(ts.subrange(texts@.len() as int, ts.len() as int)),
        decreases texts@.len(),
    {
        let prev = texts.pop().unwrap();
        let ghost k = texts@.len() as int;
        let mut next: Vec<char> = Vec::new();
        push_str_chars(&mut next, "match ");
        push_chars(&mut next, &prev);
        if on_ok {
            push_str_chars(&mut next, " { Ok(pos) => { ");
        } else {
            push_str_chars(&mut next, " { Err(_) => { ");
        }
        push_chars(&mut next, &acc);
        push_str_chars(&mut next, " } x => x }");
        acc = next;
        proof {
            let sub = ts.subrange(k, ts.len() as int);
            assert(sub.len() >= 2);
            assert(sub[0] == ts[k]);
            assert(sub.drop_first() =~= ts.subrange(k + 1, ts.len() as int));
            assert(prev@ == ts[k]);
            if on_ok {
                assert(acc@ =~= spec_fold_ok(sub));
            } else {
                assert(acc@ =~= spec_fold_err(sub));
            }
        }
    }
    proof {
        assert(ts.subrange(0, ts.len() as int) =~= ts);
    }
    acc
}

impl PegCompiler {
    /// Emits the star helper for an already-lowered child and returns the
    /// call of it.
    pub fn compile_star(&mut self, g: &Grammar, child: &Vec<char>) -> (r: Vec<char>)
        requires
            old(self).current_rule_idx < g.rules@.len(),
        ensures
            ({
                let lc = spec_lower(g.rules@[old(self).current_rule_idx as int].name@);
                let name = spec_sym("star"@, lc, old(self).unique_id as nat);
                &&& r@ == spec_call(name)
                &&& items_view(final(self).top_level_items@) == items_view(
                    old(self).top_level_items@,
                ).push((name, spec_star_item(name, child@)))
                &&& final(self).unique_id as nat == spec_next_uid(old(self).unique_id as nat)
                &&& final(self).current_rule_idx == old(self).current_rule_idx
            }),
    {
        let fun_name = self.gensym("star", g);
        let mut text: Vec<char> = Vec::new();
        push_str_chars(&mut text, "fn ");
        push_chars(&mut text, &fun_name);
        push_str_chars(
            &mut text,
            "(input: &str, pos: usize) -> Result<usize, String> { let mut npos = pos; loop { let pos = npos; match ",
        );
        push_chars(&mut text, child);
        push_str_chars(
            &mut text,
            " { Ok(next) => { if next <= npos { break; } npos = next; } _ => { break; } } } Ok(npos) }",
        );
        let mut call: Vec<char> = Vec::new();
        push_str_chars(&mut call, "Parser::");
        push_chars(&mut call, &fun_name);
        push_str_chars(&mut call, "(input, pos)");
        let ghost name_v = fun_name@;
        self.top_level_items.push(GenItem { name: fun_name, text });
        proof {
            let lc = spec_lower(g.rules@[old(self).current_rule_idx as int].name@);
            let name = spec_sym("star"@, lc, old(self).unique_id as nat);
            assert(call@ =~= spec_call(name));
            assert(items_view(self.top_level_items@) =~~= items_view(
                old(self).top_level_items@,
            ).push((name, spec_star_item(name, child@))));
        }
        call
    }

    /// Zero-or-more: the child's matcher wrapped in the star helper.
    pub fn compile_zero_or_more(&mut self, g: &Grammar, e: &CleanExpression) -> (r: Vec<char>)
        requires
            old(self).current_rule_idx < g.rules@.len(),
        ensures
            ({
                let lc = spec_lower(g.rules@[old(self).current_rule_idx as int].name@);
                let cm = spec_gen_expr(*g, *e, lc, old(self).unique_id as nat);
                let name = spec_sym("star"@, lc, cm.2);
                &&& r@ == spec_call(name)
                &&& items_view(final(self).top_level_items@) == items_view(
                    old(self).top_level_items@,
                ) + cm.1.push((name, spec_star_item(name, cm.0)))
                &&& final(self).unique_id as nat == spec_next_uid(cm.2)
                &&& final(self).current_rule_idx == old(self).current_rule_idx
            }),
        decreases *e, 2int,
    {
        let child = self.compile_expression(g, e);
        let r = self.compile_star(g, &child);
        proof {
            let lc = spec_lower(g.rules@[old(self).current_rule_idx as int].name@);
            let cm = spec_gen_expr(*g, *e, lc, old(self).unique_id as nat);
            let name = spec_sym("star"@, lc, cm.2);
            assert(items_view(self.top_level_items@) =~~= items_view(old(self).top_level_items@)
                + cm.1.push((name, spec_star_item(name, cm.0))));
        }
        r
    }

    /// One-or-more: one obligatory iteration of the child, then the star
    /// helper; both helpers are emitted.
    pub fn compile_one_or_more(&mut self, g: &Grammar, e: &CleanExpression) -> (r: Vec<char>)
        requires
            old(self).current_rule_idx < g.rules@.len(),
        ensures
            ({
                let lc = spec_lower(g.rules@[old(self).current_rule_idx as int].name@);
                let cm = spec_gen_expr(*g, *e, lc, old(self).unique_id as nat);
                let star_name = spec_sym("star"@, lc, cm.2);
                let plus_name = spec_sym("plus"@, lc, spec_next_uid(cm.2));
                &&& r@ == spec_call(plus_name)
                &&& items_view(final(self).top_level_items@) == items_view(
                    old(self).top_level_items@,
                ) + cm.1.push((star_name, spec_star_item(star_name, cm.0))).push(
                    (plus_name, spec_plus_item(plus_name, cm.0, spec_call(star_name))),
                )
                &&& final(self).unique_id as nat == spec_next_uid(spec_next_uid(cm.2))
                &&& final(self).current_rule_idx == old(self).current_rule_idx
            }),
        decreases *e, 2int,
    {
        let child = self.compile_expression(g, e);
        let star_call = self.compile_star(g, &child);
        let ghost mid_view = items_view(self.top_level_items@);
        let fun_name = self.gensym("plus", g);
        let mut text: Vec<char> = Vec::new();
        push_str_chars(&mut text, "fn ");
        push_chars(&mut text, &fun_name);
        push_str_chars(&mut text, "(input: &str, pos: usize) -> Result<usize, String> { match ");
        push_chars(&mut text, &child);
        push_str_chars(&mut text, " { Ok(pos) => ");
        push_chars(&mut text, &star_call);
        push_str_chars(&mut text, ", x => x } }");
        let mut call: Vec<char> = Vec::new();
        push_str_chars(&mut call, "Parser::");
        push_chars(&mut call, &fun_name);
        push_str_chars(&mut call, "(input, pos)");
        proof {
            let lc = spec_lower(g.rules@[old(self).current_rule_idx as int].name@);
            let cm = spec_gen_expr(*g, *e, lc, old(self).unique_id as nat);
            let star_name = spec_sym("star"@, lc, cm.2);
            let plus_name = spec_sym("plus"@, lc, spec_next_uid(cm.2));
            assert(fun_name@ == plus_name);
            assert(text@ =~= spec_plus_item(plus_name, cm.0, spec_call(star_name)));
            assert(call@ =~= spec_call(plus_name));
        }
        let ghost name_v = fun_name@;
        let ghost text_v = text@;
        self.top_level_items.push(GenItem { name: fun_name, text });
        proof {
            let lc = spec_lower(g.rules@[old(self).current_rule_idx as int].name@);
            let cm = spec_gen_expr(*g, *e, lc, old(self).unique_id as nat);
            let star_name = spec_sym("star"@, lc, cm.2);
            let plus_name = spec_sym("plus"@, lc, spec_next_uid(cm.2));
            assert(mid_view == items_view(old(self).top_level_items@) + cm.1.push(
                (star_name, spec_star_item(star_name, cm.0)),
            ));
            assert(items_view(self.top_level_items@) =~~= mid_view.push((name_v, text_v)));
            assert(name_v == plus_name);
            assert(text_v =~= spec_plus_item(plus_name, cm.0, spec_call(star_name)));
            assert(items_view(self.top_level_items@) =~~= items_view(old(self).top_level_items@)
                + cm.1.push((star_name, spec_star_item(star_name, cm.0))).push(
                (plus_name, spec_plus_item(plus_name, cm.0, spec_call(star_name))),
            ));
        }
        call
    }

    /// Optional: the child's position on success, the entry position on
    /// failure.
    pub fn compile_optional(&mut self, g: &Grammar, e: &CleanExpression) -> (r: Vec<char>)
        requires
            old(self).current_rule_idx < g.rules@.len(),
        ensures
            ({
                let lc = spec_lower(g.rules@[old(self).current_rule_idx as int].name@);
                let cm = spec_gen_expr(*g, *e, lc, old(self).unique_id as nat);
                &&& r@ == "match "@ + cm.0 + " { Ok(pos) => Ok(pos), _ => Ok(pos) }"@
                &&& items_view(final(self).top_level_items@) == items_view(
                    old(self).top_level_items@,
                ) + cm.1
                &&& final(self).unique_id as nat == cm.2
                &&& final(self).current_rule_idx == old(self).current_rule_idx
            }),
        decreases *e, 2int,
    {
        let child = self.compile_expression(g, e);
        let mut t: Vec<char> = Vec::new();
        push_str_chars(&mut t, "match ");
        push_chars(&mut t, &child);
        push_str_chars(&mut t, " { Ok(pos) => Ok(pos), _ => Ok(pos) }");
        proof {
            let lc = spec_lower(g.rules@[old(self).current_rule_idx as int].name@);
            let cm = spec_gen_expr(*g, *e, lc, old(self).unique_id as nat);
            assert(t@ =~= "match "@ + cm.0 + " { Ok(pos) => Ok(pos), _ => Ok(pos) }"@);
        }
        t
    }

    /// Not-predicate: fails with the synthetic error when the child matches,
    /// succeeds at the entry position when it fails.
    pub fn compile_not_predicate(&mut self, g: &Grammar, e: &CleanExpression) -> (r: Vec<char>)
        requires
            old(self).current_rule_idx < g.rules@.len(),
        ensures
            ({
                let lc = spec_lower(g.rules@[old(self).current_rule_idx as int].name@);
                let cm = spec_gen_expr(*g, *e, lc, old(self).unique_id as nat);
                &&& r@ == "match "@ + cm.0
                    + " { Ok(_) => Err(String::from(\"An `!expr` failed.\")), _ => Ok(pos) }"@
                &&& items_view(final(self).top_level_items@) == items_view(
                    old(self).top_level_items@,
                ) + cm.1
                &&& final(self).unique_id as nat == cm.2
                &&& final(self).current_rule_idx == old(self).current_rule_idx
            }),
        decreases *e, 2int,
    {
        let child = self.compile_expression(g, e);
        let mut t: Vec<char> = Vec::new();
        push_str_chars(&mut t, "match ");
        push_chars(&mut t, &child);
        push_str_chars(&mut t, " { Ok(_) => Err(String::from(\"An `!expr` failed.\")), _ => Ok(pos) }");
        proof {
            let lc = spec_lower(g.rules@[old(self).current_rule_idx as int].name@);
            let cm = spec_gen_expr(*g, *e, lc, old(self).unique_id as nat);
            assert(t@ =~= "match "@ + cm.0
                + " { Ok(_) => Err(String::from(\"An `!expr` failed.\")), _ => Ok(pos) }"@);
        }
        t
    }

    /// And-predicate: succeeds at the entry position when the child does,
    /// propagates the child's error otherwise.
    pub fn compile_and_predicate(&mut self, g: &Grammar, e: &CleanExpression) -> (r: Vec<char>)
        requires
            old(self).current_rule_idx < g.rules@.len(),
        ensures
            ({
                let lc = spec_lower(g.rules@[old(self).current_rule_idx as int].name@);
                let cm = spec_gen_expr(*g, *e, lc, old(self).unique_id as nat);
                &&& r@ == "match "@ + cm.0 + " { Ok(_) => Ok(pos), x => x }"@
                &&& items_view(final(self).top_level_items@) == items_view(
                    old(self).top_level_items@,
                ) + cm.1
                &&& final(self).unique_id as nat == cm.2
                &&& final(self).current_rule_idx == old(self).current_rule_idx
            }),
        decreases *e, 2int,
    {
        let child = self.compile_expression(g, e);
        let mut t: Vec<char> = Vec::new();
        push_str_chars(&mut t, "match ");
        push_chars(&mut t, &child);
        push_str_chars(&mut t, " { Ok(_) => Ok(pos), x => x }");
        proof {
            let lc = spec_lower(g.rules@[old(self).current_rule_idx as int].name@);
            let cm = spec_gen_expr(*g, *e, lc, old(self).unique_id as nat);
            assert(t@ =~= "match "@ + cm.0 + " { Ok(_) => Ok(pos), x => x }"@);
        }
        t
    }

    /// Character class: emits the membership helper and returns the call.
    pub fn compile_character_class(
        &mut self,
        g: &Grammar,
        cc: &crate::ast::CharacterClassExpr,
    ) -> (r: Vec<char>)
        requires
            old(self).current_rule_idx < g.rules@.len(),
        ensures
            ({
                let lc = spec_lower(g.rules@[old(self).current_rule_idx as int].name@);
                let name = spec_sym("class_char"@, lc, old(self).unique_id as nat);
                &&& r@ == spec_call(name)
                &&& items_view(final(self).top_level_items@) == items_view(
                    old(self).top_level_items@,
                ).push((name, spec_class_item(name, spec_cond(cc.intervals@))))
                &&& final(self).unique_id as nat == spec_next_uid(old(self).unique_id as nat)
                &&& final(self).current_rule_idx == old(self).current_rule_idx
            }),
    {
        let fun_name = self.gensym("class_char", g);
        let mut text: Vec<char> = Vec::new();
        push_str_chars(&mut text, "fn ");
        push_chars(&mut text, &fun_name);
        push_str_chars(
            &mut text,
            "(input: &str, pos: usize) -> Result<usize, String> { match input[pos..].chars().next() { Some(current) => { if ",
        );
        push_cond(&mut text, &cc.intervals);
        push_str_chars(
            &mut text,
            " { Ok(pos + current.len_utf8()) } else { Err(String::from(\"It doesn't match the character class.\")) } } None => Err(String::from(\"It doesn't match the character class.\")) } }",
        );
        let mut call: Vec<char> = Vec::new();
        push_str_chars(&mut call, "Parser::");
        push_chars(&mut call, &fun_name);
        push_str_chars(&mut call, "(input, pos)");
        self.top_level_items.push(GenItem { name: fun_name, text });
        proof {
            let lc = spec_lower(g.rules@[old(self).current_rule_idx as int].name@);
            let name = spec_sym("class_char"@, lc, old(self).unique_id as nat);
            assert(call@ =~= spec_call(name));
            assert(items_view(self.top_level_items@) =~~= items_view(
                old(self).top_level_items@,
            ).push((name, spec_class_item(name, spec_cond(cc.intervals@)))));
        }
        call
    }
}

/// Appends the generated items' texts, one per line.
fn push_items(out: &mut Vec<char>, items: &Vec<GenItem>)
    ensures
        final(out)@ == old(out)@ + spec_join(items_view(items@)),
{
    let mut k: usize = 0;
    proof {
        assert(items_view(items@).subrange(0, items_view(items@).len() as int) =~= items_view(
            items@,
        ));
    }
    while k < items.len()
        invariant
            k <= items@.len(),
            old(out)@ + spec_join(items_view(items@)) == out@ + spec_join(
                items_view(items@).subrange(k as int, items_view(items@).len() as int),
            ),
        decreases items@.len() - k,
    {
        let ghost pre = items_view(items@).subrange(k as int, items_view(items@).len() as int);
        proof {
            assert(pre[0] == items_view(items@)[k as int]);
            assert(pre.drop_first() =~= items_view(items@).subrange(
                k as int + 1,
                items_view(items@).len() as int,
            ));
        }
        push_chars(out, &items[k].text);
        push_str_chars(out, "\n");
        k += 1;
        proof {
            assert(out@ + spec_join(
                items_view(items@).subrange(k as int, items_view(items@).len() as int),
            ) =~= old(out)@ + spec_join(items_view(items@)));
        }
    }
    proof {
        assert(spec_join(
            items_view(items@).subrange(k as int, items_view(items@).len() as int),
        ) =~= Seq::<char>::empty());
        assert(out@ =~= old(out)@ + spec_join(items_view(items@)));
    }
}

impl PegCompiler {
    /// The capture type of one rule.
    pub fn type_of_rule(&self, rule: &crate::clean_ast::Rule) -> (r: Option<AstRuleType>)
        ensures
            crate::typing::represents_opt(r, crate::typing::spec_type_of(rule.def)),
    {
        type_of_expr(&rule.def)
    }

    /// The `ast` namespace of the generated module, together with the
    /// inferred capture type of every rule.
    pub fn compile_ast(&self, g: &Grammar) -> (r: (Vec<char>, Vec<Option<AstRuleType>>))
        ensures
            r.0@ == "pub mod ast { }"@,
            r.1@.len() == g.rules@.len(),
            forall|i: int|
                0 <= i < g.rules@.len() ==> crate::typing::represents_opt(
                    #[trigger] r.1@[i],
                    crate::typing::spec_type_of(g.rules@[i].def),
                ),
    {
        let mut types: Vec<Option<AstRuleType>> = Vec::new();
        let mut i: usize = 0;
        while i < g.rules.len()
            invariant
                i <= g.rules@.len(),
                types@.len() == i,
                forall|j: int|
                    0 <= j < i ==> crate::typing::represents_opt(
                        #[trigger] types@[j],
                        crate::typing::spec_type_of(g.rules@[j].def),
                    ),
            decreases g.rules@.len() - i,
        {
            let t = self.type_of_rule(&g.rules[i]);
            types.push(t);
            i += 1;
        }
        let text = crate::utility::chars_of("pub mod ast { }");
        (text, types)
    }

    /// The generated entry point: run the start rule from position zero and
    /// report completion, the unconsumed tail, or the failure.
    pub fn compile_entry_point(&self, g: &Grammar) -> (r: Vec<char>)
        requires
            g.start_rule_idx < g.rules@.len(),
        ensures
            r@ == spec_entry(g.rules@[g.start_rule_idx as int].name@),
    {
        let mut t: Vec<char> = Vec::new();
        push_str_chars(
            &mut t,
            "impl peg::Parser for Parser { fn parse<'a>(&self, input: &'a str) -> Result<Option<&'a str>, String> { peg::runtime::make_result(input, &Parser::",
        );
        push_chars(&mut t, &g.rules[g.start_rule_idx].name);
        push_str_chars(&mut t, "(input, 0)) } }");
        proof {
            assert(t@ =~= spec_entry(g.rules@[g.start_rule_idx as int].name@));
        }
        t
    }

    /// Lowers the whole grammar: one matcher per rule with its helpers, the
    /// `ast` namespace, the `Parser` type and the entry point, composed into
    /// one module. When `print_generated` is set, the module text is also
    /// reported as an informational note.
    pub fn compile_peg(&mut self, g: &Grammar, diags: &mut Vec<Diagnostic>) -> (r: Vec<char>)
        requires
            old(self).top_level_items@.len() == 0,
            old(self).unique_id == 0,
            g.start_rule_idx < g.rules@.len(),
        ensures
            r@ == spec_module_of(*g),
            g.print_generated ==> crate::diagnostic::appended_one(
                old(diags)@,
                final(diags)@,
                Severity::Note,
                (Span { lo: 0, hi: 0 }),
                r@,
            ),
            !g.print_generated ==> final(diags)@ == old(diags)@,
    {
        let ghost m = spec_gen_rules(*g, 0, 0);
        let (ast_text, _types) = self.compile_ast(g);
        let mut i: usize = 0;
        proof {
            assert(items_view(self.top_level_items@) =~= Seq::<(Seq<char>, Seq<char>)>::empty());
        }
        while i < g.rules.len()
            invariant
                i <= g.rules@.len(),
                self.current_rule_idx < g.rules@.len() || i == 0,
                ({
                    let rest = spec_gen_rules(*g, i as int, self.unique_id as nat);
                    &&& m.0 == items_view(self.top_level_items@) + rest.0
                    &&& m.1 == rest.1
                }),
            decreases g.rules@.len() - i,
        {
            self.current_rule_idx = i;
            let ghost uid_b = self.unique_id as nat;
            let ghost iv_before = items_view(self.top_level_items@);
            let ghost lc = spec_lower(g.rules@[i as int].name@);
            let body = self.compile_expression(g, &g.rules[i].def);
            let ghost cm = spec_gen_expr(*g, g.rules@[i as int].def, lc, uid_b);
            let ghost iv_mid = items_view(self.top_level_items@);
            proof {
                assert(iv_mid == iv_before + cm.1);
            }
            let name = crate::runtime::copy_chars(&g.rules[i].name);
            let mut text: Vec<char> = Vec::new();
            push_str_chars(&mut text, "fn ");
            push_chars(&mut text, &name);
            push_str_chars(&mut text, "(input: &str, pos: usize) -> Result<usize, String> { ");
            push_chars(&mut text, &body);
            push_str_chars(&mut text, " }");
            let ghost name_v = name@;
            let ghost text_v = text@;
            proof {
                assert(name_v == g.rules@[i as int].name@);
                assert(text_v =~= spec_rule_item(g.rules@[i as int].name@, cm.0));
            }
            self.top_level_items.push(GenItem { name, text });
            i += 1;
            proof {
                let rest_b = spec_gen_rules(*g, i - 1, uid_b);
                assert(rest_b.0 == cm.1.push(
                    (g.rules@[i - 1].name@, spec_rule_item(g.rules@[i - 1].name@, cm.0)),
                ) + spec_gen_rules(*g, i as int, cm.2).0);
                assert(rest_b.1 == spec_gen_rules(*g, i as int, cm.2).1);
                assert(items_view(self.top_level_items@) =~~= iv_mid.push((name_v, text_v)));
                assert(items_view(self.top_level_items@) =~~= iv_before + cm.1.push(
                    (name_v, text_v),
                ));
                assert(m.0 =~= items_view(self.top_level_items@) + spec_gen_rules(
                    *g,
                    i as int,
                    self.unique_id as nat,
                ).0);
            }
        }
        proof {
            let rest = spec_gen_rules(*g, i as int, self.unique_id as nat);
            assert(rest.0 =~= Seq::<(Seq<char>, Seq<char>)>::empty());
            assert(m.0 =~= items_view(self.top_level_items@));
        }
        let entry = self.compile_entry_point(g);
        let mut out: Vec<char> = Vec::new();
        push_str_chars(&mut out, "pub mod ");
        push_chars(&mut out, &g.name);
        push_str_chars(&mut out, " { #![allow(dead_code)] ");
        push_chars(&mut out, &ast_text);
        push_str_chars(
            &mut out,
            " pub struct Parser; impl Parser { pub fn new() -> Parser { Parser } ",
        );
        push_items(&mut out, &self.top_level_items);
        push_str_chars(&mut out, " } ");
        push_chars(&mut out, &entry);
        push_str_chars(&mut out, " }");
        proof {
            assert(out@ =~= spec_module_of(*g));
        }
        if g.print_generated {
            let copy = crate::runtime::copy_chars(&out);
            emit(diags, Severity::Note, crate::ast::Span::dummy(), copy);
        }
        out
    }

    /// Compiles a clean grammar to the generated parser module's source
    /// text.
    pub fn compile(g: &Grammar, diags: &mut Vec<Diagnostic>) -> (r: Vec<char>)
        requires
            g.start_rule_idx < g.rules@.len(),
        ensures
            r@ == spec_module_of(*g),
            g.print_generated ==> crate::diagnostic::appended_one(
                old(diags)@,
                final(diags)@,
                Severity::Note,
                (Span { lo: 0, hi: 0 }),
                r@,
            ),
            !g.print_generated ==> final(diags)@ == old(diags)@,
    {
        let mut compiler = PegCompiler {
            top_level_items: Vec::new(),
            unique_id: 0,
            current_rule_idx: 0,
        };
        compiler.compile_peg(g, diags)
    }
}

} // verus!
