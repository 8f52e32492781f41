//! The compositional matcher semantics: what a generated matcher computes for
//! each PEG operator, as a mathematical function, and a verified evaluator
//! proved equal to it. The per-operator laws of the operator table — ordered
//! choice backtracking, predicate non-consumption, repetition progress — are
//! proved of this semantics.
use vstd::prelude::*;
use crate::clean_ast::{wf_expr, wf_grammar, CleanExpression, Grammar};
use crate::runtime::{
    any_single_char, class_contains, in_class, literal_matches_at, match_literal, MatchError,
};

verus! {

/// A matcher failure, at the specification level.
pub ghost enum SemError {
    Expected(Seq<char>),
    UnexpectedEof,
    NotInClass,
    UnexpectedMatch,
}

/// What a matcher yields: the new position, a failure, or exhaustion of the
/// recursion allowance.
pub ghost enum SemOut {
    Match(int),
    Fail(SemError),
    Stop,
}

/// The specification-level failure an executable failure stands for.
pub open spec fn err_view(e: MatchError) -> SemError {
    match e {
        MatchError::Expected(lit) => SemError::Expected(lit@),
        MatchError::UnexpectedEof => SemError::UnexpectedEof,
        MatchError::NotInClass => SemError::NotInClass,
        MatchError::UnexpectedMatch => SemError::UnexpectedMatch,
    }
}

/// The matcher semantics of one expression, per the operator table. `fuel`
/// bounds rule invocations; a semantics that stops is one the allowance cut
/// short, never a parse outcome.
pub open spec fn sem(g: Grammar, e: CleanExpression, input: Seq<char>, pos: int, fuel: nat) -> SemOut
    decreases fuel, input.len() - pos, e, 1int,
{
    if !(0 <= pos <= input.len()) {
        SemOut::Stop
    } else {
        match e {
            CleanExpression::StrLiteral(lit) => if literal_matches_at(input, pos, lit@) {
                SemOut::Match(pos + lit@.len())
            } else {
                SemOut::Fail(SemError::Expected(lit@))
            },
            CleanExpression::AnySingleChar => if pos < input.len() {
                SemOut::Match(pos + 1)
            } else {
                SemOut::Fail(SemError::UnexpectedEof)
            },
            CleanExpression::NonTerminalSymbol(i) => if fuel == 0 || i >= g.rules@.len() {
                SemOut::Stop
            } else {
                sem(g, g.rules@[i as int].def, input, pos, (fuel - 1) as nat)
            },
            CleanExpression::Sequence(cs) => sem_seq(g, cs@, input, pos, fuel),
            CleanExpression::Choice(cs) => sem_choice(g, cs@, input, pos, fuel),
            CleanExpression::ZeroOrMore(c) => sem_star(g, *c, input, pos, fuel),
            CleanExpression::OneOrMore(c) => match sem(g, *c, input, pos, fuel) {
                SemOut::Match(np) => if pos <= np <= input.len() {
                    sem_star(g, *c, input, np, fuel)
                } else {
                    SemOut::Stop
                },
                SemOut::Fail(er) => SemOut::Fail(er),
                SemOut::Stop => SemOut::Stop,
            },
            CleanExpression::Optional(c) => match sem(g, *c, input, pos, fuel) {
                SemOut::Match(np) => SemOut::Match(np),
                SemOut::Fail(_) => SemOut::Match(pos),
                SemOut::Stop => SemOut::Stop,
            },
            CleanExpression::NotPredicate(c) => match sem(g, *c, input, pos, fuel) {
                SemOut::Match(_) => SemOut::Fail(SemError::UnexpectedMatch),
                SemOut::Fail(_) => SemOut::Match(pos),
                SemOut::Stop => SemOut::Stop,
            },
            CleanExpression::AndPredicate(c) => match sem(g, *c, input, pos, fuel) {
                SemOut::Match(_) => SemOut::Match(pos),
                SemOut::Fail(er) => SemOut::Fail(er),
                SemOut::Stop => SemOut::Stop,
            },
            CleanExpression::CharacterClass(cc) => if pos < input.len() && in_class(
                input[pos],
                cc.intervals@,
            ) {
                SemOut::Match(pos + 1)
            } else {
                SemOut::Fail(SemError::NotInClass)
            },
        }
    }
}

/// Sequence semantics: the position is threaded through the children; the
/// first failing child decides, with its own error.
pub open spec fn sem_seq(
    g: Grammar,
    cs: Seq<CleanExpression>,
    input: Seq<char>,
    pos: int,
    fuel: nat,
) -> SemOut
    decreases fuel, input.len() - pos, cs, 0int,
{
    if !(0 <= pos <= input.len()) {
        SemOut::Stop
    } else if cs.len() == 0 {
        SemOut::Match(pos)
    } else {
        match sem(g, cs[0], input, pos, fuel) {
            SemOut::Match(np) => if pos <= np <= input.len() {
                sem_seq(g, cs.drop_first(), input, np, fuel)
            } else {
                SemOut::Stop
            },
            SemOut::Fail(er) => SemOut::Fail(er),
            SemOut::Stop => SemOut::Stop,
        }
    }
}

/// Ordered-choice semantics: alternatives are tried strictly left to right,
/// each from the entry position; when all fail, the error is the last
/// child's.
pub open spec fn sem_choice(
    g: Grammar,
    cs: Seq<CleanExpression>,
    input: Seq<char>,
    pos: int,
    fuel: nat,
) -> SemOut
    decreases fuel, input.len() - pos, cs, 0int,
{
    if !(0 <= pos <= input.len()) {
        SemOut::Stop
    } else if cs.len() == 0 {
        SemOut::Stop
    } else {
        match sem(g, cs[0], input, pos, fuel) {
            SemOut::Match(np) => SemOut::Match(np),
            SemOut::Fail(er) => if cs.len() == 1 {
                SemOut::Fail(er)
            } else {
                sem_choice(g, cs.drop_first(), input, pos, fuel)
            },
            SemOut::Stop => SemOut::Stop,
        }
    }
}

/// Repetition semantics: iterate the child as long as it advances the
/// position; a failing or zero-width iteration ends the loop without error.
pub open spec fn sem_star(
    g: Grammar,
    e: CleanExpression,
    input: Seq<char>,
    pos: int,
    fuel: nat,
) -> SemOut
    decreases fuel, input.len() - pos, e, 2int,
{
    if !(0 <= pos <= input.len()) {
        SemOut::Stop
    } else {
        match sem(g, e, input, pos, fuel) {
            SemOut::Match(np) => if pos < np <= input.len() {
                sem_star(g, e, input, np, fuel)
            } else {
                SemOut::Match(pos)
            },
            SemOut::Fail(_) => SemOut::Match(pos),
            SemOut::Stop => SemOut::Stop,
        }
    }
}

/// What one evaluator outcome stands for.
pub enum EvalOutcome {
    Matched(usize),
    Failed(MatchError),
    OutOfFuel,
}

/// The specification-level outcome an evaluator outcome stands for.
pub open spec fn outcome_view(o: EvalOutcome) -> SemOut {
    match o {
        EvalOutcome::Matched(p) => SemOut::Match(p as int),
        EvalOutcome::Failed(e) => SemOut::Fail(err_view(e)),
        EvalOutcome::OutOfFuel => SemOut::Stop,
    }
}

/// The reference evaluator: computes exactly the matcher semantics of `e`.
pub fn eval(g: &Grammar, e: &CleanExpression, input: &Vec<char>, pos: usize, fuel: u64) -> (r:
    EvalOutcome)
    requires
        wf_grammar(*g),
        wf_expr(*e, g.rules@.len() as nat),
        pos <= input@.len(),
    ensures
        outcome_view(r) == sem(*g, *e, input@, pos as int, fuel as nat),
        r is Matched ==> pos <= r->Matched_0 <= input@.len(),
    decreases fuel, input@.len() - pos, *e, 1int,
{
    match e {
        CleanExpression::StrLiteral(lit) => {
            match match_literal(input, pos, lit, lit.len()) {
                Result::Ok(np) => EvalOutcome::Matched(np),
                Result::Err(er) => EvalOutcome::Failed(er),
            }
        },
        CleanExpression::AnySingleChar => {
            match any_single_char(input, pos) {
                Result::Ok(np) => EvalOutcome::Matched(np),
                Result::Err(er) => EvalOutcome::Failed(er),
            }
        },
        CleanExpression::NonTerminalSymbol(i) => {
            if fuel == 0 {
                EvalOutcome::OutOfFuel
            } else {
                eval(g, &g.rules[*i].def, input, pos, fuel - 1)
            }
        },
        CleanExpression::Sequence(cs) => {
            let mut k: usize = 0;
            let mut cur: usize = pos;
            let mut res: EvalOutcome = EvalOutcome::OutOfFuel;
            proof {
                assert(cs@.subrange(0, cs@.len() as int) =~= cs@);
            }
            loop
                invariant
                    wf_grammar(*g),
                    wf_expr(*e, g.rules@.len() as nat),
                    e is Sequence,
                    e->Sequence_0@ == cs@,
                    k <= cs@.len(),
                    pos <= cur <= input@.len(),
                    sem_seq(*g, cs@, input@, pos as int, fuel as nat) == sem_seq(
                        *g,
                        cs@.subrange(k as int, cs@.len() as int),
                        input@,
                        cur as int,
                        fuel as nat,
                    ),
                ensures
                    outcome_view(res) == sem_seq(*g, cs@, input@, pos as int, fuel as nat),
                    res is Matched ==> pos <= res->Matched_0 <= input@.len(),
                decreases cs@.len() - k,
            {
                if k == cs.len() {
                    proof {
                        assert(cs@.subrange(k as int, cs@.len() as int).len() == 0);
                    }
                    res = EvalOutcome::Matched(cur);
                    break ;
                }
                let ghost pre = cs@.subrange(k as int, cs@.len() as int);
                proof {
                    assert(pre[0] == cs@[k as int]);
                    assert(pre.drop_first() =~= cs@.subrange(k as int + 1, cs@.len() as int));
                    assert(cs@[k as int] == e->Sequence_0@[k as int]);
                    assert(wf_expr(e->Sequence_0@[k as int], g.rules@.len() as nat));
                    assert(decreases_to!(*e => e->Sequence_0));
                    assert(decreases_to!(e->Sequence_0 => e->Sequence_0@));
                    assert(decreases_to!(e->Sequence_0@ => e->Sequence_0@[k as int]));
                }
                let o = eval(g, &cs[k], input, cur, fuel);
                match o {
                    EvalOutcome::Matched(np) => {
                        cur = np;
                        k += 1;
                    },
                    EvalOutcome::Failed(er) => {
                        res = EvalOutcome::Failed(er);
                        break ;
                    },
                    EvalOutcome::OutOfFuel => {
                        res = EvalOutcome::OutOfFuel;
                        break ;
                    },
                }
            }
            proof {
                assert(outcome_view(res) == sem_seq(*g, cs@, input@, pos as int, fuel as nat));
                assert(sem(*g, *e, input@, pos as int, fuel as nat) == sem_seq(
                    *g,
                    cs@,
                    input@,
                    pos as int,
                    fuel as nat,
                ));
            }
            res
        },
        CleanExpression::Choice(cs) => {
            let mut k: usize = 0;
            let mut res: EvalOutcome = EvalOutcome::OutOfFuel;
            proof {
                assert(cs@.subrange(0, cs@.len() as int) =~= cs@);
            }
            loop
                invariant
                    wf_grammar(*g),
                    wf_expr(*e, g.rules@.len() as nat),
                    e is Choice,
                    e->Choice_0@ == cs@,
                    k < cs@.len(),
                    pos <= input@.len(),
                    sem_choice(*g, cs@, input@, pos as int, fuel as nat) == sem_choice(
                        *g,
                        cs@.subrange(k as int, cs@.len() as int),
                        input@,
                        pos as int,
                        fuel as nat,
                    ),
                ensures
                    outcome_view(res) == sem_choice(*g, cs@, input@, pos as int, fuel as nat),
                    res is Matched ==> pos <= res->Matched_0 <= input@.len(),
                decreases cs@.len() - k,
            {
                let ghost pre = cs@.subrange(k as int, cs@.len() as int);
                proof {
                    assert(pre[0] == cs@[k as int]);
                    assert(pre.drop_first() =~= cs@.subrange(k as int + 1, cs@.len() as int));
                    assert(cs@[k as int] == e->Choice_0@[k as int]);
                    assert(wf_expr(e->Choice_0@[k as int], g.rules@.len() as nat));
                    assert(decreases_to!(*e => e->Choice_0));
                    assert(decreases_to!(e->Choice_0 => e->Choice_0@));
                    assert(decreases_to!(e->Choice_0@ => e->Choice_0@[k as int]));
                }
                let o = eval(g, &cs[k], input, pos, fuel);
                match o {
                    EvalOutcome::Matched(np) => {
                        res = EvalOutcome::Matched(np);
                        break ;
                    },
                    EvalOutcome::Failed(er) => {
                        if k >= cs.len() - 1 {
                            res = EvalOutcome::Failed(er);
                            break ;
                        }
                        k += 1;
                    },
                    EvalOutcome::OutOfFuel => {
                        res = EvalOutcome::OutOfFuel;
                        break ;
                    },
                }
            }
            proof {
                assert(outcome_view(res) == sem_choice(*g, cs@, input@, pos as int, fuel as nat));
                assert(sem(*g, *e, input@, pos as int, fuel as nat) == sem_choice(
                    *g,
                    cs@,
                    input@,
                    pos as int,
                    fuel as nat,
                ));
            }
            res
        },
        CleanExpression::ZeroOrMore(c) => eval_star(g, c, input, pos, fuel),
        CleanExpression::OneOrMore(c) => {
            let o = eval(g, c, input, pos, fuel);
            match o {
                EvalOutcome::Matched(np) => eval_star(g, c, input, np, fuel),
                EvalOutcome::Failed(er) => EvalOutcome::Failed(er),
                EvalOutcome::OutOfFuel => EvalOutcome::OutOfFuel,
            }
        },
        CleanExpression::Optional(c) => {
            let o = eval(g, c, input, pos, fuel);
            match o {
                EvalOutcome::Matched(np) => EvalOutcome::Matched(np),
                EvalOutcome::Failed(_) => EvalOutcome::Matched(pos),
                EvalOutcome::OutOfFuel => EvalOutcome::OutOfFuel,
            }
        },
        CleanExpression::NotPredicate(c) => {
            let o = eval(g, c, input, pos, fuel);
            match o {
                EvalOutcome::Matched(_) => EvalOutcome::Failed(MatchError::UnexpectedMatch),
                EvalOutcome::Failed(_) => EvalOutcome::Matched(pos),
                EvalOutcome::OutOfFuel => EvalOutcome::OutOfFuel,
            }
        },
        CleanExpression::AndPredicate(c) => {
            let o = eval(g, c, input, pos, fuel);
            match o {
                EvalOutcome::Matched(_) => EvalOutcome::Matched(pos),
                EvalOutcome::Failed(er) => EvalOutcome::Failed(er),
                EvalOutcome::OutOfFuel => EvalOutcome::OutOfFuel,
            }
        },
        CleanExpression::CharacterClass(cc) => {
            if pos < input.len() && class_contains(&cc.intervals, input[pos]) {
                EvalOutcome::Matched(pos + 1)
            } else {
                EvalOutcome::Failed(MatchError::NotInClass)
            }
        },
    }
}

/// Iterates the child matcher as the repetition semantics prescribes.
fn eval_star(g: &Grammar, c: &CleanExpression, input: &Vec<char>, pos: usize, fuel: u64) -> (r:
    EvalOutcome)
    requires
        wf_grammar(*g),
        wf_expr(*c, g.rules@.len() as nat),
        pos <= input@.len(),
    ensures
        outcome_view(r) == sem_star(*g, *c, input@, pos as int, fuel as nat),
        r is Matched ==> pos <= r->Matched_0 <= input@.len(),
    decreases fuel, input@.len() - pos, *c, 2int,
{
    let mut cur: usize = pos;
    let mut res: EvalOutcome = EvalOutcome::OutOfFuel;
    loop
        invariant
            wf_grammar(*g),
            wf_expr(*c, g.rules@.len() as nat),
            pos <= cur <= input@.len(),
            sem_star(*g, *c, input@, pos as int, fuel as nat) == sem_star(
                *g,
                *c,
                input@,
                cur as int,
                fuel as nat,
            ),
        ensures
            outcome_view(res) == sem_star(*g, *c, input@, pos as int, fuel as nat),
            res is Matched ==> pos <= res->Matched_0 <= input@.len(),
        decreases input@.len() - cur,
    {
        let o = eval(g, c, input, cur, fuel);
        match o {
            EvalOutcome::Matched(np) => {
                if np <= cur {
                    res = EvalOutcome::Matched(cur);
                    break ;
                }
                cur = np;
            },
            EvalOutcome::Failed(_) => {
                res = EvalOutcome::Matched(cur);
                break ;
            },
            EvalOutcome::OutOfFuel => {
                res = EvalOutcome::OutOfFuel;
                break ;
            },
        }
    }
    res
}

/// Runs the grammar's start rule on the input from position zero and wraps
/// the outcome as the generated parser's entry point does: no tail on a
/// full-input match, the unconsumed tail on a partial match, the failure
/// otherwise. `None` means the recursion allowance ran out.
pub fn run_parser(g: &Grammar, input: &Vec<char>, fuel: u64) -> (r: Option<
    Result<Option<Vec<char>>, MatchError>,
>)
    requires
        wf_grammar(*g),
    ensures
        ({
            let o = sem(*g, g.rules@[g.start_rule_idx as int].def, input@, 0, fuel as nat);
            &&& (r is None <==> o is Stop)
            &&& (o is Match && o->Match_0 == input@.len() ==> r is Some && r->0 is Ok
                && r->0->Ok_0 is None)
            &&& (o is Match && o->Match_0 < input@.len() ==> r is Some && r->0 is Ok
                && r->0->Ok_0 is Some && r->0->Ok_0->0@ == input@.subrange(
                o->Match_0,
                input@.len() as int,
            ))
            &&& (o is Fail ==> r is Some && r->0 is Err && err_view(r->0->Err_0) == o->Fail_0)
        }),
{
    let start = g.start_rule_idx;
    let o = eval(g, &g.rules[start].def, input, 0, fuel);
    match o {
        EvalOutcome::Matched(p) => Option::Some(
            crate::runtime::make_result(input, Result::Ok(p)),
        ),
        EvalOutcome::Failed(er) => Option::Some(
            crate::runtime::make_result(input, Result::Err(er)),
        ),
        EvalOutcome::OutOfFuel => Option::None,
    }
}

/// Operator-table law, literal row: a literal matcher advances by the
/// literal's length exactly when the input starts with it here, and fails
/// with the expected-literal error otherwise.
pub proof fn lemma_str_literal_row(
    g: Grammar,
    e: CleanExpression,
    input: Seq<char>,
    pos: int,
    fuel: nat,
)
    requires
        0 <= pos <= input.len(),
        e is StrLiteral,
    ensures
        literal_matches_at(input, pos, e->StrLiteral_0@) ==> sem(g, e, input, pos, fuel)
            == SemOut::Match(pos + e->StrLiteral_0@.len()),
        !literal_matches_at(input, pos, e->StrLiteral_0@) ==> sem(g, e, input, pos, fuel)
            == SemOut::Fail(SemError::Expected(e->StrLiteral_0@)),
{
}

/// Operator-table law, any-char row: advances by one character, and fails
/// exactly at end of input.
pub proof fn lemma_any_single_char_row(
    g: Grammar,
    e: CleanExpression,
    input: Seq<char>,
    pos: int,
    fuel: nat,
)
    requires
        0 <= pos <= input.len(),
        e is AnySingleChar,
    ensures
        pos < input.len() ==> sem(g, e, input, pos, fuel) == SemOut::Match(pos + 1),
        pos == input.len() ==> sem(g, e, input, pos, fuel) == SemOut::Fail(
            SemError::UnexpectedEof,
        ),
{
}

/// Operator-table law, non-terminal row: a non-terminal delegates to the
/// rule it indexes and propagates that rule's outcome unchanged.
pub proof fn lemma_non_terminal_row(
    g: Grammar,
    e: CleanExpression,
    input: Seq<char>,
    pos: int,
    fuel: nat,
)
    requires
        0 <= pos <= input.len(),
        e is NonTerminalSymbol,
        e->NonTerminalSymbol_0 < g.rules@.len(),
        fuel > 0,
    ensures
        sem(g, e, input, pos, fuel) == sem(
            g,
            g.rules@[e->NonTerminalSymbol_0 as int].def,
            input,
            pos,
            (fuel - 1) as nat,
        ),
{
}

/// Operator-table law, sequence rows: the position threads through the
/// children; the first failing child decides, with its own error.
pub proof fn lemma_sequence_rows(
    g: Grammar,
    cs: Seq<CleanExpression>,
    input: Seq<char>,
    pos: int,
    fuel: nat,
)
    requires
        0 <= pos <= input.len(),
        cs.len() >= 1,
    ensures
        sem(g, cs[0], input, pos, fuel) is Fail ==> sem_seq(g, cs, input, pos, fuel) == sem(
            g,
            cs[0],
            input,
            pos,
            fuel,
        ),
        sem(g, cs[0], input, pos, fuel) matches SemOut::Match(np) ==> (pos <= np <= input.len()
            ==> sem_seq(g, cs, input, pos, fuel) == sem_seq(g, cs.drop_first(), input, np, fuel)),
{
}

/// Operator-table law, choice rows: alternatives are tried strictly left to
/// right, each from the entry position — a failed alternative leaks no
/// position into the next.
pub proof fn lemma_choice_rows(
    g: Grammar,
    cs: Seq<CleanExpression>,
    input: Seq<char>,
    pos: int,
    fuel: nat,
)
    requires
        0 <= pos <= input.len(),
        cs.len() >= 2,
    ensures
        sem(g, cs[0], input, pos, fuel) is Match ==> sem_choice(g, cs, input, pos, fuel) == sem(
            g,
            cs[0],
            input,
            pos,
            fuel,
        ),
        sem(g, cs[0], input, pos, fuel) is Fail ==> sem_choice(g, cs, input, pos, fuel)
            == sem_choice(g, cs.drop_first(), input, pos, fuel),
{
}

/// Operator-table law, choice failure row: when every alternative fails, the
/// choice's error is the last alternative's.
pub proof fn lemma_choice_last_error(
    g: Grammar,
    cs: Seq<CleanExpression>,
    input: Seq<char>,
    pos: int,
    fuel: nat,
)
    requires
        0 <= pos <= input.len(),
        cs.len() >= 1,
        forall|k: int| 0 <= k < cs.len() ==> (#[trigger] sem(g, cs[k], input, pos, fuel)) is Fail,
    ensures
        sem_choice(g, cs, input, pos, fuel) == sem(g, cs.last(), input, pos, fuel),
    decreases cs.len(),
{
    if cs.len() == 1 {
        assert(cs.last() == cs[0]);
        assert(sem_choice(g, cs, input, pos, fuel) == sem(g, cs[0], input, pos, fuel));
    } else {
        assert(forall|k: int|
            0 <= k < cs.drop_first().len() ==> #[trigger] cs.drop_first()[k] == cs[k + 1]);
        assert(forall|k: int|
            0 <= k < cs.drop_first().len() ==> (#[trigger] sem(
                g,
                cs.drop_first()[k],
                input,
                pos,
                fuel,
            )) is Fail);
        lemma_choice_last_error(g, cs.drop_first(), input, pos, fuel);
        assert(cs.drop_first().last() == cs.last());
        assert(sem(g, cs[0], input, pos, fuel) is Fail);
        assert(sem_choice(g, cs, input, pos, fuel) == sem_choice(
            g,
            cs.drop_first(),
            input,
            pos,
            fuel,
        ));
    }
}

/// Operator-table law, repetition rows: a failing iteration ends the loop
/// without error; an advancing iteration continues from its new position; a
/// zero-width iteration terminates the loop at the entry position.
pub proof fn lemma_star_rows(
    g: Grammar,
    c: CleanExpression,
    input: Seq<char>,
    pos: int,
    fuel: nat,
)
    requires
        0 <= pos <= input.len(),
    ensures
        sem(g, c, input, pos, fuel) is Fail ==> sem_star(g, c, input, pos, fuel) == SemOut::Match(
            pos,
        ),
        sem(g, c, input, pos, fuel) == SemOut::Match(pos) ==> sem_star(g, c, input, pos, fuel)
            == SemOut::Match(pos),
        sem(g, c, input, pos, fuel) matches SemOut::Match(np) ==> (pos < np <= input.len()
            ==> sem_star(g, c, input, pos, fuel) == sem_star(g, c, input, np, fuel)),
{
}

/// Repetition progress: on a zero-width child the repetition terminates at
/// once and returns the entry position. (That the evaluator's loop
/// terminates at all is part of its verification.)
pub proof fn lemma_repetition_progress(
    g: Grammar,
    e: CleanExpression,
    input: Seq<char>,
    pos: int,
    fuel: nat,
)
    requires
        0 <= pos <= input.len(),
        e is ZeroOrMore,
        sem(g, *e->ZeroOrMore_0, input, pos, fuel) == SemOut::Match(pos),
    ensures
        sem(g, e, input, pos, fuel) == SemOut::Match(pos),
{
    assert(sem(g, e, input, pos, fuel) == sem_star(g, *e->ZeroOrMore_0, input, pos, fuel));
    assert(sem_star(g, *e->ZeroOrMore_0, input, pos, fuel) == SemOut::Match(pos));
}

/// Operator-table law, one-or-more rows: at least one iteration is required
/// and its failure is the repetition's failure; afterwards it behaves as the
/// zero-or-more loop from the new position.
pub proof fn lemma_one_or_more_rows(
    g: Grammar,
    e: CleanExpression,
    input: Seq<char>,
    pos: int,
    fuel: nat,
)
    requires
        0 <= pos <= input.len(),
        e is OneOrMore,
    ensures
        sem(g, *e->OneOrMore_0, input, pos, fuel) is Fail ==> sem(g, e, input, pos, fuel) == sem(
            g,
            *e->OneOrMore_0,
            input,
            pos,
            fuel,
        ),
        sem(g, *e->OneOrMore_0, input, pos, fuel) matches SemOut::Match(np) ==> (pos <= np
            <= input.len() ==> sem(g, e, input, pos, fuel) == sem_star(
            g,
            *e->OneOrMore_0,
            input,
            np,
            fuel,
        )),
{
}

/// Operator-table law, option rows: the child's position on success, the
/// entry position on failure, never an error.
pub proof fn lemma_optional_rows(
    g: Grammar,
    e: CleanExpression,
    input: Seq<char>,
    pos: int,
    fuel: nat,
)
    requires
        0 <= pos <= input.len(),
        e is Optional,
    ensures
        sem(g, *e->Optional_0, input, pos, fuel) matches SemOut::Match(np) ==> sem(
            g,
            e,
            input,
            pos,
            fuel,
        ) == SemOut::Match(np),
        sem(g, *e->Optional_0, input, pos, fuel) is Fail ==> sem(g, e, input, pos, fuel)
            == SemOut::Match(pos),
{
}

/// Operator-table law, predicate rows: `!e` succeeds at the entry position
/// exactly when its child fails, and fails with the synthetic
/// unexpected-match error when its child succeeds; `&e` succeeds at the
/// entry position exactly when its child succeeds, and propagates its
/// child's error.
pub proof fn lemma_predicate_rows(
    g: Grammar,
    e: CleanExpression,
    input: Seq<char>,
    pos: int,
    fuel: nat,
)
    requires
        0 <= pos <= input.len(),
    ensures
        e is NotPredicate && sem(g, *e->NotPredicate_0, input, pos, fuel) is Match ==> sem(
            g,
            e,
            input,
            pos,
            fuel,
        ) == SemOut::Fail(SemError::UnexpectedMatch),
        e is NotPredicate && sem(g, *e->NotPredicate_0, input, pos, fuel) is Fail ==> sem(
            g,
            e,
            input,
            pos,
            fuel,
        ) == SemOut::Match(pos),
        e is AndPredicate && sem(g, *e->AndPredicate_0, input, pos, fuel) is Match ==> sem(
            g,
            e,
            input,
            pos,
            fuel,
        ) == SemOut::Match(pos),
        e is AndPredicate && sem(g, *e->AndPredicate_0, input, pos, fuel) is Fail ==> sem(
            g,
            e,
            input,
            pos,
            fuel,
        ) == SemOut::Fail(sem(g, *e->AndPredicate_0, input, pos, fuel)->Fail_0),
{
}

/// Predicate non-consumption: whatever the outcome, a predicate matcher that
/// succeeds leaves the position unchanged.
pub proof fn lemma_predicate_non_consumption(
    g: Grammar,
    e: CleanExpression,
    input: Seq<char>,
    pos: int,
    fuel: nat,
)
    requires
        0 <= pos <= input.len(),
        e is NotPredicate || e is AndPredicate,
        sem(g, e, input, pos, fuel) is Match,
    ensures
        sem(g, e, input, pos, fuel) == SemOut::Match(pos),
{
}

/// Operator-table law, character-class row: advances by one character when
/// the current character lies in the union of the intervals, and fails with
/// the class error otherwise.
pub proof fn lemma_character_class_row(
    g: Grammar,
    e: CleanExpression,
    input: Seq<char>,
    pos: int,
    fuel: nat,
)
    requires
        0 <= pos <= input.len(),
        e is CharacterClass,
    ensures
        pos < input.len() && in_class(input[pos], e->CharacterClass_0.intervals@) ==> sem(
            g,
            e,
            input,
            pos,
            fuel,
        ) == SemOut::Match(pos + 1),
        !(pos < input.len() && in_class(input[pos], e->CharacterClass_0.intervals@)) ==> sem(
            g,
            e,
            input,
            pos,
            fuel,
        ) == SemOut::Fail(SemError::NotInClass),
{
}

/// Ordered-choice determinism: the matcher semantics is a function of the
/// grammar, the input and the allowance alone, so any two evaluator outcomes
/// for the same arguments stand for the same result.
pub proof fn lemma_parser_deterministic(
    g: Grammar,
    e: CleanExpression,
    input: Seq<char>,
    pos: int,
    fuel: nat,
    r1: EvalOutcome,
    r2: EvalOutcome,
)
    requires
        outcome_view(r1) == sem(g, e, input, pos, fuel),
        outcome_view(r2) == sem(g, e, input, pos, fuel),
    ensures
        outcome_view(r1) == outcome_view(r2),
{
}

} // verus!
