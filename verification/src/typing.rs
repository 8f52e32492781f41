//! The type inferencer: derives, from each rule's expression, the algebraic
//! type of the value the rule would capture. Literals and predicates capture
//! nothing; classes capture a character; repetition, optionality, sequencing
//! and choice build vectors, options, tuples and sums.
use vstd::prelude::*;
use crate::clean_ast::{normalized, CleanExpression};
use crate::middle::{flatten_choice, flatten_seq, choice_folded, seq_folded};

verus! {

/// The capture type of a rule body, as the back-end declares it.
pub enum AstRuleType {
    Character,
    RuleTypePlaceholder(usize),
    Vector(Box<AstRuleType>),
    Tuple(Vec<AstRuleType>),
    OptionalTy(Box<AstRuleType>),
    Sum(Vec<AstRuleType>),
    SumBranch(Vec<AstRuleType>),
}

/// The capture type at the specification level. `Vector` and `OptionalTy`
/// carry exactly one element: the item type.
pub ghost enum TypeV {
    Character,
    Placeholder(int),
    Vector(Seq<TypeV>),
    Tuple(Seq<TypeV>),
    OptionalTy(Seq<TypeV>),
    Sum(Seq<TypeV>),
    SumBranch(Seq<TypeV>),
}

/// The components a type contributes to a choice branch: a tuple spreads its
/// components, any other type stands alone, no type contributes nothing.
pub open spec fn flatten_tuple_v(ot: Option<TypeV>) -> Seq<TypeV> {
    match ot {
        Option::None => Seq::empty(),
        Option::Some(TypeV::Tuple(s)) => s,
        Option::Some(t) => seq![t],
    }
}

/// Drops the non-capturing children's types.
pub open spec fn filter_somes(s: Seq<Option<TypeV>>) -> Seq<TypeV>
    decreases s.len(),
{
    if s.len() == 0 {
        Seq::empty()
    } else {
        (match s[0] {
            Option::Some(t) => seq![t],
            Option::None => Seq::empty(),
        }) + filter_somes(s.drop_first())
    }
}

/// One sum branch per child, each branch flattened.
pub open spec fn branches_of(s: Seq<Option<TypeV>>) -> Seq<TypeV>
    decreases s.len(),
{
    if s.len() == 0 {
        Seq::empty()
    } else {
        seq![TypeV::SumBranch(flatten_tuple_v(s[0]))] + branches_of(s.drop_first())
    }
}

/// The inferred capture type of an expression.
pub open spec fn spec_type_of(e: CleanExpression) -> Option<TypeV>
    decreases e, 0int,
{
    match e {
        CleanExpression::StrLiteral(_) => Option::None,
        CleanExpression::AnySingleChar => Option::None,
        CleanExpression::NotPredicate(_) => Option::None,
        CleanExpression::AndPredicate(_) => Option::None,
        CleanExpression::NonTerminalSymbol(i) => Option::Some(TypeV::Placeholder(i as int)),
        CleanExpression::CharacterClass(_) => Option::Some(TypeV::Character),
        CleanExpression::Sequence(cs) => {
            let ts = filter_somes(spec_types_of(cs@));
            if ts.len() == 0 {
                Option::None
            } else if ts.len() == 1 {
                Option::Some(ts[0])
            } else {
                Option::Some(TypeV::Tuple(ts))
            }
        },
        CleanExpression::Choice(cs) => Option::Some(TypeV::Sum(branches_of(spec_types_of(cs@)))),
        CleanExpression::ZeroOrMore(c) => match spec_type_of(*c) {
            Option::Some(t) => Option::Some(TypeV::Vector(seq![t])),
            Option::None => Option::None,
        },
        CleanExpression::OneOrMore(c) => match spec_type_of(*c) {
            Option::Some(t) => Option::Some(TypeV::Vector(seq![t])),
            Option::None => Option::None,
        },
        CleanExpression::Optional(c) => match spec_type_of(*c) {
            Option::Some(t) => Option::Some(TypeV::OptionalTy(seq![t])),
            Option::None => Option::None,
        },
    }
}

/// The children's capture types, in order.
pub open spec fn spec_types_of(cs: Seq<CleanExpression>) -> Seq<Option<TypeV>>
    decreases cs, 1int,
{
    if cs.len() == 0 {
        Seq::empty()
    } else {
        seq![spec_type_of(cs[0])] + spec_types_of(cs.drop_first())
    }
}

/// The executable type stands for the specification-level type.
pub open spec fn represents(t: AstRuleType, v: TypeV) -> bool
    decreases t,
{
    match t {
        AstRuleType::Character => v is Character,
        AstRuleType::RuleTypePlaceholder(i) => v == TypeV::Placeholder(i as int),
        AstRuleType::Vector(b) => v matches TypeV::Vector(s) && s.len() == 1 && represents(
            *b,
            s[0],
        ),
        AstRuleType::OptionalTy(b) => v matches TypeV::OptionalTy(s) && s.len() == 1 && represents(
            *b,
            s[0],
        ),
        AstRuleType::Tuple(ts) => v matches TypeV::Tuple(s) && s.len() == ts@.len() && forall|
            i: int,
        |
            0 <= i < s.len() ==> represents(#[trigger] ts@[i], s[i]),
        AstRuleType::Sum(ts) => v matches TypeV::Sum(s) && s.len() == ts@.len() && forall|i: int|
            0 <= i < s.len() ==> represents(#[trigger] ts@[i], s[i]),
        AstRuleType::SumBranch(ts) => v matches TypeV::SumBranch(s) && s.len() == ts@.len()
            && forall|i: int| 0 <= i < s.len() ==> represents(#[trigger] ts@[i], s[i]),
    }
}

/// The optional executable type stands for the optional type.
pub open spec fn represents_opt(t: Option<AstRuleType>, v: Option<TypeV>) -> bool {
    match (t, v) {
        (Option::None, Option::None) => true,
        (Option::Some(t0), Option::Some(v0)) => represents(t0, v0),
        _ => false,
    }
}

/// Infers the capture type of `e`, per the inference table.
pub fn type_of_expr(e: &CleanExpression) -> (r: Option<AstRuleType>)
    ensures
        represents_opt(r, spec_type_of(*e)),
    decreases *e, 0int,
{
    match e {
        CleanExpression::StrLiteral(_) => Option::None,
        CleanExpression::AnySingleChar => Option::None,
        CleanExpression::NotPredicate(_) => Option::None,
        CleanExpression::AndPredicate(_) => Option::None,
        CleanExpression::NonTerminalSymbol(i) => Option::Some(
            AstRuleType::RuleTypePlaceholder(*i),
        ),
        CleanExpression::CharacterClass(_) => Option::Some(AstRuleType::Character),
        CleanExpression::Sequence(cs) => type_of_seq_expr(cs),
        CleanExpression::Choice(cs) => type_of_choice_expr(cs),
        CleanExpression::ZeroOrMore(c) => {
            match type_of_expr(c) {
                Option::Some(t) => Option::Some(AstRuleType::Vector(Box::new(t))),
                Option::None => Option::None,
            }
        },
        CleanExpression::OneOrMore(c) => {
            match type_of_expr(c) {
                Option::Some(t) => Option::Some(AstRuleType::Vector(Box::new(t))),
                Option::None => Option::None,
            }
        },
        CleanExpression::Optional(c) => {
            match type_of_expr(c) {
                Option::Some(t) => Option::Some(AstRuleType::OptionalTy(Box::new(t))),
                Option::None => Option::None,
            }
        },
    }
}

/// The sequence rule: the non-capturing children are dropped; no capture if
/// none remains, the single type if one does, their tuple otherwise.
pub fn type_of_seq_expr(cs: &Vec<CleanExpression>) -> (r: Option<AstRuleType>)
    ensures
        ({
            let ts = filter_somes(spec_types_of(cs@));
            &&& ts.len() == 0 ==> r is None
            &&& ts.len() == 1 ==> r is Some && represents(r->0, ts[0])
            &&& ts.len() >= 2 ==> r is Some && represents(r->0, TypeV::Tuple(ts))
        }),
    decreases cs@, 1int,
{
    let mut tys: Vec<AstRuleType> = Vec::new();
    let ghost mut vs: Seq<TypeV> = Seq::empty();
    let mut i: usize = 0;
    proof {
        assert(cs@.subrange(0, cs@.len() as int) =~= cs@);
        assert(filter_somes(spec_types_of(cs@)) =~= vs + filter_somes(
            spec_types_of(cs@.subrange(i as int, cs@.len() as int)),
        ));
    }
    while i < cs.len()
        invariant
            i <= cs@.len(),
            tys@.len() == vs.len(),
            forall|j: int| 0 <= j < vs.len() ==> represents(#[trigger] tys@[j], vs[j]),
            filter_somes(spec_types_of(cs@)) == vs + filter_somes(
                spec_types_of(cs@.subrange(i as int, cs@.len() as int)),
            ),
        decreases cs@.len() - i,
    {
        let ghost pre = cs@.subrange(i as int, cs@.len() as int);
        proof {
            assert(pre[0] == cs@[i as int]);
            assert(pre.drop_first() =~= cs@.subrange(i as int + 1, cs@.len() as int));
            assert(decreases_to!(cs@ => cs@[i as int]));
        }
        match type_of_expr(&cs[i]) {
            Option::Some(t) => {
                proof {
                    vs = vs + seq![spec_type_of(cs@[i as int])->0];
                }
                tys.push(t);
            },
            Option::None => {},
        }
        i += 1;
        proof {
            let s = spec_types_of(pre);
            assert(s == seq![spec_type_of(pre[0])] + spec_types_of(pre.drop_first()));
            assert(s[0] == spec_type_of(cs@[i - 1]));
            assert(s.drop_first() =~= spec_types_of(cs@.subrange(i as int, cs@.len() as int)));
            assert(filter_somes(s) == (match s[0] {
                Option::Some(t) => seq![t],
                Option::None => Seq::<TypeV>::empty(),
            }) + filter_somes(s.drop_first()));
            assert(filter_somes(spec_types_of(cs@)) =~= vs + filter_somes(
                spec_types_of(cs@.subrange(i as int, cs@.len() as int)),
            ));
        }
    }
    proof {
        assert(spec_types_of(cs@.subrange(i as int, cs@.len() as int)) =~= Seq::<
            Option<TypeV>,
        >::empty());
        assert(filter_somes(Seq::<Option<TypeV>>::empty()) =~= Seq::<TypeV>::empty());
        assert(filter_somes(spec_types_of(cs@)) =~= vs);
    }
    if tys.len() == 0 {
        Option::None
    } else if tys.len() == 1 {
        let single = tys.remove(0);
        Option::Some(single)
    } else {
        Option::Some(AstRuleType::Tuple(tys))
    }
}

/// The choice rule: one sum branch per alternative, each branch flattened (a
/// tuple spreads its components into the branch).
pub fn type_of_choice_expr(cs: &Vec<CleanExpression>) -> (r: Option<AstRuleType>)
    ensures
        r is Some && represents(r->0, TypeV::Sum(branches_of(spec_types_of(cs@)))),
    decreases cs@, 1int,
{
    let mut branches: Vec<AstRuleType> = Vec::new();
    let ghost mut vs: Seq<TypeV> = Seq::empty();
    let mut i: usize = 0;
    proof {
        assert(cs@.subrange(0, cs@.len() as int) =~= cs@);
        assert(branches_of(spec_types_of(cs@)) =~= vs + branches_of(
            spec_types_of(cs@.subrange(i as int, cs@.len() as int)),
        ));
    }
    while i < cs.len()
        invariant
            i <= cs@.len(),
            branches@.len() == vs.len(),
            forall|j: int| 0 <= j < vs.len() ==> represents(#[trigger] branches@[j], vs[j]),
            branches_of(spec_types_of(cs@)) == vs + branches_of(
                spec_types_of(cs@.subrange(i as int, cs@.len() as int)),
            ),
        decreases cs@.len() - i,
    {
        let ghost pre = cs@.subrange(i as int, cs@.len() as int);
        proof {
            assert(pre[0] == cs@[i as int]);
            assert(pre.drop_first() =~= cs@.subrange(i as int + 1, cs@.len() as int));
            assert(decreases_to!(cs@ => cs@[i as int]));
        }
        let bvec: Vec<AstRuleType> = match type_of_expr(&cs[i]) {
            Option::None => Vec::new(),
            Option::Some(AstRuleType::Tuple(ts)) => ts,
            Option::Some(other) => {
                let mut v: Vec<AstRuleType> = Vec::new();
                v.push(other);
                v
            },
        };
        proof {
            vs = vs + seq![TypeV::SumBranch(flatten_tuple_v(spec_type_of(cs@[i as int])))];
        }
        let b = AstRuleType::SumBranch(bvec);
        branches.push(b);
        i += 1;
        proof {
            let s = spec_types_of(pre);
            assert(s == seq![spec_type_of(pre[0])] + spec_types_of(pre.drop_first()));
            assert(s[0] == spec_type_of(cs@[i - 1]));
            assert(s.drop_first() =~= spec_types_of(cs@.subrange(i as int, cs@.len() as int)));
            assert(branches_of(s) == seq![TypeV::SumBranch(flatten_tuple_v(s[0]))] + branches_of(
                s.drop_first(),
            ));
            assert(branches_of(spec_types_of(cs@)) =~= vs + branches_of(
                spec_types_of(cs@.subrange(i as int, cs@.len() as int)),
            ));
        }
    }
    proof {
        assert(spec_types_of(cs@.subrange(i as int, cs@.len() as int)) =~= Seq::<
            Option<TypeV>,
        >::empty());
        assert(branches_of(Seq::<Option<TypeV>>::empty()) =~= Seq::<TypeV>::empty());
        assert(branches_of(spec_types_of(cs@)) =~= vs);
    }
    Option::Some(AstRuleType::Sum(branches))
}

/// The specification-level type an executable type stands for.
pub open spec fn type_view(t: AstRuleType) -> TypeV
    decreases t, 0int,
{
    match t {
        AstRuleType::Character => TypeV::Character,
        AstRuleType::RuleTypePlaceholder(i) => TypeV::Placeholder(i as int),
        AstRuleType::Vector(b) => TypeV::Vector(seq![type_view(*b)]),
        AstRuleType::OptionalTy(b) => TypeV::OptionalTy(seq![type_view(*b)]),
        AstRuleType::Tuple(ts) => TypeV::Tuple(type_views(ts@)),
        AstRuleType::Sum(ts) => TypeV::Sum(type_views(ts@)),
        AstRuleType::SumBranch(ts) => TypeV::SumBranch(type_views(ts@)),
    }
}

/// The views of a member list, in order.
pub open spec fn type_views(ts: Seq<AstRuleType>) -> Seq<TypeV>
    decreases ts, 1int,
{
    if ts.len() == 0 {
        Seq::empty()
    } else {
        seq![type_view(ts[0])] + type_views(ts.drop_first())
    }
}

/// The view of one optional type.
pub open spec fn opt_view(t: Option<AstRuleType>) -> Option<TypeV> {
    match t {
        Option::Some(t0) => Option::Some(type_view(t0)),
        Option::None => Option::None,
    }
}

/// The views of a list of optional types, in order.
pub open spec fn opt_views(ts: Seq<Option<AstRuleType>>) -> Seq<Option<TypeV>>
    decreases ts.len(),
{
    if ts.len() == 0 {
        Seq::empty()
    } else {
        seq![opt_view(ts[0])] + opt_views(ts.drop_first())
    }
}

/// Indexing a viewed member list views the member.
pub proof fn lemma_type_views_index(ts: Seq<AstRuleType>, i: int)
    requires
        0 <= i < ts.len(),
    ensures
        type_views(ts).len() == ts.len(),
        type_views(ts)[i] == type_view(ts[i]),
    decreases ts.len(),
{
    if i > 0 {
        lemma_type_views_index(ts.drop_first(), i - 1);
    } else if ts.len() > 1 {
        lemma_type_views_index(ts.drop_first(), 0);
    }
    if ts.len() > 0 {
        lemma_type_views_len(ts.drop_first());
    }
}

/// A viewed member list keeps its length.
pub proof fn lemma_type_views_len(ts: Seq<AstRuleType>)
    ensures
        type_views(ts).len() == ts.len(),
    decreases ts.len(),
{
    if ts.len() > 0 {
        lemma_type_views_len(ts.drop_first());
    }
}

/// Indexing a viewed optional list views the element.
pub proof fn lemma_opt_views_index(ts: Seq<Option<AstRuleType>>, i: int)
    requires
        0 <= i < ts.len(),
    ensures
        opt_views(ts).len() == ts.len(),
        opt_views(ts)[i] == opt_view(ts[i]),
    decreases ts.len(),
{
    if i > 0 {
        lemma_opt_views_index(ts.drop_first(), i - 1);
    } else if ts.len() > 1 {
        lemma_opt_views_index(ts.drop_first(), 0);
    }
    if ts.len() > 0 {
        lemma_opt_views_len(ts.drop_first());
    }
}

/// A viewed optional list keeps its length.
pub proof fn lemma_opt_views_len(ts: Seq<Option<AstRuleType>>)
    ensures
        opt_views(ts).len() == ts.len(),
    decreases ts.len(),
{
    if ts.len() > 0 {
        lemma_opt_views_len(ts.drop_first());
    }
}

/// The relational statement and the view agree: a type stands exactly for
/// its view.
pub proof fn lemma_represents_view(t: AstRuleType, v: TypeV)
    requires
        represents(t, v),
    ensures
        v == type_view(t),
    decreases t,
{
    match t {
        AstRuleType::Vector(b) => {
            lemma_represents_view(*b, v->Vector_0[0]);
            assert(v->Vector_0 =~= seq![type_view(*b)]);
        },
        AstRuleType::OptionalTy(b) => {
            lemma_represents_view(*b, v->OptionalTy_0[0]);
            assert(v->OptionalTy_0 =~= seq![type_view(*b)]);
        },
        AstRuleType::Tuple(ts) => {
            assert forall|i: int| 0 <= i < ts@.len() implies v->Tuple_0[i] == type_view(
                #[trigger] ts@[i],
            ) by {
                lemma_represents_view(ts@[i], v->Tuple_0[i]);
            }
            assert forall|i: int| 0 <= i < ts@.len() implies #[trigger] type_views(ts@)[i]
                == type_view(ts@[i]) by {
                lemma_type_views_index(ts@, i);
            }
            lemma_type_views_len(ts@);
            assert(v->Tuple_0 =~= type_views(ts@));
        },
        AstRuleType::Sum(ts) => {
            assert forall|i: int| 0 <= i < ts@.len() implies v->Sum_0[i] == type_view(
                #[trigger] ts@[i],
            ) by {
                lemma_represents_view(ts@[i], v->Sum_0[i]);
            }
            assert forall|i: int| 0 <= i < ts@.len() implies #[trigger] type_views(ts@)[i]
                == type_view(ts@[i]) by {
                lemma_type_views_index(ts@, i);
            }
            lemma_type_views_len(ts@);
            assert(v->Sum_0 =~= type_views(ts@));
        },
        AstRuleType::SumBranch(ts) => {
            assert forall|i: int| 0 <= i < ts@.len() implies v->SumBranch_0[i] == type_view(
                #[trigger] ts@[i],
            ) by {
                lemma_represents_view(ts@[i], v->SumBranch_0[i]);
            }
            assert forall|i: int| 0 <= i < ts@.len() implies #[trigger] type_views(ts@)[i]
                == type_view(ts@[i]) by {
                lemma_type_views_index(ts@, i);
            }
            lemma_type_views_len(ts@);
            assert(v->SumBranch_0 =~= type_views(ts@));
        },
        _ => {},
    }
}

/// The resolution of one type, at the specification level: placeholders are
/// chased through the rules' types — an invisible or non-capturing rule
/// contributes nothing — and member lists are re-filtered as the sequence
/// rule prescribes. The depth allowance `fuel` runs out (`Err`) exactly on an
/// expansion that never reaches ground. A `Vector` or `OptionalTy` view
/// carries exactly one element; any other shape resolves to nothing.
pub open spec fn spec_resolve(
    v: TypeV,
    types: Seq<Option<TypeV>>,
    invisible: Seq<bool>,
    fuel: nat,
) -> Result<Option<TypeV>, ()>
    decreases fuel, v, 0int,
{
    match v {
        TypeV::Character => Result::Ok(Option::Some(TypeV::Character)),
        TypeV::Placeholder(i) => {
            if fuel == 0 {
                Result::Err(())
            } else if !(0 <= i < types.len()) || i >= invisible.len() {
                Result::Ok(Option::None)
            } else if invisible[i] {
                Result::Ok(Option::None)
            } else {
                match types[i] {
                    Option::Some(u) => spec_resolve(u, types, invisible, (fuel - 1) as nat),
                    Option::None => Result::Ok(Option::None),
                }
            }
        },
        TypeV::Vector(s) => {
            if s.len() != 1 {
                Result::Ok(Option::None)
            } else {
                match spec_resolve(s[0], types, invisible, fuel) {
                    Result::Ok(Option::Some(u)) => Result::Ok(
                        Option::Some(TypeV::Vector(seq![u])),
                    ),
                    Result::Ok(Option::None) => Result::Ok(Option::None),
                    Result::Err(e) => Result::Err(e),
                }
            }
        },
        TypeV::OptionalTy(s) => {
            if s.len() != 1 {
                Result::Ok(Option::None)
            } else {
                match spec_resolve(s[0], types, invisible, fuel) {
                    Result::Ok(Option::Some(u)) => Result::Ok(
                        Option::Some(TypeV::OptionalTy(seq![u])),
                    ),
                    Result::Ok(Option::None) => Result::Ok(Option::None),
                    Result::Err(e) => Result::Err(e),
                }
            }
        },
        TypeV::Tuple(s) => {
            match spec_resolve_list(s, types, invisible, fuel) {
                Result::Ok(us) => {
                    if us.len() == 0 {
                        Result::Ok(Option::None)
                    } else if us.len() == 1 {
                        Result::Ok(Option::Some(us[0]))
                    } else {
                        Result::Ok(Option::Some(TypeV::Tuple(us)))
                    }
                },
                Result::Err(e) => Result::Err(e),
            }
        },
        TypeV::Sum(s) => {
            match spec_resolve_list(s, types, invisible, fuel) {
                Result::Ok(us) => Result::Ok(Option::Some(TypeV::Sum(us))),
                Result::Err(e) => Result::Err(e),
            }
        },
        TypeV::SumBranch(s) => {
            match spec_resolve_list(s, types, invisible, fuel) {
                Result::Ok(us) => Result::Ok(Option::Some(TypeV::SumBranch(us))),
                Result::Err(e) => Result::Err(e),
            }
        },
    }
}

/// Resolves a member list in order, dropping the members that contribute
/// nothing; the first cycle decides.
pub open spec fn spec_resolve_list(
    vs: Seq<TypeV>,
    types: Seq<Option<TypeV>>,
    invisible: Seq<bool>,
    fuel: nat,
) -> Result<Seq<TypeV>, ()>
    decreases fuel, vs, 1int,
{
    if vs.len() == 0 {
        Result::Ok(Seq::empty())
    } else {
        match spec_resolve(vs[0], types, invisible, fuel) {
            Result::Err(e) => Result::Err(e),
            Result::Ok(Option::None) => spec_resolve_list(vs.drop_first(), types, invisible, fuel),
            Result::Ok(Option::Some(u)) => match spec_resolve_list(
                vs.drop_first(),
                types,
                invisible,
                fuel,
            ) {
                Result::Ok(us) => Result::Ok(seq![u] + us),
                Result::Err(e) => Result::Err(e),
            },
        }
    }
}

/// The specification-level result an executable resolution stands for.
pub open spec fn res_view(r: Result<Option<AstRuleType>, ()>) -> Result<Option<TypeV>, ()> {
    match r {
        Result::Ok(Option::Some(t)) => Result::Ok(Option::Some(type_view(t))),
        Result::Ok(Option::None) => Result::Ok(Option::None),
        Result::Err(_) => Result::Err(()),
    }
}

/// No placeholder remains anywhere in the type.
pub open spec fn placeholder_free(t: AstRuleType) -> bool
    decreases t,
{
    match t {
        AstRuleType::Character => true,
        AstRuleType::RuleTypePlaceholder(_) => false,
        AstRuleType::Vector(b) => placeholder_free(*b),
        AstRuleType::OptionalTy(b) => placeholder_free(*b),
        AstRuleType::Tuple(ts) => forall|i: int|
            0 <= i < ts@.len() ==> placeholder_free(#[trigger] ts@[i]),
        AstRuleType::Sum(ts) => forall|i: int|
            0 <= i < ts@.len() ==> placeholder_free(#[trigger] ts@[i]),
        AstRuleType::SumBranch(ts) => forall|i: int|
            0 <= i < ts@.len() ==> placeholder_free(#[trigger] ts@[i]),
    }
}

/// Resolves every placeholder of `t` against the rules' own inferred types.
/// A placeholder of an invisible rule, or of a rule that captures nothing,
/// contributes nothing (`Ok(None)`); a tuple re-filters its resolved
/// components as the sequence rule prescribes. `fuel` bounds the expansion
/// depth; its exhaustion (`Err`) marks an expansion that never reaches
/// ground — a cycle of placeholders.
pub fn resolve_type(
    t: &AstRuleType,
    types: &Vec<Option<AstRuleType>>,
    invisible: &Vec<bool>,
    fuel: u64,
) -> (r: Result<Option<AstRuleType>, ()>)
    ensures
        r matches Ok(Some(u)) ==> placeholder_free(u),
        res_view(r) == spec_resolve(type_view(*t), opt_views(types@), invisible@, fuel as nat),
    decreases fuel, *t,
{
    proof {
        lemma_opt_views_len(types@);
    }
    match t {
        AstRuleType::Character => Result::Ok(Option::Some(AstRuleType::Character)),
        AstRuleType::RuleTypePlaceholder(i) => {
            if fuel == 0 {
                return Result::Err(());
            }
            if *i >= types.len() || *i >= invisible.len() {
                return Result::Ok(Option::None);
            }
            proof {
                lemma_opt_views_index(types@, *i as int);
            }
            if invisible[*i] {
                return Result::Ok(Option::None);
            }
            match &types[*i] {
                Option::Some(u) => resolve_type(u, types, invisible, fuel - 1),
                Option::None => Result::Ok(Option::None),
            }
        },
        AstRuleType::Vector(b) => {
            match resolve_type(b, types, invisible, fuel) {
                Result::Ok(Option::Some(u)) => {
                    let out = AstRuleType::Vector(Box::new(u));
                    proof {
                        assert(type_view(out)->Vector_0 =~= seq![type_view(*out->Vector_0)]);
                    }
                    Result::Ok(Option::Some(out))
                },
                Result::Ok(Option::None) => Result::Ok(Option::None),
                Result::Err(e) => Result::Err(e),
            }
        },
        AstRuleType::OptionalTy(b) => {
            match resolve_type(b, types, invisible, fuel) {
                Result::Ok(Option::Some(u)) => {
                    let out = AstRuleType::OptionalTy(Box::new(u));
                    proof {
                        assert(type_view(out)->OptionalTy_0 =~= seq![type_view(*out->OptionalTy_0)]);
                    }
                    Result::Ok(Option::Some(out))
                },
                Result::Ok(Option::None) => Result::Ok(Option::None),
                Result::Err(e) => Result::Err(e),
            }
        },
        AstRuleType::Tuple(ts) => {
            match resolve_members(ts, types, invisible, fuel) {
                Result::Ok(mut us) => {
                    proof {
                        lemma_type_views_len(us@);
                    }
                    if us.len() == 0 {
                        Result::Ok(Option::None)
                    } else if us.len() == 1 {
                        let single = us.remove(0);
                        proof {
                            lemma_type_views_index(us@.push(single), 0);
                            assert(us@.push(single)[0] == single);
                        }
                        Result::Ok(Option::Some(single))
                    } else {
                        Result::Ok(Option::Some(AstRuleType::Tuple(us)))
                    }
                },
                Result::Err(e) => Result::Err(e),
            }
        },
        AstRuleType::Sum(ts) => {
            match resolve_branches(ts, types, invisible, fuel) {
                Result::Ok(us) => Result::Ok(Option::Some(AstRuleType::Sum(us))),
                Result::Err(e) => Result::Err(e),
            }
        },
        AstRuleType::SumBranch(ts) => {
            match resolve_members(ts, types, invisible, fuel) {
                Result::Ok(us) => Result::Ok(Option::Some(AstRuleType::SumBranch(us))),
                Result::Err(e) => Result::Err(e),
            }
        },
    }
}

/// Resolves a member list, dropping the members that contribute nothing.
fn resolve_members(
    ts: &Vec<AstRuleType>,
    types: &Vec<Option<AstRuleType>>,
    invisible: &Vec<bool>,
    fuel: u64,
) -> (r: Result<Vec<AstRuleType>, ()>)
    ensures
        r matches Ok(us) ==> forall|i: int|
            0 <= i < us@.len() ==> placeholder_free(#[trigger] us@[i]),
        ({
            let full = spec_resolve_list(type_views(ts@), opt_views(types@), invisible@, fuel as nat);
            &&& (r is Ok <==> full is Ok)
            &&& (r matches Ok(us) ==> full matches Ok(vs2) && type_views(us@) == vs2)
        }),
    decreases fuel, ts@, 1int,
{
    let ghost full = spec_resolve_list(type_views(ts@), opt_views(types@), invisible@, fuel as nat);
    let mut us: Vec<AstRuleType> = Vec::new();
    let ghost mut vs: Seq<TypeV> = Seq::empty();
    let mut i: usize = 0;
    proof {
        assert(ts@.subrange(0, ts@.len() as int) =~= ts@);
    }
    while i < ts.len()
        invariant
            i <= ts@.len(),
            us@.len() == vs.len(),
            forall|j: int| 0 <= j < us@.len() ==> placeholder_free(#[trigger] us@[j]),
            forall|j: int| 0 <= j < us@.len() ==> type_view(#[trigger] us@[j]) == vs[j],
            full == spec_resolve_list(type_views(ts@), opt_views(types@), invisible@, fuel as nat),
            ({
                let suffix = spec_resolve_list(
                    type_views(ts@.subrange(i as int, ts@.len() as int)),
                    opt_views(types@),
                    invisible@,
                    fuel as nat,
                );
                &&& (full is Ok <==> suffix is Ok)
                &&& (full matches Ok(vs2) ==> suffix matches Ok(rest) && vs2 == vs + rest)
            }),
        decreases ts@.len() - i,
    {
        let ghost pre = ts@.subrange(i as int, ts@.len() as int);
        proof {
            assert(pre[0] == ts@[i as int]);
            assert(pre.drop_first() =~= ts@.subrange(i as int + 1, ts@.len() as int));
            assert(type_views(pre) == seq![type_view(pre[0])] + type_views(pre.drop_first()));
            assert(type_views(pre)[0] == type_view(ts@[i as int]));
            assert(type_views(pre).drop_first() =~= type_views(pre.drop_first()));
            assert(decreases_to!(ts@ => ts@[i as int]));
        }
        match resolve_type(&ts[i], types, invisible, fuel) {
            Result::Ok(Option::Some(u)) => {
                proof {
                    vs = vs + seq![type_view(u)];
                }
                us.push(u);
                proof {
                    if full is Ok {
                        assert(full->Ok_0 =~= vs + spec_resolve_list(
                            type_views(ts@.subrange(i as int + 1, ts@.len() as int)),
                            opt_views(types@),
                            invisible@,
                            fuel as nat,
                        )->Ok_0);
                    }
                }
            },
            Result::Ok(Option::None) => {},
            Result::Err(e) => {
                return Result::Err(e);
            },
        }
        i += 1;
    }
    proof {
        assert(type_views(ts@.subrange(i as int, ts@.len() as int)) =~= Seq::<TypeV>::empty());
        lemma_type_views_len(us@);
        assert forall|j: int| 0 <= j < us@.len() implies #[trigger] type_views(us@)[j] == vs[j] by {
            lemma_type_views_index(us@, j);
        }
        if full is Ok {
            assert(full->Ok_0 =~= vs);
            assert(type_views(us@) =~= vs);
        }
    }
    Result::Ok(us)
}

/// Resolves every branch of a sum; branches are kept even when they carry
/// nothing.
fn resolve_branches(
    ts: &Vec<AstRuleType>,
    types: &Vec<Option<AstRuleType>>,
    invisible: &Vec<bool>,
    fuel: u64,
) -> (r: Result<Vec<AstRuleType>, ()>)
    ensures
        r matches Ok(us) ==> forall|i: int|
            0 <= i < us@.len() ==> placeholder_free(#[trigger] us@[i]),
        ({
            let full = spec_resolve_list(type_views(ts@), opt_views(types@), invisible@, fuel as nat);
            &&& (r is Ok <==> full is Ok)
            &&& (r matches Ok(us) ==> full matches Ok(vs2) && type_views(us@) == vs2)
        }),
    decreases fuel, ts@, 1int,
{
    let ghost full = spec_resolve_list(type_views(ts@), opt_views(types@), invisible@, fuel as nat);
    let mut us: Vec<AstRuleType> = Vec::new();
    let ghost mut vs: Seq<TypeV> = Seq::empty();
    let mut i: usize = 0;
    proof {
        assert(ts@.subrange(0, ts@.len() as int) =~= ts@);
    }
    while i < ts.len()
        invariant
            i <= ts@.len(),
            us@.len() == vs.len(),
            forall|j: int| 0 <= j < us@.len() ==> placeholder_free(#[trigger] us@[j]),
            forall|j: int| 0 <= j < us@.len() ==> type_view(#[trigger] us@[j]) == vs[j],
            full == spec_resolve_list(type_views(ts@), opt_views(types@), invisible@, fuel as nat),
            ({
                let suffix = spec_resolve_list(
                    type_views(ts@.subrange(i as int, ts@.len() as int)),
                    opt_views(types@),
                    invisible@,
                    fuel as nat,
                );
                &&& (full is Ok <==> suffix is Ok)
                &&& (full matches Ok(vs2) ==> suffix matches Ok(rest) && vs2 == vs + rest)
            }),
        decreases ts@.len() - i,
    {
        let ghost pre = ts@.subrange(i as int, ts@.len() as int);
        proof {
            assert(pre[0] == ts@[i as int]);
            assert(pre.drop_first() =~= ts@.subrange(i as int + 1, ts@.len() as int));
            assert(type_views(pre) == seq![type_view(pre[0])] + type_views(pre.drop_first()));
            assert(type_views(pre)[0] == type_view(ts@[i as int]));
            assert(type_views(pre).drop_first() =~= type_views(pre.drop_first()));
            assert(decreases_to!(ts@ => ts@[i as int]));
        }
        match resolve_type(&ts[i], types, invisible, fuel) {
            Result::Ok(Option::Some(u)) => {
                proof {
                    vs = vs + seq![type_view(u)];
                }
                us.push(u);
                proof {
                    if full is Ok {
                        assert(full->Ok_0 =~= vs + spec_resolve_list(
                            type_views(ts@.subrange(i as int + 1, ts@.len() as int)),
                            opt_views(types@),
                            invisible@,
                            fuel as nat,
                        )->Ok_0);
                    }
                }
            },
            Result::Ok(Option::None) => {},
            Result::Err(e) => {
                return Result::Err(e);
            },
        }
        i += 1;
    }
    proof {
        assert(type_views(ts@.subrange(i as int, ts@.len() as int)) =~= Seq::<TypeV>::empty());
        lemma_type_views_len(us@);
        assert forall|j: int| 0 <= j < us@.len() implies #[trigger] type_views(us@)[j] == vs[j] by {
            lemma_type_views_index(us@, j);
        }
        if full is Ok {
            assert(full->Ok_0 =~= vs);
            assert(type_views(us@) =~= vs);
        }
    }
    Result::Ok(us)
}

/// The rules' inferred capture types, as the resolver reads them.
pub open spec fn inferred_views(g: crate::clean_ast::Grammar) -> Seq<Option<TypeV>> {
    Seq::new(g.rules@.len(), |i: int| spec_type_of(g.rules@[i].def))
}

/// Which rules are marked invisible.
pub open spec fn invisible_flags(g: crate::clean_ast::Grammar) -> Seq<bool> {
    Seq::new(g.rules@.len(), |i: int| g.rules@[i].ty.style is Invisible)
}

/// The expansion allowance the resolver grants: one step more than there are
/// rules, so only a cyclic chain of placeholders can exhaust it.
pub open spec fn spec_fuel(g: crate::clean_ast::Grammar) -> nat {
    if g.rules@.len() < 1000000 {
        g.rules@.len() + 1
    } else {
        1000001
    }
}

/// What the resolver owes for one rule: nothing where the rule captures
/// nothing, and otherwise exactly the specification-level resolution of its
/// inferred type.
pub open spec fn rule_type_resolved(
    g: crate::clean_ast::Grammar,
    i: int,
    entry: Option<AstRuleType>,
) -> bool {
    match spec_type_of(g.rules@[i].def) {
        Option::None => entry is None,
        Option::Some(tv) => Result::<Option<TypeV>, ()>::Ok(opt_view(entry)) == spec_resolve(
            tv,
            inferred_views(g),
            invisible_flags(g),
            spec_fuel(g),
        ),
    }
}

/// The resolution of rule `i`'s inferred type runs out of allowance: its
/// expansion never reaches ground.
pub open spec fn rule_resolution_errs(g: crate::clean_ast::Grammar, i: int) -> bool {
    match spec_type_of(g.rules@[i].def) {
        Option::Some(tv) => spec_resolve(
            tv,
            inferred_views(g),
            invisible_flags(g),
            spec_fuel(g),
        ) is Err,
        Option::None => false,
    }
}

/// Infers and resolves the capture type of every rule: placeholders are
/// replaced by the types of the rules they name, invisible rules contribute
/// nothing, and a cycle of placeholders with no concrete carrier is reported
/// as an error.
pub fn resolve_rule_types(g: &crate::clean_ast::Grammar) -> (r: Result<
    Vec<Option<AstRuleType>>,
    (),
>)
    ensures
        r matches Ok(v) ==> v@.len() == g.rules@.len() && forall|i: int|
            0 <= i < v@.len() ==> ((#[trigger] v@[i]) matches Some(u) ==> placeholder_free(u)),
        r matches Ok(v) ==> forall|i: int|
            0 <= i < g.rules@.len() ==> rule_type_resolved(*g, i, #[trigger] v@[i]),
        r is Err ==> exists|i: int| 0 <= i < g.rules@.len() && rule_resolution_errs(*g, i),
{
    let mut types: Vec<Option<AstRuleType>> = Vec::new();
    let mut invisible: Vec<bool> = Vec::new();
    let mut i: usize = 0;
    while i < g.rules.len()
        invariant
            i <= g.rules@.len(),
            types@.len() == i,
            invisible@.len() == i,
            forall|j: int|
                0 <= j < i ==> opt_view(#[trigger] types@[j]) == spec_type_of(g.rules@[j].def),
            forall|j: int|
                0 <= j < i ==> invisible@[j] == ((#[trigger] g.rules@[j]).ty.style is Invisible),
        decreases g.rules@.len() - i,
    {
        let t0 = type_of_expr(&g.rules[i].def);
        proof {
            if t0 is Some && spec_type_of(g.rules@[i as int].def) is Some {
                lemma_represents_view(t0->0, spec_type_of(g.rules@[i as int].def)->0);
            }
        }
        types.push(t0);
        let inv = match g.rules[i].ty.style {
            crate::rule_type::RuleTypeStyle::Invisible(_) => true,
            crate::rule_type::RuleTypeStyle::Inline => false,
        };
        invisible.push(inv);
        i += 1;
    }
    proof {
        lemma_opt_views_len(types@);
        assert forall|j: int| 0 <= j < types@.len() implies #[trigger] opt_views(types@)[j]
            == opt_view(types@[j]) by {
            lemma_opt_views_index(types@, j);
        }
        assert(opt_views(types@) =~= inferred_views(*g));
        assert(invisible@ =~= invisible_flags(*g));
    }
    let fuel: u64 = if g.rules.len() < 1000000 {
        (g.rules.len() as u64) + 1
    } else {
        1000001
    };
    proof {
        assert(fuel as nat == spec_fuel(*g));
    }
    let mut resolved: Vec<Option<AstRuleType>> = Vec::new();
    let mut k: usize = 0;
    while k < g.rules.len()
        invariant
            k <= g.rules@.len(),
            types@.len() == g.rules@.len(),
            invisible@.len() == g.rules@.len(),
            opt_views(types@) == inferred_views(*g),
            invisible@ == invisible_flags(*g),
            fuel as nat == spec_fuel(*g),
            forall|j: int|
                0 <= j < g.rules@.len() ==> opt_view(#[trigger] types@[j]) == spec_type_of(
                    g.rules@[j].def,
                ),
            resolved@.len() == k,
            forall|j: int|
                0 <= j < resolved@.len() ==> ((#[trigger] resolved@[j]) matches Some(u)
                    ==> placeholder_free(u)),
            forall|j: int| 0 <= j < k ==> rule_type_resolved(*g, j, #[trigger] resolved@[j]),
        decreases g.rules@.len() - k,
    {
        let entry = match &types[k] {
            Option::Some(t) => {
                match resolve_type(t, &types, &invisible, fuel) {
                    Result::Ok(u) => {
                        proof {
                            assert(opt_view(types@[k as int]) == Option::Some(type_view(*t)));
                            assert(rule_type_resolved(*g, k as int, u));
                        }
                        u
                    },
                    Result::Err(e) => {
                        proof {
                            assert(opt_view(types@[k as int]) == Option::Some(type_view(*t)));
                            assert(rule_resolution_errs(*g, k as int));
                        }
                        return Result::Err(e);
                    },
                }
            },
            Option::None => {
                proof {
                    assert(rule_type_resolved(*g, k as int, Option::<AstRuleType>::None));
                }
                Option::None
            },
        };
        resolved.push(entry);
        k += 1;
    }
    Result::Ok(resolved)
}

/// On children that hold no nested sequence, folding changes nothing.
pub proof fn lemma_flatten_seq_identity(ds: Seq<CleanExpression>)
    requires
        forall|i: int| 0 <= i < ds.len() ==> !((#[trigger] ds[i]) is Sequence),
    ensures
        flatten_seq(ds) == ds,
    decreases ds.len(),
{
    if ds.len() == 0 {
        assert(flatten_seq(ds) =~= ds);
    } else {
        assert(forall|i: int|
            0 <= i < ds.drop_first().len() ==> #[trigger] ds.drop_first()[i] == ds[i + 1]);
        lemma_flatten_seq_identity(ds.drop_first());
        assert(flatten_seq(ds) =~= ds);
    }
}

/// On children that hold no nested choice, folding changes nothing.
pub proof fn lemma_flatten_choice_identity(ds: Seq<CleanExpression>)
    requires
        forall|i: int| 0 <= i < ds.len() ==> !((#[trigger] ds[i]) is Choice),
    ensures
        flatten_choice(ds) == ds,
    decreases ds.len(),
{
    if ds.len() == 0 {
        assert(flatten_choice(ds) =~= ds);
    } else {
        assert(forall|i: int|
            0 <= i < ds.drop_first().len() ==> #[trigger] ds.drop_first()[i] == ds[i + 1]);
        lemma_flatten_choice_identity(ds.drop_first());
        assert(flatten_choice(ds) =~= ds);
    }
}

/// Round-trip: on a normalized rule body — which is what semantic analysis
/// hands the back-end — re-folding its children (the normalization step)
/// yields a body with the same inferred capture type.
pub proof fn lemma_type_stable_under_normalization(e: CleanExpression, e2: CleanExpression)
    requires
        normalized(e),
        e matches CleanExpression::Sequence(cs) ==> seq_folded(cs@, e2),
        e matches CleanExpression::Choice(cs) ==> choice_folded(cs@, e2),
        !(e is Sequence) && !(e is Choice) ==> e2 == e,
    ensures
        spec_type_of(e2) == spec_type_of(e),
{
    match e {
        CleanExpression::Sequence(cs) => {
            lemma_flatten_seq_identity(cs@);
            assert(flatten_seq(cs@) == cs@);
            assert(cs@.len() >= 2);
            assert(e2 matches CleanExpression::Sequence(v) && v@ == cs@);
        },
        CleanExpression::Choice(cs) => {
            lemma_flatten_choice_identity(cs@);
            assert(flatten_choice(cs@) == cs@);
            assert(cs@.len() >= 2);
            assert(e2 matches CleanExpression::Choice(v) && v@ == cs@);
        },
        _ => {},
    }
}

} // verus!
