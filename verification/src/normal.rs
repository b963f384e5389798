//! Laws of generalization and normalization: what a scheme quantifies over,
//! and that normalizing a scheme a second time changes nothing.
use vstd::prelude::*;
use crate::context::ContextModel;
use crate::error::ErrorModel;
use crate::env::env_occurs;
use crate::sorting::{
    is_sorted, lemma_sorted_contains, lemma_sorted_distinct, lemma_sorted_is_sorted,
};
use crate::subst::{occurs, occurs_any, occurs_any_prop};
use crate::types::{all_frozen, props_frozen, with_frozen, Kind, Prop, SchemeModel, Ty};
use crate::util::{
    ascending, at_rest, fv_acc, fv_acc_all, fv_acc_props, fv_seq, generalize_spec, iota, norm_all,
    norm_props, norm_spec, normalize_once, normalized, not_in_env, position, settle, Outcome,
    MAX_ROUNDS,
};

verus! {

/// Whether no intersection type occurs in `t`.
pub open spec fn plain(t: Ty) -> bool
    decreases t,
{
    match t.kind {
        Kind::Var => true,
        Kind::Lam { params, ret, .. } => plain(*ret) && all_plain(params),
        Kind::Prim(_) => true,
        Kind::Lit(_) => true,
        Kind::Union(ts) => all_plain(ts),
        Kind::Intersection(_) => false,
        Kind::Object(ps) => props_plain(ps),
        Kind::Alias { args, .. } => match args {
            Some(ts) => all_plain(ts),
            None => true,
        },
        Kind::Tuple(ts) => all_plain(ts),
        Kind::Array(e) => plain(*e),
        Kind::Rest(e) => plain(*e),
        Kind::Member { obj, .. } => plain(*obj),
    }
}

/// Whether no intersection type occurs in one of `ts`.
pub open spec fn all_plain(ts: Seq<Ty>) -> bool
    decreases ts,
{
    forall|i: int| 0 <= i < ts.len() ==> plain(#[trigger] ts[i])
}

/// Whether no intersection type occurs in the type of one of `ps`.
pub open spec fn props_plain(ps: Seq<Prop>) -> bool
    decreases ps,
{
    forall|i: int| 0 <= i < ps.len() ==> plain((#[trigger] ps[i]).ty)
}

/// `t` with each variable that is among `keys` renumbered to its place
/// there.
pub open spec fn renamed(t: Ty, keys: Seq<int>) -> Ty
    decreases t,
{
    match t.kind {
        Kind::Var => match position(keys, t.id, keys.len()) {
            Some(i) => Ty { kind: Kind::Var, id: i, frozen: false },
            None => t,
        },
        Kind::Lam { params, ret, is_call } => Ty {
            kind: Kind::Lam {
                params: renamed_all(params, keys),
                ret: Box::new(renamed(*ret, keys)),
                is_call,
            },
            ..t
        },
        Kind::Prim(_) => t,
        Kind::Lit(_) => t,
        Kind::Union(ts) => Ty { kind: Kind::Union(renamed_all(ts, keys)), ..t },
        Kind::Intersection(ts) => Ty { kind: Kind::Intersection(renamed_all(ts, keys)), ..t },
        Kind::Object(ps) => Ty { kind: Kind::Object(renamed_props(ps, keys)), ..t },
        Kind::Alias { name, args } => match args {
            Some(ts) => Ty { kind: Kind::Alias { name, args: Some(renamed_all(ts, keys)) }, ..t },
            None => t,
        },
        Kind::Tuple(ts) => Ty { kind: Kind::Tuple(renamed_all(ts, keys)), ..t },
        Kind::Array(e) => Ty { kind: Kind::Array(Box::new(renamed(*e, keys))), ..t },
        Kind::Rest(e) => Ty { kind: Kind::Rest(Box::new(renamed(*e, keys))), ..t },
        Kind::Member { obj, prop } => Ty {
            kind: Kind::Member { obj: Box::new(renamed(*obj, keys)), prop },
            ..t
        },
    }
}

/// [`renamed`] on each type of a sequence.
pub open spec fn renamed_all(ts: Seq<Ty>, keys: Seq<int>) -> Seq<Ty>
    decreases ts,
{
    Seq::new(ts.len(), |i: int| if 0 <= i < ts.len() { renamed(ts[i], keys) } else { arbitrary() })
}

/// [`renamed`] on the type of each property of a sequence.
pub open spec fn renamed_props(ps: Seq<Prop>, keys: Seq<int>) -> Seq<Prop>
    decreases ps,
{
    Seq::new(
        ps.len(),
        |i: int|
            if 0 <= i < ps.len() {
                Prop { name: ps[i].name, optional: ps[i].optional, ty: renamed(ps[i].ty, keys) }
            } else {
                arbitrary()
            },
    )
}

/// Whether `a` is how `b` begins.
pub open spec fn is_prefix(a: Seq<int>, b: Seq<int>) -> bool {
    a.len() <= b.len() && forall|i: int| 0 <= i < a.len() ==> a[i] == b[i]
}

/// Where no intersection occurs, normalizing is renaming, and leaves the
/// context as it is.
pub proof fn lemma_norm_plain(ctx: ContextModel, t: Ty, keys: Seq<int>)
    requires
        plain(t),
    ensures
        norm_spec(ctx, t, keys) == (Outcome { ctx, res: Ok::<Ty, ErrorModel>(renamed(t, keys)) }),
    decreases t, 0nat,
{
    match t.kind {
        Kind::Lam { params, ret, .. } => {
            lemma_norm_all_plain(ctx, params, params.len(), keys);
            assert(renamed_all(params, keys).take(params.len() as int) =~= renamed_all(params, keys));
            lemma_norm_plain(ctx, *ret, keys);
        },
        Kind::Union(ts) => {
            lemma_norm_all_plain(ctx, ts, ts.len(), keys);
            assert(renamed_all(ts, keys).take(ts.len() as int) =~= renamed_all(ts, keys));
        },
        Kind::Object(ps) => {
            lemma_norm_props_plain(ctx, ps, ps.len(), keys);
            assert(renamed_props(ps, keys).take(ps.len() as int) =~= renamed_props(ps, keys));
        },
        Kind::Alias { args, .. } => {
            match args {
                Some(ts) => {
                    lemma_norm_all_plain(ctx, ts, ts.len(), keys);
                    assert(renamed_all(ts, keys).take(ts.len() as int) =~= renamed_all(ts, keys));
                },
                None => {},
            }
        },
        Kind::Tuple(ts) => {
            lemma_norm_all_plain(ctx, ts, ts.len(), keys);
            assert(renamed_all(ts, keys).take(ts.len() as int) =~= renamed_all(ts, keys));
        },
        Kind::Array(e) => {
            lemma_norm_plain(ctx, *e, keys);
        },
        Kind::Rest(e) => {
            lemma_norm_plain(ctx, *e, keys);
        },
        Kind::Member { obj, .. } => {
            lemma_norm_plain(ctx, *obj, keys);
        },
        _ => {},
    }
}

/// [`lemma_norm_plain`] for the first `n` of a sequence of types.
pub proof fn lemma_norm_all_plain(ctx: ContextModel, ts: Seq<Ty>, n: nat, keys: Seq<int>)
    requires
        all_plain(ts),
        n <= ts.len(),
    ensures
        norm_all(ctx, ts, n, keys) == (Outcome {
            ctx,
            res: Ok::<Seq<Ty>, ErrorModel>(renamed_all(ts, keys).take(n as int)),
        }),
    decreases ts, n,
{
    if n == 0 {
        assert(renamed_all(ts, keys).take(0) =~= Seq::empty());
    } else {
        lemma_norm_all_plain(ctx, ts, (n - 1) as nat, keys);
        lemma_norm_plain(ctx, ts[n - 1], keys);
        assert(renamed_all(ts, keys).take(n as int) =~= renamed_all(ts, keys).take(n - 1).push(
            renamed(ts[n - 1], keys),
        ));
    }
}

/// [`lemma_norm_plain`] for the first `n` of a sequence of properties.
pub proof fn lemma_norm_props_plain(ctx: ContextModel, ps: Seq<Prop>, n: nat, keys: Seq<int>)
    requires
        props_plain(ps),
        n <= ps.len(),
    ensures
        norm_props(ctx, ps, n, keys) == (Outcome {
            ctx,
            res: Ok::<Seq<Prop>, ErrorModel>(renamed_props(ps, keys).take(n as int)),
        }),
    decreases ps, n,
{
    if n == 0 {
        assert(renamed_props(ps, keys).take(0) =~= Seq::empty());
    } else {
        lemma_norm_props_plain(ctx, ps, (n - 1) as nat, keys);
        lemma_norm_plain(ctx, ps[n - 1].ty, keys);
        assert(renamed_props(ps, keys).take(n as int) =~= renamed_props(ps, keys).take(n - 1).push(
            Prop {
                name: ps[n - 1].name,
                optional: ps[n - 1].optional,
                ty: renamed(ps[n - 1].ty, keys),
            },
        ));
    }
}

/// Gathering the variables of a type adds to what was gathered before.
pub proof fn lemma_fv_extends(t: Ty, acc: Seq<int>)
    ensures
        is_prefix(acc, fv_acc(t, acc)),
    decreases t, 0nat,
{
    match t.kind {
        Kind::Lam { params, ret, .. } => {
            lemma_fv_all_extends(params, params.len(), acc);
            lemma_fv_extends(*ret, fv_acc_all(params, params.len(), acc));
        },
        Kind::Union(ts) => {
            lemma_fv_all_extends(ts, ts.len(), acc);
        },
        Kind::Intersection(ts) => {
            lemma_fv_all_extends(ts, ts.len(), acc);
        },
        Kind::Object(ps) => {
            lemma_fv_props_extends(ps, ps.len(), acc);
        },
        Kind::Alias { args, .. } => {
            match args {
                Some(ts) => {
                    lemma_fv_all_extends(ts, ts.len(), acc);
                },
                None => {},
            }
        },
        Kind::Tuple(ts) => {
            lemma_fv_all_extends(ts, ts.len(), acc);
        },
        Kind::Array(e) => {
            lemma_fv_extends(*e, acc);
        },
        Kind::Rest(e) => {
            lemma_fv_extends(*e, acc);
        },
        Kind::Member { obj, .. } => {
            lemma_fv_extends(*obj, acc);
        },
        _ => {},
    }
}

/// [`lemma_fv_extends`] for the first `n` of a sequence of types.
pub proof fn lemma_fv_all_extends(ts: Seq<Ty>, n: nat, acc: Seq<int>)
    requires
        n <= ts.len(),
    ensures
        is_prefix(acc, fv_acc_all(ts, n, acc)),
    decreases ts, n,
{
    if n > 0 {
        lemma_fv_all_extends(ts, (n - 1) as nat, acc);
        lemma_fv_extends(ts[n - 1], fv_acc_all(ts, (n - 1) as nat, acc));
    }
}

/// [`lemma_fv_extends`] for the first `n` of a sequence of properties.
pub proof fn lemma_fv_props_extends(ps: Seq<Prop>, n: nat, acc: Seq<int>)
    requires
        n <= ps.len(),
    ensures
        is_prefix(acc, fv_acc_props(ps, n, acc)),
    decreases ps, n,
{
    if n > 0 {
        lemma_fv_props_extends(ps, (n - 1) as nat, acc);
        lemma_fv_extends(ps[n - 1].ty, fv_acc_props(ps, (n - 1) as nat, acc));
    }
}

/// Gathering the variables of a type gathers none twice.
pub proof fn lemma_fv_distinct(t: Ty, acc: Seq<int>)
    requires
        acc.no_duplicates(),
    ensures
        fv_acc(t, acc).no_duplicates(),
    decreases t, 0nat,
{
    match t.kind {
        Kind::Lam { params, ret, .. } => {
            lemma_fv_all_distinct(params, params.len(), acc);
            lemma_fv_distinct(*ret, fv_acc_all(params, params.len(), acc));
        },
        Kind::Union(ts) => {
            lemma_fv_all_distinct(ts, ts.len(), acc);
        },
        Kind::Intersection(ts) => {
            lemma_fv_all_distinct(ts, ts.len(), acc);
        },
        Kind::Object(ps) => {
            lemma_fv_props_distinct(ps, ps.len(), acc);
        },
        Kind::Alias { args, .. } => {
            match args {
                Some(ts) => {
                    lemma_fv_all_distinct(ts, ts.len(), acc);
                },
                None => {},
            }
        },
        Kind::Tuple(ts) => {
            lemma_fv_all_distinct(ts, ts.len(), acc);
        },
        Kind::Array(e) => {
            lemma_fv_distinct(*e, acc);
        },
        Kind::Rest(e) => {
            lemma_fv_distinct(*e, acc);
        },
        Kind::Member { obj, .. } => {
            lemma_fv_distinct(*obj, acc);
        },
        _ => {},
    }
}

/// [`lemma_fv_distinct`] for the first `n` of a sequence of types.
pub proof fn lemma_fv_all_distinct(ts: Seq<Ty>, n: nat, acc: Seq<int>)
    requires
        n <= ts.len(),
        acc.no_duplicates(),
    ensures
        fv_acc_all(ts, n, acc).no_duplicates(),
    decreases ts, n,
{
    if n > 0 {
        lemma_fv_all_distinct(ts, (n - 1) as nat, acc);
        lemma_fv_distinct(ts[n - 1], fv_acc_all(ts, (n - 1) as nat, acc));
    }
}

/// [`lemma_fv_distinct`] for the first `n` of a sequence of properties.
pub proof fn lemma_fv_props_distinct(ps: Seq<Prop>, n: nat, acc: Seq<int>)
    requires
        n <= ps.len(),
        acc.no_duplicates(),
    ensures
        fv_acc_props(ps, n, acc).no_duplicates(),
    decreases ps, n,
{
    if n > 0 {
        lemma_fv_props_distinct(ps, (n - 1) as nat, acc);
        lemma_fv_distinct(ps[n - 1].ty, fv_acc_props(ps, (n - 1) as nat, acc));
    }
}

/// In a sequence without duplicates the place of an element is where it
/// stands.
pub proof fn lemma_position_at(keys: Seq<int>, i: int, n: nat)
    requires
        keys.no_duplicates(),
        0 <= i < keys.len(),
        n <= keys.len(),
    ensures
        position(keys, keys[i], n) == if i < n {
            Some(i)
        } else {
            None::<int>
        },
    decreases n,
{
    if n > 0 {
        lemma_position_at(keys, i, (n - 1) as nat);
    }
}

/// What renaming does to the variables gathered, and that renaming the
/// renamed changes nothing.
///
/// `keys` holds the variables to be gathered in the end, `a` of which are
/// gathered already.
pub proof fn lemma_renamed_fv(t: Ty, keys: Seq<int>, a: nat)
    requires
        keys.no_duplicates(),
        a <= keys.len(),
        is_prefix(fv_acc(t, keys.take(a as int)), keys),
    ensures
        fv_acc(renamed(t, keys), iota(a)) == iota(fv_acc(t, keys.take(a as int)).len()),
        renamed(renamed(t, keys), iota(keys.len())) == renamed(t, keys),
    decreases t, 0nat,
{
    let acc = keys.take(a as int);
    let k = keys.len();
    match t.kind {
        Kind::Var => {
            let all = fv_acc(t, acc);
            if acc.contains(t.id) {
                let i = choose|i: int| 0 <= i < acc.len() && acc[i] == t.id;
                assert(keys[i] == t.id);
                lemma_position_at(keys, i, k);
                assert(iota(a)[i] == i);
                assert(iota(a).contains(i));
                lemma_iota_position(k, i);
            } else {
                assert(all == acc.push(t.id));
                assert(all[a as int] == t.id);
                assert(keys[a as int] == t.id);
                lemma_position_at(keys, a as int, k);
                assert(!iota(a).contains(a as int));
                assert(iota(a).push(a as int) =~= iota(a + 1));
                lemma_iota_position(k, a as int);
            }
        },
        Kind::Lam { params, ret, .. } => {
            let mid = fv_acc_all(params, params.len(), acc);
            lemma_fv_extends(*ret, mid);
            lemma_fv_all_extends(params, params.len(), acc);
            assert(is_prefix(mid, keys));
            lemma_renamed_all_fv(params, params.len(), keys, a);
            assert(mid =~= keys.take(mid.len() as int));
            lemma_renamed_fv(*ret, keys, mid.len());
            assert(renamed_all(renamed_all(params, keys), iota(k)) =~= renamed_all(params, keys));
        },
        Kind::Union(ts) => {
            lemma_renamed_all_fv(ts, ts.len(), keys, a);
            assert(renamed_all(renamed_all(ts, keys), iota(k)) =~= renamed_all(ts, keys));
        },
        Kind::Intersection(ts) => {
            lemma_renamed_all_fv(ts, ts.len(), keys, a);
            assert(renamed_all(renamed_all(ts, keys), iota(k)) =~= renamed_all(ts, keys));
        },
        Kind::Object(ps) => {
            lemma_renamed_props_fv(ps, ps.len(), keys, a);
            assert(renamed_props(renamed_props(ps, keys), iota(k)) =~= renamed_props(ps, keys));
        },
        Kind::Alias { args, .. } => {
            match args {
                Some(ts) => {
                    lemma_renamed_all_fv(ts, ts.len(), keys, a);
                    assert(renamed_all(renamed_all(ts, keys), iota(k)) =~= renamed_all(ts, keys));
                },
                None => {
                    assert(acc =~= keys.take(a as int));
                    assert(iota(a).len() == a);
                },
            }
        },
        Kind::Tuple(ts) => {
            lemma_renamed_all_fv(ts, ts.len(), keys, a);
            assert(renamed_all(renamed_all(ts, keys), iota(k)) =~= renamed_all(ts, keys));
        },
        Kind::Array(e) => {
            lemma_renamed_fv(*e, keys, a);
        },
        Kind::Rest(e) => {
            lemma_renamed_fv(*e, keys, a);
        },
        Kind::Member { obj, .. } => {
            lemma_renamed_fv(*obj, keys, a);
        },
        _ => {
            assert(iota(a).len() == a);
        },
    }
}

/// The place of a number among the numbers from zero on is the number.
pub proof fn lemma_iota_position(k: nat, i: int)
    requires
        0 <= i < k,
    ensures
        position(iota(k), i, k) == Some(i),
{
    assert(iota(k)[i] == i);
    lemma_position_at(iota(k), i, k);
}

/// [`lemma_renamed_fv`] for the first `n` of a sequence of types.
pub proof fn lemma_renamed_all_fv(ts: Seq<Ty>, n: nat, keys: Seq<int>, a: nat)
    requires
        keys.no_duplicates(),
        a <= keys.len(),
        n <= ts.len(),
        is_prefix(fv_acc_all(ts, n, keys.take(a as int)), keys),
    ensures
        fv_acc_all(renamed_all(ts, keys), n, iota(a)) == iota(
            fv_acc_all(ts, n, keys.take(a as int)).len(),
        ),
        forall|i: int|
            0 <= i < n ==> renamed(renamed(#[trigger] ts[i], keys), iota(keys.len())) == renamed(
                ts[i],
                keys,
            ),
    decreases ts, n,
{
    let acc = keys.take(a as int);
    if n == 0 {
        assert(iota(a).len() == a);
    } else {
        let before = fv_acc_all(ts, (n - 1) as nat, acc);
        lemma_fv_extends(ts[n - 1], before);
        lemma_renamed_all_fv(ts, (n - 1) as nat, keys, a);
        assert(before =~= keys.take(before.len() as int));
        lemma_renamed_fv(ts[n - 1], keys, before.len());
    }
}

/// [`lemma_renamed_fv`] for the first `n` of a sequence of properties.
pub proof fn lemma_renamed_props_fv(ps: Seq<Prop>, n: nat, keys: Seq<int>, a: nat)
    requires
        keys.no_duplicates(),
        a <= keys.len(),
        n <= ps.len(),
        is_prefix(fv_acc_props(ps, n, keys.take(a as int)), keys),
    ensures
        fv_acc_props(renamed_props(ps, keys), n, iota(a)) == iota(
            fv_acc_props(ps, n, keys.take(a as int)).len(),
        ),
        forall|i: int|
            0 <= i < n ==> renamed(renamed((#[trigger] ps[i]).ty, keys), iota(keys.len()))
                == renamed(ps[i].ty, keys),
    decreases ps, n,
{
    let acc = keys.take(a as int);
    if n == 0 {
        assert(iota(a).len() == a);
    } else {
        let before = fv_acc_props(ps, (n - 1) as nat, acc);
        lemma_fv_extends(ps[n - 1].ty, before);
        lemma_renamed_props_fv(ps, (n - 1) as nat, keys, a);
        assert(before =~= keys.take(before.len() as int));
        lemma_renamed_fv(ps[n - 1].ty, keys, before.len());
    }
}

/// Renaming brings no intersection in.
pub proof fn lemma_renamed_plain(t: Ty, keys: Seq<int>)
    requires
        plain(t),
    ensures
        plain(renamed(t, keys)),
    decreases t,
{
    match t.kind {
        Kind::Lam { params, ret, .. } => {
            lemma_renamed_all_plain(params, keys);
            lemma_renamed_plain(*ret, keys);
        },
        Kind::Union(ts) => {
            lemma_renamed_all_plain(ts, keys);
        },
        Kind::Object(ps) => {
            assert(props_plain(ps));
            assert forall|i: int| 0 <= i < ps.len() implies plain(
                (#[trigger] renamed_props(ps, keys)[i]).ty,
            ) by {
                assert(plain(ps[i].ty));
                lemma_renamed_plain(ps[i].ty, keys);
            }
            assert(props_plain(renamed_props(ps, keys)));
        },
        Kind::Alias { args, .. } => {
            match args {
                Some(ts) => {
                    lemma_renamed_all_plain(ts, keys);
                },
                None => {},
            }
        },
        Kind::Tuple(ts) => {
            lemma_renamed_all_plain(ts, keys);
        },
        Kind::Array(e) => {
            lemma_renamed_plain(*e, keys);
        },
        Kind::Rest(e) => {
            lemma_renamed_plain(*e, keys);
        },
        Kind::Member { obj, .. } => {
            lemma_renamed_plain(*obj, keys);
        },
        _ => {},
    }
}

/// [`lemma_renamed_plain`] for a sequence of types.
pub proof fn lemma_renamed_all_plain(ts: Seq<Ty>, keys: Seq<int>)
    requires
        all_plain(ts),
    ensures
        all_plain(renamed_all(ts, keys)),
    decreases ts,
{
    assert forall|i: int| 0 <= i < ts.len() implies plain(#[trigger] renamed_all(ts, keys)[i]) by {
        assert(plain(ts[i]));
        lemma_renamed_plain(ts[i], keys);
    }
}

/// A scheme in whose type no intersection occurs is normalized by its first
/// round: to its type with the variables renumbered, quantified over all of
/// them.
pub proof fn lemma_normalize_plain(sc: SchemeModel, count: int)
    requires
        plain(sc.ty),
        fv_seq(sc.ty).len() <= i32::MAX,
    ensures
        normalized(sc, count) == Ok::<SchemeModel, ErrorModel>(
            SchemeModel {
                qualifiers: iota(fv_seq(sc.ty).len()),
                ty: renamed(sc.ty, fv_seq(sc.ty)),
            },
        ),
{
    let keys = fv_seq(sc.ty);
    let k = keys.len();
    let once = renamed(sc.ty, keys);
    let first = SchemeModel { qualifiers: iota(k), ty: once };
    lemma_fv_distinct(sc.ty, Seq::empty());
    assert(keys.take(0) =~= Seq::<int>::empty());
    lemma_renamed_fv(sc.ty, keys, 0);
    assert(iota(0) =~= Seq::<int>::empty());
    assert(fv_seq(once) == iota(k));
    assert(iota(k).len() == k);
    lemma_renamed_plain(sc.ty, keys);
    lemma_norm_plain(crate::util::blank_context(count), sc.ty, keys);
    lemma_norm_plain(crate::util::blank_context(count), once, iota(k));
    assert(normalize_once(sc, count) == Ok::<SchemeModel, ErrorModel>(first));
    assert(normalize_once(first, count) == Ok::<SchemeModel, ErrorModel>(first));
    assert(at_rest(first, count));
}

/// What settling gives is at rest.
pub proof fn lemma_settle_at_rest(cur: SchemeModel, count: int, rounds: nat)
    requires
        settle(cur, count, rounds) is Ok,
    ensures
        at_rest(settle(cur, count, rounds)->Ok_0, count),
    decreases rounds,
{
    if !at_rest(cur, count) && rounds > 0 {
        lemma_settle_at_rest(normalize_once(cur, count)->Ok_0, count, (rounds - 1) as nat);
    }
}

/// Normalization is idempotent: normalizing what a scheme is normalized to
/// gives it again.
pub proof fn lemma_normalize_idempotent(sc: SchemeModel, count: int)
    requires
        normalized(sc, count) is Ok,
    ensures
        normalized(normalized(sc, count)->Ok_0, count) == normalized(sc, count),
{
    lemma_settle_at_rest(normalize_once(sc, count)->Ok_0, count, MAX_ROUNDS as nat);
}

/// A normalized scheme quantifies over the numbers from zero up to the
/// number of its variables, which are the variables of its type in the
/// order of their first occurrence.
pub proof fn lemma_normalized_variables(sc: SchemeModel, count: int, v: int)
    requires
        normalized(sc, count) is Ok,
    ensures
        normalized(sc, count)->Ok_0.qualifiers == iota(normalized(sc, count)->Ok_0.qualifiers.len()),
        fv_seq(normalized(sc, count)->Ok_0.ty) == normalized(sc, count)->Ok_0.qualifiers,
        occurs(v, normalized(sc, count)->Ok_0.ty) <==> 0 <= v < normalized(
            sc,
            count,
        )->Ok_0.qualifiers.len(),
{
    let n = normalized(sc, count)->Ok_0;
    lemma_settle_at_rest(normalize_once(sc, count)->Ok_0, count, MAX_ROUNDS as nat);
    assert(at_rest(n, count));
    let k = fv_seq(n.ty).len();
    assert(n.qualifiers == iota(k));
    assert(iota(k).len() == k);
    lemma_fv_contains(n.ty, Seq::empty(), v);
    assert(!Seq::<int>::empty().contains(v));
    if 0 <= v < k {
        assert(iota(k)[v] == v);
    }
}

/// What pushing does to membership.
pub proof fn lemma_push_contains(xs: Seq<int>, x: int, v: int)
    ensures
        xs.push(x).contains(v) <==> (xs.contains(v) || v == x),
{
    let r = xs.push(x);
    if xs.contains(v) {
        let i = choose|i: int| 0 <= i < xs.len() && xs[i] == v;
        assert(r[i] == v);
    }
    if v == x {
        assert(r[xs.len() as int] == v);
    }
    if r.contains(v) {
        let i = choose|i: int| 0 <= i < r.len() && r[i] == v;
        if i < xs.len() {
            assert(xs[i] == v);
        }
    }
}

/// The variables gathered from a type are those that occur in it.
pub proof fn lemma_fv_contains(t: Ty, acc: Seq<int>, v: int)
    ensures
        fv_acc(t, acc).contains(v) <==> (acc.contains(v) || occurs(v, t)),
    decreases t, 0nat,
{
    match t.kind {
        Kind::Var => {
            lemma_push_contains(acc, t.id, v);
        },
        Kind::Lam { params, ret, .. } => {
            lemma_fv_all_contains(params, params.len(), acc, v);
            lemma_fv_contains(*ret, fv_acc_all(params, params.len(), acc), v);
        },
        Kind::Union(ts) => {
            lemma_fv_all_contains(ts, ts.len(), acc, v);
        },
        Kind::Intersection(ts) => {
            lemma_fv_all_contains(ts, ts.len(), acc, v);
        },
        Kind::Object(ps) => {
            lemma_fv_props_contains(ps, ps.len(), acc, v);
        },
        Kind::Alias { args, .. } => {
            match args {
                Some(ts) => {
                    lemma_fv_all_contains(ts, ts.len(), acc, v);
                },
                None => {},
            }
        },
        Kind::Tuple(ts) => {
            lemma_fv_all_contains(ts, ts.len(), acc, v);
        },
        Kind::Array(e) => {
            lemma_fv_contains(*e, acc, v);
        },
        Kind::Rest(e) => {
            lemma_fv_contains(*e, acc, v);
        },
        Kind::Member { obj, .. } => {
            lemma_fv_contains(*obj, acc, v);
        },
        _ => {},
    }
}

/// [`lemma_fv_contains`] for the first `n` of a sequence of types.
pub proof fn lemma_fv_all_contains(ts: Seq<Ty>, n: nat, acc: Seq<int>, v: int)
    requires
        n <= ts.len(),
    ensures
        fv_acc_all(ts, n, acc).contains(v) <==> (acc.contains(v) || occurs_any(v, ts.take(n as int))),
        n == ts.len() ==> (fv_acc_all(ts, n, acc).contains(v) <==> (acc.contains(v) || occurs_any(
            v,
            ts,
        ))),
    decreases ts, n,
{
    if n == 0 {
        assert(ts.take(0).len() == 0);
    } else {
        lemma_fv_all_contains(ts, (n - 1) as nat, acc, v);
        lemma_fv_contains(ts[n - 1], fv_acc_all(ts, (n - 1) as nat, acc), v);
        let now = ts.take(n as int);
        let before = ts.take(n - 1);
        if occurs_any(v, before) {
            let i = choose|i: int| 0 <= i < before.len() && occurs(v, #[trigger] before[i]);
            assert(now[i] == before[i]);
        }
        if occurs(v, ts[n - 1]) {
            assert(now[n - 1] == ts[n - 1]);
        }
        if occurs_any(v, now) {
            let i = choose|i: int| 0 <= i < now.len() && occurs(v, #[trigger] now[i]);
            if i < n - 1 {
                assert(before[i] == now[i]);
            }
        }
    }
    assert(n == ts.len() ==> ts.take(n as int) =~= ts);
}

/// [`lemma_fv_contains`] for the first `n` of a sequence of properties.
pub proof fn lemma_fv_props_contains(ps: Seq<Prop>, n: nat, acc: Seq<int>, v: int)
    requires
        n <= ps.len(),
    ensures
        fv_acc_props(ps, n, acc).contains(v) <==> (acc.contains(v) || occurs_any_prop(
            v,
            ps.take(n as int),
        )),
        n == ps.len() ==> (fv_acc_props(ps, n, acc).contains(v) <==> (acc.contains(v)
            || occurs_any_prop(v, ps))),
    decreases ps, n,
{
    if n == 0 {
        assert(ps.take(0).len() == 0);
    } else {
        lemma_fv_props_contains(ps, (n - 1) as nat, acc, v);
        lemma_fv_contains(ps[n - 1].ty, fv_acc_props(ps, (n - 1) as nat, acc), v);
        let now = ps.take(n as int);
        let before = ps.take(n - 1);
        if occurs_any_prop(v, before) {
            let i = choose|i: int| 0 <= i < before.len() && occurs(v, (#[trigger] before[i]).ty);
            assert(now[i] == before[i]);
        }
        if occurs(v, ps[n - 1].ty) {
            assert(now[n - 1] == ps[n - 1]);
        }
        if occurs_any_prop(v, now) {
            let i = choose|i: int| 0 <= i < now.len() && occurs(v, (#[trigger] now[i]).ty);
            if i < n - 1 {
                assert(before[i] == now[i]);
            }
        }
    }
    assert(n == ps.len() ==> ps.take(n as int) =~= ps);
}

/// What is kept of the first `n` ids: those that are not free in the
/// environment; and no duplicate comes in.
pub proof fn lemma_not_in_env(ids: Seq<int>, env: Map<Seq<char>, SchemeModel>, n: nat, v: int)
    requires
        n <= ids.len(),
    ensures
        not_in_env(ids, env, n).contains(v) <==> (ids.take(n as int).contains(v) && !env_occurs(
            v,
            env,
        )),
    decreases n,
{
    if n == 0 {
        assert(ids.take(0).len() == 0);
        assert(not_in_env(ids, env, 0).len() == 0);
    } else {
        lemma_not_in_env(ids, env, (n - 1) as nat, v);
        let before = not_in_env(ids, env, (n - 1) as nat);
        lemma_push_contains(before, ids[n - 1], v);
        assert(ids.take(n as int) =~= ids.take(n - 1).push(ids[n - 1]));
        lemma_push_contains(ids.take(n - 1), ids[n - 1], v);
    }
}

/// Keeping some of the ids of a sequence without duplicates brings none in.
pub proof fn lemma_not_in_env_distinct(ids: Seq<int>, env: Map<Seq<char>, SchemeModel>, n: nat)
    requires
        n <= ids.len(),
        ids.no_duplicates(),
    ensures
        not_in_env(ids, env, n).no_duplicates(),
    decreases n,
{
    if n > 0 {
        lemma_not_in_env_distinct(ids, env, (n - 1) as nat);
        let before = not_in_env(ids, env, (n - 1) as nat);
        lemma_not_in_env(ids, env, (n - 1) as nat, ids[n - 1]);
        let front = ids.take(n - 1);
        if front.contains(ids[n - 1]) {
            let i = choose|i: int| 0 <= i < front.len() && front[i] == ids[n - 1];
            assert(ids[i] == ids[n - 1]);
        }
        assert(!before.contains(ids[n - 1]));
        let r = before.push(ids[n - 1]);
        assert forall|i: int, j: int| 0 <= i < r.len() && 0 <= j < r.len() && i != j implies r[i]
            != r[j] by {
            if i < before.len() && j < before.len() {
            } else if i < before.len() {
                assert(before.contains(before[i]));
            } else {
                assert(before.contains(before[j]));
            }
        }
    }
}

/// In a sequence sorted in ascending order an earlier element is at most a
/// later one.
pub proof fn lemma_ascending_pairs(q: Seq<int>, i: int, j: int)
    requires
        is_sorted(q, ascending()),
        0 <= i <= j < q.len(),
    ensures
        q[i] <= q[j],
    decreases j - i,
{
    if i < j {
        lemma_ascending_pairs(q, i, j - 1);
        assert(ascending()(q[j - 1], q[j - 1 + 1]));
    }
}

/// A scheme made by generalization quantifies over exactly the variables
/// of its type that are not free in the environment.
pub proof fn lemma_generalize_qualifiers(env: Map<Seq<char>, SchemeModel>, ty: Ty, v: int)
    ensures
        generalize_spec(env, ty).qualifiers.contains(v) <==> (occurs(v, ty) && !env_occurs(v, env)),
        generalize_spec(env, ty).ty == ty,
{
    let free = fv_seq(ty);
    let kept = not_in_env(free, env, free.len());
    lemma_fv_contains(ty, Seq::empty(), v);
    assert(!Seq::<int>::empty().contains(v));
    lemma_not_in_env(free, env, free.len(), v);
    assert(free.take(free.len() as int) =~= free);
    lemma_kept_len(free, env, free.len());
    lemma_sorted_contains(kept, kept.len(), ascending(), v);
    assert(kept.take(kept.len() as int) =~= kept);
}

/// No more ids are kept than there are.
pub proof fn lemma_kept_len(ids: Seq<int>, env: Map<Seq<char>, SchemeModel>, n: nat)
    ensures
        not_in_env(ids, env, n).len() <= n,
    decreases n,
{
    if n > 0 {
        lemma_kept_len(ids, env, (n - 1) as nat);
    }
}

/// A scheme made by generalization lists the variables that it quantifies
/// over in ascending order, each once.
pub proof fn lemma_generalize_ascending(env: Map<Seq<char>, SchemeModel>, ty: Ty, i: int, j: int)
    requires
        0 <= i < j < generalize_spec(env, ty).qualifiers.len(),
    ensures
        generalize_spec(env, ty).qualifiers[i] < generalize_spec(env, ty).qualifiers[j],
{
    let free = fv_seq(ty);
    let kept = not_in_env(free, env, free.len());
    let q = generalize_spec(env, ty).qualifiers;
    lemma_fv_distinct(ty, Seq::empty());
    lemma_not_in_env_distinct(free, env, free.len());
    lemma_sorted_distinct(kept, kept.len(), ascending());
    assert(crate::sorting::total(ascending()));
    lemma_sorted_is_sorted(kept, kept.len(), ascending());
    lemma_ascending_pairs(q, i, j);
}

/// Freezing a type changes nothing about the variables that occur in it.
pub proof fn lemma_occurs_frozen(v: int, t: Ty, frozen: bool)
    ensures
        occurs(v, with_frozen(t, frozen)) == occurs(v, t),
    decreases t,
{
    match t.kind {
        Kind::Lam { params, ret, .. } => {
            lemma_occurs_any_frozen(v, params);
            lemma_occurs_frozen(v, *ret, true);
        },
        Kind::Union(ts) => {
            lemma_occurs_any_frozen(v, ts);
        },
        Kind::Intersection(ts) => {
            lemma_occurs_any_frozen(v, ts);
        },
        Kind::Object(ps) => {
            let fs = props_frozen(ps);
            assert forall|i: int| 0 <= i < ps.len() implies occurs(v, (#[trigger] fs[i]).ty) == occurs(
                v,
                ps[i].ty,
            ) by {
                lemma_occurs_frozen(v, ps[i].ty, true);
            }
            if occurs_any_prop(v, ps) {
                let i = choose|i: int| 0 <= i < ps.len() && occurs(v, (#[trigger] ps[i]).ty);
                assert(occurs(v, fs[i].ty));
            }
            if occurs_any_prop(v, fs) {
                let i = choose|i: int| 0 <= i < fs.len() && occurs(v, (#[trigger] fs[i]).ty);
                assert(occurs(v, ps[i].ty));
            }
        },
        Kind::Alias { args, .. } => {
            match args {
                Some(ts) => {
                    lemma_occurs_any_frozen(v, ts);
                },
                None => {},
            }
        },
        Kind::Tuple(ts) => {
            lemma_occurs_any_frozen(v, ts);
        },
        Kind::Array(e) => {
            lemma_occurs_frozen(v, *e, true);
        },
        Kind::Rest(e) => {
            lemma_occurs_frozen(v, *e, true);
        },
        Kind::Member { obj, .. } => {
            lemma_occurs_frozen(v, *obj, true);
        },
        _ => {},
    }
}

/// [`lemma_occurs_frozen`] for a sequence of types.
pub proof fn lemma_occurs_any_frozen(v: int, ts: Seq<Ty>)
    ensures
        occurs_any(v, all_frozen(ts)) == occurs_any(v, ts),
    decreases ts,
{
    let fs = all_frozen(ts);
    assert forall|i: int| 0 <= i < ts.len() implies occurs(v, #[trigger] fs[i]) == occurs(
        v,
        ts[i],
    ) by {
        lemma_occurs_frozen(v, ts[i], true);
    }
    if occurs_any(v, ts) {
        let i = choose|i: int| 0 <= i < ts.len() && occurs(v, #[trigger] ts[i]);
        assert(occurs(v, fs[i]));
    }
    if occurs_any(v, fs) {
        let i = choose|i: int| 0 <= i < fs.len() && occurs(v, #[trigger] fs[i]);
        assert(occurs(v, ts[i]));
    }
}

} // verus!
