//! Simplification of unions and intersections, generalization and
//! normalization of schemes.
use vstd::prelude::*;
use crate::context::{fresh_type, moved_on, scope_kept, Context, ContextModel};
use crate::error::{result_model, ErrorModel, InferError};
use crate::sorting::{
    is_sorted, lemma_insert_at, lemma_sorted_is_sorted, sorted, sorted_prefix, total,
};
use crate::env::{env_occurs, Env};
use crate::subst::{apply, apply_type, Subst};
use crate::intersection::{simplify_intersection, simplify_spec};
use crate::types::{
    copy_type, ids_model, no_props, no_types, prop_models, push_prop, push_type, same, same_type,
    type_models, AliasType, Kind, LamType, MemberType, Primitive, Prop, Scheme, SchemeModel, TProp,
    Ty, Type, Variant,
};
use crate::unify::MAX_DEPTH;

verus! {

/// The order of types by their ids.
pub open spec fn by_id() -> spec_fn(Ty, Ty) -> bool {
    |a: Ty, b: Ty| a.id <= b.id
}

/// The members of a union, with the members of the unions among them in
/// their place, at every depth; a type that is no union is its own one
/// member.
pub open spec fn flatten(t: Ty) -> Seq<Ty>
    decreases t, 0nat,
{
    match t.kind {
        Kind::Union(ts) => flatten_all(ts, ts.len()),
        _ => seq![t],
    }
}

/// [`flatten`] of the first `n` of `ts`, one after the other.
pub open spec fn flatten_all(ts: Seq<Ty>, n: nat) -> Seq<Ty>
    decreases ts, n,
{
    if n == 0 || n > ts.len() {
        Seq::empty()
    } else {
        flatten_all(ts, (n - 1) as nat) + flatten(ts[n - 1])
    }
}

/// Whether a type equal to `t` is among `xs`.
pub open spec fn contains_same(xs: Seq<Ty>, t: Ty) -> bool {
    exists|i: int| 0 <= i < xs.len() && same(#[trigger] xs[i], t)
}

/// The first `n` of `ts` without those that equal an earlier one.
pub open spec fn dedup(ts: Seq<Ty>, n: nat) -> Seq<Ty>
    decreases n,
{
    if n == 0 {
        Seq::empty()
    } else {
        let before = dedup(ts, (n - 1) as nat);
        if contains_same(before, ts[n - 1]) {
            before
        } else {
            before.push(ts[n - 1])
        }
    }
}

/// Whether the primitive `p` is among `ts`.
pub open spec fn has_prim(ts: Seq<Ty>, p: Primitive) -> bool {
    exists|i: int| 0 <= i < ts.len() && (#[trigger] ts[i]).kind == Kind::Prim(p)
}

/// Whether `t` stays a member of a union whose candidates are `all`: a
/// literal does not when the primitive of its kind is a candidate.
pub open spec fn stays_in_union(t: Ty, all: Seq<Ty>) -> bool {
    match t.kind {
        Kind::Lit(l) => !has_prim(all, l.kind()),
        _ => true,
    }
}

/// The rank of a type in a union before sorting: primitives, then literals,
/// then the rest.
pub open spec fn union_rank(t: Ty) -> int {
    match t.kind {
        Kind::Prim(_) => 0,
        Kind::Lit(_) => 1,
        _ => 2,
    }
}

/// Those of the first `n` of `ts` that have the rank `rank` and stay in a
/// union whose candidates are `ts`.
pub open spec fn pick_rank(ts: Seq<Ty>, rank: int, n: nat) -> Seq<Ty>
    decreases n,
{
    if n == 0 {
        Seq::empty()
    } else {
        let before = pick_rank(ts, rank, (n - 1) as nat);
        if union_rank(ts[n - 1]) == rank && stays_in_union(ts[n - 1], ts) {
            before.push(ts[n - 1])
        } else {
            before
        }
    }
}

/// The members of the union of `t1` and `t2`: the members of both, each
/// once, without the literals that a primitive among them covers, sorted by
/// id.
pub open spec fn union_members(t1: Ty, t2: Ty) -> Seq<Ty> {
    let all = flatten(t1) + flatten(t2);
    let d = dedup(all, all.len());
    sorted(pick_rank(d, 0, d.len()) + pick_rank(d, 1, d.len()) + pick_rank(d, 2, d.len()), by_id())
}

/// The union of `t1` and `t2`, and the context after it: the one member
/// itself where only one is left, else a union type with a fresh id.
pub open spec fn union_spec(ctx: ContextModel, t1: Ty, t2: Ty) -> (
    ContextModel,
    Result<Ty, ErrorModel>,
) {
    let members = union_members(t1, t2);
    if members.len() == 1 {
        (ctx, Ok(members[0]))
    } else if !ctx.has_room(1) {
        (ctx, Err(ErrorModel::OutOfIds))
    } else {
        (ctx.advance(1), Ok(fresh_type(Kind::Union(members), ctx.count + 1)))
    }
}

/// The members of a union come in the order of their ids.
pub proof fn lemma_union_members_sorted(t1: Ty, t2: Ty)
    ensures
        is_sorted(union_members(t1, t2), by_id()),
{
    let all = flatten(t1) + flatten(t2);
    let d = dedup(all, all.len());
    let picked = pick_rank(d, 0, d.len()) + pick_rank(d, 1, d.len()) + pick_rank(d, 2, d.len());
    assert(total(by_id()));
    lemma_sorted_is_sorted(picked, picked.len(), by_id());
}

/// The candidates of a union once equal ones are dropped: each is a
/// candidate, and every candidate equals one of them.
pub proof fn lemma_dedup(ts: Seq<Ty>, n: nat)
    requires
        n <= ts.len(),
    ensures
        forall|m: Ty| dedup(ts, n).contains(m) ==> ts.take(n as int).contains(m),
        forall|i: int| 0 <= i < n ==> contains_same(dedup(ts, n), #[trigger] ts[i]),
    decreases n,
{
    if n == 0 {
        assert(dedup(ts, 0).len() == 0);
    } else {
        lemma_dedup(ts, (n - 1) as nat);
        let before = dedup(ts, (n - 1) as nat);
        let now = dedup(ts, n);
        let x = ts[n - 1];
        assert(ts.take(n as int)[n - 1] == x);
        assert forall|m: Ty| now.contains(m) implies ts.take(n as int).contains(m) by {
            let i = choose|i: int| 0 <= i < now.len() && now[i] == m;
            if i < before.len() {
                assert(before[i] == m);
                assert(before.contains(m));
                let front = ts.take(n - 1);
                let j = choose|j: int| 0 <= j < front.len() && front[j] == m;
                assert(ts.take(n as int)[j] == m);
            }
        }
        assert forall|i: int| 0 <= i < n implies contains_same(now, #[trigger] ts[i]) by {
            if i < n - 1 {
                let j = choose|j: int| 0 <= j < before.len() && same(#[trigger] before[j], ts[i]);
                assert(now[j] == before[j]);
            } else if contains_same(before, x) {
            } else {
                assert(same(now[before.len() as int], x));
            }
        }
    }
}

/// What is picked of the first `n` candidates: those of the rank that stay.
pub proof fn lemma_pick_rank(ts: Seq<Ty>, rank: int, n: nat, m: Ty)
    requires
        n <= ts.len(),
    ensures
        pick_rank(ts, rank, n).contains(m) <==> (ts.take(n as int).contains(m) && union_rank(m)
            == rank && stays_in_union(m, ts)),
    decreases n,
{
    if n == 0 {
        assert(pick_rank(ts, rank, 0).len() == 0);
        assert(ts.take(0).len() == 0);
    } else {
        lemma_pick_rank(ts, rank, (n - 1) as nat, m);
        let before = pick_rank(ts, rank, (n - 1) as nat);
        let now = pick_rank(ts, rank, n);
        let x = ts[n - 1];
        let front = ts.take(n - 1);
        let upto = ts.take(n as int);
        assert(upto[n - 1] == x);
        if front.contains(m) {
            let j = choose|j: int| 0 <= j < front.len() && front[j] == m;
            assert(upto[j] == m);
        }
        if upto.contains(m) {
            let j = choose|j: int| 0 <= j < upto.len() && upto[j] == m;
            if j < n - 1 {
                assert(front[j] == m);
            }
        }
        if before.contains(m) {
            let j = choose|j: int| 0 <= j < before.len() && before[j] == m;
            assert(now[j] == m);
        }
        if now.contains(m) {
            let j = choose|j: int| 0 <= j < now.len() && now[j] == m;
            if j < before.len() {
                assert(before[j] == m);
            }
        }
        if union_rank(x) == rank && stays_in_union(x, ts) {
            assert(now[before.len() as int] == x);
        }
    }
}

/// The members of a union are the candidates that stay, once equal ones are
/// dropped: each member is one of the members of `t1` and `t2`, and each of
/// those that no primitive covers equals a member.
pub proof fn lemma_union_membership(t1: Ty, t2: Ty, m: Ty)
    ensures
        union_members(t1, t2).contains(m) ==> (flatten(t1) + flatten(t2)).contains(m),
        union_members(t1, t2).contains(m) <==> (dedup(
            flatten(t1) + flatten(t2),
            (flatten(t1) + flatten(t2)).len(),
        ).contains(m) && stays_in_union(
            m,
            dedup(flatten(t1) + flatten(t2), (flatten(t1) + flatten(t2)).len()),
        )),
        (flatten(t1) + flatten(t2)).contains(m) ==> contains_same(
            dedup(flatten(t1) + flatten(t2), (flatten(t1) + flatten(t2)).len()),
            m,
        ),
{
    let all = flatten(t1) + flatten(t2);
    let d = dedup(all, all.len());
    let a = pick_rank(d, 0, d.len());
    let b = pick_rank(d, 1, d.len());
    let c = pick_rank(d, 2, d.len());
    let picked = a + b + c;
    lemma_dedup(all, all.len());
    assert(all.take(all.len() as int) =~= all);
    assert(d.take(d.len() as int) =~= d);
    lemma_pick_rank(d, 0, d.len(), m);
    lemma_pick_rank(d, 1, d.len(), m);
    lemma_pick_rank(d, 2, d.len(), m);
    crate::sorting::lemma_sorted_contains(picked, picked.len(), by_id(), m);
    assert(picked.take(picked.len() as int) =~= picked);
    if a.contains(m) {
        let j = choose|j: int| 0 <= j < a.len() && a[j] == m;
        assert(picked[j] == m);
    }
    if b.contains(m) {
        let j = choose|j: int| 0 <= j < b.len() && b[j] == m;
        assert(picked[a.len() + j] == m);
    }
    if c.contains(m) {
        let j = choose|j: int| 0 <= j < c.len() && c[j] == m;
        assert(picked[a.len() + b.len() + j] == m);
    }
    if picked.contains(m) {
        let j = choose|j: int| 0 <= j < picked.len() && picked[j] == m;
        if j < a.len() {
            assert(a[j] == m);
        } else if j < a.len() + b.len() {
            assert(b[j - a.len()] == m);
        } else {
            assert(c[j - a.len() - b.len()] == m);
        }
    }
    if all.contains(m) {
        let i = choose|i: int| 0 <= i < all.len() && all[i] == m;
        assert(contains_same(d, all[i]));
    }
}

fn flatten_into(t: &Type, out: &mut Vec<Type>)
    ensures
        type_models(*final(out)) == type_models(*old(out)) + flatten(t@),
    decreases t, 0nat,
{
    match &t.variant {
        Variant::Union(ts) => {
            assert(type_models(*ts).len() == ts.len());
            flatten_all_into(ts, out);
        },
        _ => {
            push_type(out, copy_type(t));
            assert(type_models(*out) =~= type_models(*old(out)) + flatten(t@));
        },
    }
}

fn flatten_all_into(ts: &Vec<Type>, out: &mut Vec<Type>)
    ensures
        type_models(*final(out)) == type_models(*old(out)) + flatten_all(
            type_models(*ts),
            ts.len() as nat,
        ),
    decreases ts, 1nat,
{
    let mut i: usize = 0;
    assert(type_models(*out) =~= type_models(*old(out)) + flatten_all(type_models(*ts), 0));
    while i < ts.len()
        invariant
            i <= ts.len(),
            type_models(*ts).len() == ts.len(),
            type_models(*out) == type_models(*old(out)) + flatten_all(type_models(*ts), i as nat),
        decreases ts.len() - i,
    {
        flatten_into(&ts[i], out);
        assert(type_models(*out) =~= type_models(*old(out)) + flatten_all(
            type_models(*ts),
            (i + 1) as nat,
        ));
        i += 1;
    }
}

/// Whether a type equal to `t` is among `xs`.
pub fn contains_same_type(xs: &Vec<Type>, t: &Type) -> (r: bool)
    ensures
        r == contains_same(type_models(*xs), t@),
{
    let mut i: usize = 0;
    while i < xs.len()
        invariant
            i <= xs.len(),
            forall|j: int| 0 <= j < i ==> !same(#[trigger] type_models(*xs)[j], t@),
        decreases xs.len() - i,
    {
        if same_type(&xs[i], t) {
            assert(same(type_models(*xs)[i as int], t@));
            return true;
        }
        i += 1;
    }
    false
}

fn dedup_types(ts: &Vec<Type>) -> (r: Vec<Type>)
    ensures
        type_models(r) == dedup(type_models(*ts), ts.len() as nat),
{
    let mut out = no_types();
    let mut i: usize = 0;
    while i < ts.len()
        invariant
            i <= ts.len(),
            type_models(out) == dedup(type_models(*ts), i as nat),
        decreases ts.len() - i,
    {
        if !contains_same_type(&out, &ts[i]) {
            push_type(&mut out, copy_type(&ts[i]));
        }
        i += 1;
    }
    out
}

fn has_prim_type(ts: &Vec<Type>, p: Primitive) -> (r: bool)
    ensures
        r == has_prim(type_models(*ts), p),
{
    let mut i: usize = 0;
    while i < ts.len()
        invariant
            i <= ts.len(),
            forall|j: int| 0 <= j < i ==> (#[trigger] type_models(*ts)[j]).kind != Kind::Prim(p),
        decreases ts.len() - i,
    {
        let found = match &ts[i].variant {
            Variant::Prim(q) => *q == p,
            _ => false,
        };
        if found {
            assert(type_models(*ts)[i as int].kind == Kind::Prim(p));
            return true;
        }
        i += 1;
    }
    false
}

fn pick_rank_into(ts: &Vec<Type>, rank: u8, out: &mut Vec<Type>)
    ensures
        type_models(*final(out)) == type_models(*old(out)) + pick_rank(
            type_models(*ts),
            rank as int,
            ts.len() as nat,
        ),
{
    let mut i: usize = 0;
    assert(type_models(*out) =~= type_models(*old(out)) + pick_rank(type_models(*ts), rank as int, 0));
    while i < ts.len()
        invariant
            i <= ts.len(),
            type_models(*out) == type_models(*old(out)) + pick_rank(
                type_models(*ts),
                rank as int,
                i as nat,
            ),
        decreases ts.len() - i,
    {
        let t = &ts[i];
        assert(type_models(*ts)[i as int] == t@);
        let (r, stays) = match &t.variant {
            Variant::Prim(_) => (0u8, true),
            Variant::Lit(l) => (1u8, !has_prim_type(ts, l.kind())),
            _ => (2u8, true),
        };
        if r == rank && stays {
            push_type(out, copy_type(t));
        }
        assert(type_models(*out) =~= type_models(*old(out)) + pick_rank(
            type_models(*ts),
            rank as int,
            (i + 1) as nat,
        ));
        i += 1;
    }
}

/// The types of `ts` sorted by id; types of the same id keep their order.
pub fn sort_by_id(ts: &Vec<Type>) -> (r: Vec<Type>)
    ensures
        type_models(r) == sorted(type_models(*ts), by_id()),
{
    let mut out = no_types();
    let mut i: usize = 0;
    assert(type_models(*ts).len() == ts.len());
    while i < ts.len()
        invariant
            i <= ts.len(),
            out.len() == i,
            type_models(out) == sorted_prefix(type_models(*ts), i as nat, by_id()),
        decreases ts.len() - i,
    {
        let t = copy_type(&ts[i]);
        let mut p: usize = out.len();
        while p > 0 && out[p - 1].id > t.id
            invariant
                p <= out.len(),
                forall|j: int| p <= j < out.len() ==> !by_id()(#[trigger] type_models(out)[j], t@),
            decreases p,
        {
            p -= 1;
        }
        proof {
            if p > 0 {
                assert(by_id()(type_models(out)[p - 1], t@));
            }
            lemma_insert_at(type_models(out), t@, by_id(), p as int);
        }
        let ghost before = out;
        out.insert(p, t);
        assert(type_models(out) =~= type_models(before).insert(p as int, t@));
        i += 1;
    }
    out
}

/// The union of `t1` and `t2`: the members of both, unions among them
/// flattened, each once, without the literals that a primitive among them
/// covers, sorted by id. Where one member is left the result is that member.
pub fn union_types(t1: &Type, t2: &Type, ctx: &mut Context) -> (r: Result<Type, InferError>)
    ensures
        moved_on(old(ctx)@, final(ctx)@),
        scope_kept(old(ctx)@, final(ctx)@),
        final(ctx)@ == union_spec(old(ctx)@, t1@, t2@).0,
        result_model(r) == union_spec(old(ctx)@, t1@, t2@).1,
{
    let mut all = no_types();
    flatten_into(t1, &mut all);
    flatten_into(t2, &mut all);
    assert(type_models(all) =~= flatten(t1@) + flatten(t2@));
    assert(type_models(all).len() == all.len());
    let d = dedup_types(&all);
    assert(type_models(d).len() == d.len());
    let mut picked = no_types();
    pick_rank_into(&d, 0, &mut picked);
    pick_rank_into(&d, 1, &mut picked);
    pick_rank_into(&d, 2, &mut picked);
    assert(type_models(picked) =~= pick_rank(type_models(d), 0, d.len() as nat) + pick_rank(
        type_models(d),
        1,
        d.len() as nat,
    ) + pick_rank(type_models(d), 2, d.len() as nat));
    let mut members = sort_by_id(&picked);
    assert(type_models(members) == union_members(t1@, t2@));
    assert(type_models(members).len() == members.len());
    if members.len() == 1 {
        let ghost all_members = type_models(members);
        let only = members.pop().unwrap();
        assert(only@ == all_members[0]);
        Ok(only)
    } else if !ctx.has_room(1) {
        Err(InferError::OutOfIds)
    } else {
        Ok(ctx.union(members))
    }
}

/// `acc` followed by the variables of `t` that are not in it, each once, in
/// the order in which they first occur.
pub open spec fn fv_acc(t: Ty, acc: Seq<int>) -> Seq<int>
    decreases t, 0nat,
{
    match t.kind {
        Kind::Var => if acc.contains(t.id) {
            acc
        } else {
            acc.push(t.id)
        },
        Kind::Lam { params, ret, .. } => fv_acc(*ret, fv_acc_all(params, params.len(), acc)),
        Kind::Prim(_) => acc,
        Kind::Lit(_) => acc,
        Kind::Union(ts) => fv_acc_all(ts, ts.len(), acc),
        Kind::Intersection(ts) => fv_acc_all(ts, ts.len(), acc),
        Kind::Object(ps) => fv_acc_props(ps, ps.len(), acc),
        Kind::Alias { args, .. } => match args {
            Some(ts) => fv_acc_all(ts, ts.len(), acc),
            None => acc,
        },
        Kind::Tuple(ts) => fv_acc_all(ts, ts.len(), acc),
        Kind::Array(e) => fv_acc(*e, acc),
        Kind::Rest(e) => fv_acc(*e, acc),
        Kind::Member { obj, .. } => fv_acc(*obj, acc),
    }
}

/// [`fv_acc`] over the first `n` of `ts`, from the left.
pub open spec fn fv_acc_all(ts: Seq<Ty>, n: nat, acc: Seq<int>) -> Seq<int>
    decreases ts, n,
{
    if n == 0 || n > ts.len() {
        acc
    } else {
        fv_acc(ts[n - 1], fv_acc_all(ts, (n - 1) as nat, acc))
    }
}

/// [`fv_acc`] over the types of the first `n` of `ps`, from the left.
pub open spec fn fv_acc_props(ps: Seq<Prop>, n: nat, acc: Seq<int>) -> Seq<int>
    decreases ps, n,
{
    if n == 0 || n > ps.len() {
        acc
    } else {
        fv_acc(ps[n - 1].ty, fv_acc_props(ps, (n - 1) as nat, acc))
    }
}

/// The variables of `t`, each once, in the order in which they first occur.
pub open spec fn fv_seq(t: Ty) -> Seq<int> {
    fv_acc(t, Seq::empty())
}

/// Those of the first `n` of `ids` that are not free in `env`.
pub open spec fn not_in_env(ids: Seq<int>, env: Map<Seq<char>, SchemeModel>, n: nat) -> Seq<int>
    decreases n,
{
    if n == 0 {
        Seq::empty()
    } else {
        let before = not_in_env(ids, env, (n - 1) as nat);
        if env_occurs(ids[n - 1], env) {
            before
        } else {
            before.push(ids[n - 1])
        }
    }
}

/// The order of ids.
pub open spec fn ascending() -> spec_fn(int, int) -> bool {
    |a: int, b: int| a <= b
}

/// `ty` quantified over its variables that are not free in `env`, in
/// ascending order.
pub open spec fn generalize_spec(env: Map<Seq<char>, SchemeModel>, ty: Ty) -> SchemeModel {
    let free = fv_seq(ty);
    SchemeModel { qualifiers: sorted(not_in_env(free, env, free.len()), ascending()), ty }
}

/// Pushes an id, and says what that does to the model.
pub fn push_id(v: &mut Vec<i32>, id: i32)
    ensures
        ids_model(*final(v)) == ids_model(*old(v)).push(id as int),
        final(v)@ == old(v)@.push(id),
{
    v.push(id);
    assert(ids_model(*v) =~= ids_model(*old(v)).push(id as int));
}

fn no_ids() -> (v: Vec<i32>)
    ensures
        ids_model(v) == Seq::<int>::empty(),
        v@.len() == 0,
{
    let v: Vec<i32> = Vec::new();
    assert(ids_model(v) =~= Seq::<int>::empty());
    v
}

fn fv_into(t: &Type, acc: &mut Vec<i32>)
    ensures
        ids_model(*final(acc)) == fv_acc(t@, ids_model(*old(acc))),
    decreases t, 0nat,
{
    match &t.variant {
        Variant::Var => {
            if !crate::subst::contains_id(acc, t.id) {
                push_id(acc, t.id);
            }
        },
        Variant::Lam(lam) => {
            fv_all_into(&lam.params, acc);
            fv_into(&lam.ret, acc);
        },
        Variant::Prim(_) => {},
        Variant::Lit(_) => {},
        Variant::Union(ts) => fv_all_into(ts, acc),
        Variant::Intersection(ts) => fv_all_into(ts, acc),
        Variant::Object(ps) => fv_props_into(ps, acc),
        Variant::Alias(a) => match &a.type_params {
            Some(ts) => fv_all_into(ts, acc),
            None => {},
        },
        Variant::Tuple(ts) => fv_all_into(ts, acc),
        Variant::Array(e) => fv_into(e, acc),
        Variant::Rest(e) => fv_into(e, acc),
        Variant::Member(m) => fv_into(&m.obj, acc),
    }
}

fn fv_all_into(ts: &Vec<Type>, acc: &mut Vec<i32>)
    ensures
        ids_model(*final(acc)) == fv_acc_all(
            type_models(*ts),
            type_models(*ts).len(),
            ids_model(*old(acc)),
        ),
    decreases ts, 1nat,
{
    let mut i: usize = 0;
    assert(type_models(*ts).len() == ts.len());
    while i < ts.len()
        invariant
            i <= ts.len(),
            type_models(*ts).len() == ts.len(),
            ids_model(*acc) == fv_acc_all(type_models(*ts), i as nat, ids_model(*old(acc))),
        decreases ts.len() - i,
    {
        assert(type_models(*ts)[i as int] == ts[i as int]@);
        fv_into(&ts[i], acc);
        i += 1;
    }
}

fn fv_props_into(ps: &Vec<TProp>, acc: &mut Vec<i32>)
    ensures
        ids_model(*final(acc)) == fv_acc_props(
            prop_models(*ps),
            prop_models(*ps).len(),
            ids_model(*old(acc)),
        ),
    decreases ps, 1nat,
{
    let mut i: usize = 0;
    assert(prop_models(*ps).len() == ps.len());
    while i < ps.len()
        invariant
            i <= ps.len(),
            prop_models(*ps).len() == ps.len(),
            ids_model(*acc) == fv_acc_props(prop_models(*ps), i as nat, ids_model(*old(acc))),
        decreases ps.len() - i,
    {
        assert(prop_models(*ps)[i as int] == ps[i as int]@);
        fv_into(&ps[i].ty, acc);
        i += 1;
    }
}

/// The variables of `t`, each once, in the order in which they first occur.
pub fn free_vars(t: &Type) -> (r: Vec<i32>)
    ensures
        ids_model(r) == fv_seq(t@),
{
    let mut acc = no_ids();
    fv_into(t, &mut acc);
    acc
}

fn sort_ids(ids: &Vec<i32>) -> (r: Vec<i32>)
    ensures
        ids_model(r) == sorted(ids_model(*ids), ascending()),
{
    let mut out = no_ids();
    let mut i: usize = 0;
    while i < ids.len()
        invariant
            i <= ids.len(),
            out.len() == i,
            ids_model(out) == sorted_prefix(ids_model(*ids), i as nat, ascending()),
        decreases ids.len() - i,
    {
        let x = ids[i];
        let mut p: usize = out.len();
        while p > 0 && out[p - 1] > x
            invariant
                p <= out.len(),
                forall|j: int|
                    p <= j < out.len() ==> !ascending()(#[trigger] ids_model(out)[j], x as int),
            decreases p,
        {
            p -= 1;
        }
        proof {
            if p > 0 {
                assert(ascending()(ids_model(out)[p - 1], x as int));
            }
            lemma_insert_at(ids_model(out), x as int, ascending(), p as int);
        }
        let ghost before = out;
        out.insert(p, x);
        assert(ids_model(out) =~= ids_model(before).insert(p as int, x as int));
        i += 1;
    }
    out
}

/// `ty` quantified over its variables that are not free in `env`, in
/// ascending order.
pub fn generalize(env: &Env, ty: &Type) -> (r: Scheme)
    ensures
        r@ == generalize_spec(env@, ty@),
{
    let free = free_vars(ty);
    let mut kept = no_ids();
    let mut i: usize = 0;
    while i < free.len()
        invariant
            i <= free.len(),
            ids_model(kept) == not_in_env(ids_model(free), env@, i as nat),
        decreases free.len() - i,
    {
        if !env.has_free(free[i]) {
            push_id(&mut kept, free[i]);
        }
        i += 1;
    }
    Scheme { qualifiers: sort_ids(&kept), ty: copy_type(ty) }
}

/// The place of the first `id` among the first `n` of `keys`.
pub open spec fn position(keys: Seq<int>, id: int, n: nat) -> Option<int>
    decreases n,
{
    if n == 0 {
        None
    } else {
        match position(keys, id, (n - 1) as nat) {
            Some(i) => Some(i),
            None => if keys[n - 1] == id {
                Some(n - 1)
            } else {
                None
            },
        }
    }
}

/// A place found among the first `n` is the one found among more.
pub proof fn lemma_position_stays(keys: Seq<int>, id: int, n: nat, m: nat)
    requires
        n <= m,
        position(keys, id, n) is Some,
    ensures
        position(keys, id, m) == position(keys, id, n),
    decreases m,
{
    if n < m {
        lemma_position_stays(keys, id, n, (m - 1) as nat);
    }
}

/// What threading a context through a computation gives: the context after
/// it, and its value or error.
pub struct Outcome<T> {
    pub ctx: ContextModel,
    pub res: Result<T, ErrorModel>,
}

/// The outcome of a computation that ended with `r` in the context `ctx`.
pub open spec fn outcome<T: View>(ctx: ContextModel, r: Result<T, InferError>) -> Outcome<T::V> {
    Outcome { ctx, res: result_model(r) }
}

/// `t` with each variable renumbered to its place in `keys`, and each
/// intersection in it simplified anew once its members are renumbered.
pub open spec fn norm_spec(ctx: ContextModel, t: Ty, keys: Seq<int>) -> Outcome<Ty>
    decreases t, 0nat,
{
    match t.kind {
        Kind::Var => match position(keys, t.id, keys.len()) {
            Some(i) => Outcome { ctx, res: Ok(Ty { kind: Kind::Var, id: i, frozen: false }) },
            None => Outcome { ctx, res: Ok(t) },
        },
        Kind::Lam { params, ret, is_call } => {
            let ps = norm_all(ctx, params, params.len(), keys);
            match ps.res {
                Err(e) => Outcome { ctx: ps.ctx, res: Err(e) },
                Ok(np) => {
                    let r = norm_spec(ps.ctx, *ret, keys);
                    match r.res {
                        Err(e) => Outcome { ctx: r.ctx, res: Err(e) },
                        Ok(nr) => Outcome {
                            ctx: r.ctx,
                            res: Ok(
                                Ty { kind: Kind::Lam { params: np, ret: Box::new(nr), is_call }, ..t },
                            ),
                        },
                    }
                },
            }
        },
        Kind::Prim(_) => Outcome { ctx, res: Ok(t) },
        Kind::Lit(_) => Outcome { ctx, res: Ok(t) },
        Kind::Union(ts) => {
            let ns = norm_all(ctx, ts, ts.len(), keys);
            match ns.res {
                Err(e) => Outcome { ctx: ns.ctx, res: Err(e) },
                Ok(n) => Outcome { ctx: ns.ctx, res: Ok(Ty { kind: Kind::Union(n), ..t }) },
            }
        },
        Kind::Intersection(ts) => {
            let ns = norm_all(ctx, ts, ts.len(), keys);
            match ns.res {
                Err(e) => Outcome { ctx: ns.ctx, res: Err(e) },
                Ok(n) => {
                    let s = simplify_spec(ns.ctx, n, MAX_DEPTH as nat);
                    Outcome { ctx: s.0, res: s.1 }
                },
            }
        },
        Kind::Object(ps) => {
            let ns = norm_props(ctx, ps, ps.len(), keys);
            match ns.res {
                Err(e) => Outcome { ctx: ns.ctx, res: Err(e) },
                Ok(n) => Outcome { ctx: ns.ctx, res: Ok(Ty { kind: Kind::Object(n), ..t }) },
            }
        },
        Kind::Alias { name, args } => match args {
            None => Outcome { ctx, res: Ok(t) },
            Some(ts) => {
                let ns = norm_all(ctx, ts, ts.len(), keys);
                match ns.res {
                    Err(e) => Outcome { ctx: ns.ctx, res: Err(e) },
                    Ok(n) => Outcome {
                        ctx: ns.ctx,
                        res: Ok(Ty { kind: Kind::Alias { name, args: Some(n) }, ..t }),
                    },
                }
            },
        },
        Kind::Tuple(ts) => {
            let ns = norm_all(ctx, ts, ts.len(), keys);
            match ns.res {
                Err(e) => Outcome { ctx: ns.ctx, res: Err(e) },
                Ok(n) => Outcome { ctx: ns.ctx, res: Ok(Ty { kind: Kind::Tuple(n), ..t }) },
            }
        },
        Kind::Array(e) => {
            let r = norm_spec(ctx, *e, keys);
            match r.res {
                Err(e) => Outcome { ctx: r.ctx, res: Err(e) },
                Ok(n) => Outcome { ctx: r.ctx, res: Ok(Ty { kind: Kind::Array(Box::new(n)), ..t }) },
            }
        },
        Kind::Rest(e) => {
            let r = norm_spec(ctx, *e, keys);
            match r.res {
                Err(e) => Outcome { ctx: r.ctx, res: Err(e) },
                Ok(n) => Outcome { ctx: r.ctx, res: Ok(Ty { kind: Kind::Rest(Box::new(n)), ..t }) },
            }
        },
        Kind::Member { obj, prop } => {
            let r = norm_spec(ctx, *obj, keys);
            match r.res {
                Err(e) => Outcome { ctx: r.ctx, res: Err(e) },
                Ok(n) => Outcome {
                    ctx: r.ctx,
                    res: Ok(Ty { kind: Kind::Member { obj: Box::new(n), prop }, ..t }),
                },
            }
        },
    }
}

/// [`norm_spec`] over the first `n` of `ts`, from the left.
pub open spec fn norm_all(ctx: ContextModel, ts: Seq<Ty>, n: nat, keys: Seq<int>) -> Outcome<
    Seq<Ty>,
>
    decreases ts, n,
{
    if n == 0 || n > ts.len() {
        Outcome { ctx, res: Ok(Seq::empty()) }
    } else {
        let before = norm_all(ctx, ts, (n - 1) as nat, keys);
        match before.res {
            Err(e) => before,
            Ok(ns) => {
                let r = norm_spec(before.ctx, ts[n - 1], keys);
                match r.res {
                    Err(e) => Outcome { ctx: r.ctx, res: Err(e) },
                    Ok(t) => Outcome { ctx: r.ctx, res: Ok(ns.push(t)) },
                }
            },
        }
    }
}

/// [`norm_spec`] over the types of the first `n` of `ps`, from the left.
pub open spec fn norm_props(ctx: ContextModel, ps: Seq<Prop>, n: nat, keys: Seq<int>) -> Outcome<
    Seq<Prop>,
>
    decreases ps, n,
{
    if n == 0 || n > ps.len() {
        Outcome { ctx, res: Ok(Seq::empty()) }
    } else {
        let before = norm_props(ctx, ps, (n - 1) as nat, keys);
        match before.res {
            Err(e) => before,
            Ok(ns) => {
                let r = norm_spec(before.ctx, ps[n - 1].ty, keys);
                match r.res {
                    Err(e) => Outcome { ctx: r.ctx, res: Err(e) },
                    Ok(t) => Outcome {
                        ctx: r.ctx,
                        res: Ok(ns.push(Prop { name: ps[n - 1].name, optional: ps[n - 1].optional, ty: t })),
                    },
                }
            },
        }
    }
}

/// The numbers from zero up to, not including, `n`.
pub open spec fn iota(n: nat) -> Seq<int> {
    Seq::new(n, |i: int| i)
}

/// The scheme with the variables of its type renumbered from zero in the
/// order in which they first occur, quantified over all of them.
pub open spec fn normalize_spec(ctx: ContextModel, sc: SchemeModel) -> Outcome<SchemeModel> {
    let keys = fv_seq(sc.ty);
    if keys.len() > i32::MAX {
        Outcome { ctx, res: Err(ErrorModel::OutOfIds) }
    } else {
        let r = norm_spec(ctx, sc.ty, keys);
        match r.res {
            Err(e) => Outcome { ctx: r.ctx, res: Err(e) },
            Ok(t) => Outcome { ctx: r.ctx, res: Ok(SchemeModel { qualifiers: iota(keys.len()), ty: t }) },
        }
    }
}

/// An error among the first `n` types is the error of every longer run.
pub proof fn lemma_norm_all_err(ctx: ContextModel, ts: Seq<Ty>, n: nat, m: nat, keys: Seq<int>)
    requires
        n <= m <= ts.len(),
        norm_all(ctx, ts, n, keys).res is Err,
    ensures
        norm_all(ctx, ts, m, keys) == norm_all(ctx, ts, n, keys),
    decreases m,
{
    if n < m {
        lemma_norm_all_err(ctx, ts, n, (m - 1) as nat, keys);
    }
}

/// An error among the first `n` properties is the error of every longer run.
pub proof fn lemma_norm_props_err(ctx: ContextModel, ps: Seq<Prop>, n: nat, m: nat, keys: Seq<int>)
    requires
        n <= m <= ps.len(),
        norm_props(ctx, ps, n, keys).res is Err,
    ensures
        norm_props(ctx, ps, m, keys) == norm_props(ctx, ps, n, keys),
    decreases m,
{
    if n < m {
        lemma_norm_props_err(ctx, ps, n, (m - 1) as nat, keys);
    }
}

fn position_of(keys: &Vec<i32>, id: i32) -> (r: Option<usize>)
    ensures
        match r {
            Some(i) => i < keys.len() && position(ids_model(*keys), id as int, keys.len() as nat)
                == Some(i as int),
            None => position(ids_model(*keys), id as int, keys.len() as nat) is None,
        },
{
    let mut i: usize = 0;
    while i < keys.len()
        invariant
            i <= keys.len(),
            position(ids_model(*keys), id as int, i as nat) is None,
        decreases keys.len() - i,
    {
        if keys[i] == id {
            proof {
                assert(ids_model(*keys)[i as int] == id as int);
                lemma_position_stays(ids_model(*keys), id as int, (i + 1) as nat, keys.len() as nat);
            }
            return Some(i);
        }
        assert(ids_model(*keys)[i as int] != id as int);
        i += 1;
    }
    None
}

fn norm_type(t: &Type, keys: &Vec<i32>, ctx: &mut Context) -> (r: Result<Type, InferError>)
    requires
        keys.len() <= i32::MAX,
    ensures
        moved_on(old(ctx)@, final(ctx)@),
        scope_kept(old(ctx)@, final(ctx)@),
        outcome(final(ctx)@, r) == norm_spec(old(ctx)@, t@, ids_model(*keys)),
    decreases t, 0nat,
{
    assert(ids_model(*keys).len() == keys.len());
    let variant = match &t.variant {
        Variant::Var => {
            return match position_of(keys, t.id) {
                Some(i) => Ok(Type { variant: Variant::Var, id: i as i32, frozen: false }),
                None => Ok(copy_type(t)),
            };
        },
        Variant::Lam(lam) => {
            let params = norm_types(&lam.params, keys, ctx)?;
            let ret = norm_type(&lam.ret, keys, ctx)?;
            Variant::Lam(LamType { params, ret: Box::new(ret), is_call: lam.is_call })
        },
        Variant::Prim(p) => Variant::Prim(*p),
        Variant::Lit(l) => Variant::Lit(l.clone()),
        Variant::Union(ts) => Variant::Union(norm_types(ts, keys, ctx)?),
        Variant::Intersection(ts) => {
            let members = norm_types(ts, keys, ctx)?;
            return simplify_intersection(&members, ctx);
        },
        Variant::Object(ps) => Variant::Object(norm_tprops(ps, keys, ctx)?),
        Variant::Alias(a) => Variant::Alias(
            AliasType {
                name: a.name.clone(),
                type_params: match &a.type_params {
                    Some(ts) => Some(norm_types(ts, keys, ctx)?),
                    None => None,
                },
            },
        ),
        Variant::Tuple(ts) => Variant::Tuple(norm_types(ts, keys, ctx)?),
        Variant::Array(e) => Variant::Array(Box::new(norm_type(e, keys, ctx)?)),
        Variant::Rest(e) => Variant::Rest(Box::new(norm_type(e, keys, ctx)?)),
        Variant::Member(m) => Variant::Member(
            MemberType { obj: Box::new(norm_type(&m.obj, keys, ctx)?), prop: m.prop.clone() },
        ),
    };
    Ok(Type { variant, id: t.id, frozen: t.frozen })
}

fn norm_types(ts: &Vec<Type>, keys: &Vec<i32>, ctx: &mut Context) -> (r: Result<
    Vec<Type>,
    InferError,
>)
    requires
        keys.len() <= i32::MAX,
    ensures
        moved_on(old(ctx)@, final(ctx)@),
        scope_kept(old(ctx)@, final(ctx)@),
        final(ctx)@ == norm_all(
            old(ctx)@,
            type_models(*ts),
            type_models(*ts).len(),
            ids_model(*keys),
        ).ctx,
        match r {
            Ok(v) => norm_all(
                old(ctx)@,
                type_models(*ts),
                type_models(*ts).len(),
                ids_model(*keys),
            ).res == Ok::<Seq<Ty>, ErrorModel>(type_models(v)),
            Err(e) => norm_all(
                old(ctx)@,
                type_models(*ts),
                type_models(*ts).len(),
                ids_model(*keys),
            ).res == Err::<Seq<Ty>, ErrorModel>(e@),
        },
    decreases ts, 1nat,
{
    let mut out = no_types();
    let mut i: usize = 0;
    assert(type_models(*ts).len() == ts.len());
    while i < ts.len()
        invariant
            moved_on(old(ctx)@, ctx@),
            scope_kept(old(ctx)@, ctx@),
            i <= ts.len(),
            keys.len() <= i32::MAX,
            type_models(*ts).len() == ts.len(),
            norm_all(old(ctx)@, type_models(*ts), i as nat, ids_model(*keys)) == (Outcome {
                ctx: ctx@,
                res: Ok::<Seq<Ty>, ErrorModel>(type_models(out)),
            }),
        decreases ts.len() - i,
    {
        assert(type_models(*ts)[i as int] == ts[i as int]@);
        match norm_type(&ts[i], keys, ctx) {
            Ok(t) => {
                push_type(&mut out, t);
            },
            Err(e) => {
                proof {
                    lemma_norm_all_err(
                        old(ctx)@,
                        type_models(*ts),
                        (i + 1) as nat,
                        ts.len() as nat,
                        ids_model(*keys),
                    );
                }
                return Err(e);
            },
        }
        i += 1;
    }
    Ok(out)
}

fn norm_tprops(ps: &Vec<TProp>, keys: &Vec<i32>, ctx: &mut Context) -> (r: Result<
    Vec<TProp>,
    InferError,
>)
    requires
        keys.len() <= i32::MAX,
    ensures
        moved_on(old(ctx)@, final(ctx)@),
        scope_kept(old(ctx)@, final(ctx)@),
        final(ctx)@ == norm_props(
            old(ctx)@,
            prop_models(*ps),
            prop_models(*ps).len(),
            ids_model(*keys),
        ).ctx,
        match r {
            Ok(v) => norm_props(
                old(ctx)@,
                prop_models(*ps),
                prop_models(*ps).len(),
                ids_model(*keys),
            ).res == Ok::<Seq<Prop>, ErrorModel>(prop_models(v)),
            Err(e) => norm_props(
                old(ctx)@,
                prop_models(*ps),
                prop_models(*ps).len(),
                ids_model(*keys),
            ).res == Err::<Seq<Prop>, ErrorModel>(e@),
        },
    decreases ps, 1nat,
{
    let mut out = no_props();
    let mut i: usize = 0;
    assert(prop_models(*ps).len() == ps.len());
    while i < ps.len()
        invariant
            moved_on(old(ctx)@, ctx@),
            scope_kept(old(ctx)@, ctx@),
            i <= ps.len(),
            keys.len() <= i32::MAX,
            prop_models(*ps).len() == ps.len(),
            norm_props(old(ctx)@, prop_models(*ps), i as nat, ids_model(*keys)) == (Outcome {
                ctx: ctx@,
                res: Ok::<Seq<Prop>, ErrorModel>(prop_models(out)),
            }),
        decreases ps.len() - i,
    {
        let p = &ps[i];
        assert(prop_models(*ps)[i as int] == p@);
        match norm_type(&p.ty, keys, ctx) {
            Ok(t) => {
                push_prop(&mut out, TProp { name: p.name.clone(), optional: p.optional, ty: t });
            },
            Err(e) => {
                proof {
                    lemma_norm_props_err(
                        old(ctx)@,
                        prop_models(*ps),
                        (i + 1) as nat,
                        ps.len() as nat,
                        ids_model(*keys),
                    );
                }
                return Err(e);
            },
        }
        i += 1;
    }
    Ok(out)
}

/// A context with nothing in scope, whose last id is `count`.
pub open spec fn blank_context(count: int) -> ContextModel {
    ContextModel { values: Map::empty(), types: Map::empty(), count, is_async: false }
}

/// How many rounds of renumbering and simplifying normalization makes
/// before it gives up.
pub const MAX_ROUNDS: usize = 16;

/// One round of normalization: the variables renumbered in the order of
/// their first occurrence and the intersections simplified anew, where the
/// types that this makes take their ids from `count + 1` on.
pub open spec fn normalize_once(sc: SchemeModel, count: int) -> Result<SchemeModel, ErrorModel> {
    normalize_spec(blank_context(count), sc).res
}

/// Whether a scheme is at rest: a round of normalization leaves it as it
/// is, and it quantifies over the variables of its type in the order of
/// their first occurrence.
pub open spec fn at_rest(sc: SchemeModel, count: int) -> bool {
    normalize_once(sc, count) == Ok::<SchemeModel, ErrorModel>(sc) && fv_seq(sc.ty) == sc.qualifiers
}

/// `cur` brought to rest in at most `rounds` more rounds.
pub open spec fn settle(cur: SchemeModel, count: int, rounds: nat) -> Result<
    SchemeModel,
    ErrorModel,
>
    decreases rounds,
{
    if at_rest(cur, count) {
        Ok(cur)
    } else if rounds == 0 {
        Err(ErrorModel::NoNormalForm)
    } else {
        match normalize_once(cur, count) {
            Err(e) => Err(e),
            Ok(next) => settle(next, count, (rounds - 1) as nat),
        }
    }
}

/// The scheme normalized: renumbered and simplified, round after round,
/// until a round changes nothing.
pub open spec fn normalized(sc: SchemeModel, count: int) -> Result<SchemeModel, ErrorModel> {
    match normalize_once(sc, count) {
        Err(e) => Err(e),
        Ok(first) => settle(first, count, MAX_ROUNDS as nat),
    }
}

fn normalize_round(sc: &Scheme, ctx: &Context) -> (r: Result<Scheme, InferError>)
    ensures
        result_model(r) == normalize_once(sc@, ctx@.count),
{
    let mut scratch = Context {
        values: Env::new(),
        types: Env::new(),
        state: crate::context::State { count: ctx.state.count },
        is_async: false,
    };
    let keys = free_vars(&sc.ty);
    assert(ids_model(keys).len() == keys.len());
    if keys.len() > 0x7fff_ffff {
        return Err(InferError::OutOfIds);
    }
    let ty = norm_type(&sc.ty, &keys, &mut scratch)?;
    let mut qualifiers = no_ids();
    let mut i: usize = 0;
    while i < keys.len()
        invariant
            i <= keys.len(),
            keys.len() <= 0x7fff_ffff,
            ids_model(qualifiers) == iota(i as nat),
        decreases keys.len() - i,
    {
        push_id(&mut qualifiers, i as i32);
        assert(ids_model(qualifiers) =~= iota((i + 1) as nat));
        i += 1;
    }
    Ok(Scheme { qualifiers, ty })
}

/// The scheme normalized: the variables of its type renumbered from zero in
/// the order in which they first occur, all of them quantified over, and
/// the intersections in it simplified anew. Renumbering and simplifying are
/// repeated until a round changes nothing, so that normalizing the result
/// again gives the result. At most [`MAX_ROUNDS`] rounds follow the first; a
/// scheme that is not at rest by then gives the error `NoNormalForm`. The
/// types that this makes take their ids from those that follow the last id
/// of `ctx`, which stays as it is.
pub fn normalize(sc: &Scheme, ctx: &Context) -> (r: Result<Scheme, InferError>)
    ensures
        result_model(r) == normalized(sc@, ctx@.count),
{
    let mut cur = normalize_round(sc, ctx)?;
    let mut rounds: usize = MAX_ROUNDS;
    loop
        invariant
            settle(cur@, ctx@.count, rounds as nat) == normalized(sc@, ctx@.count),
        decreases rounds,
    {
        let next = normalize_round(&cur, ctx);
        let rest = match &next {
            Err(_) => false,
            Ok(n) => crate::types::identical_ids(&n.qualifiers, &cur.qualifiers)
                && crate::types::identical_type(&n.ty, &cur.ty) && crate::types::identical_ids(
                &free_vars(&cur.ty),
                &cur.qualifiers,
            ),
        };
        assert(rest == at_rest(cur@, ctx@.count));
        if rest {
            return Ok(cur);
        }
        if rounds == 0 {
            return Err(InferError::NoNormalForm);
        }
        match next {
            Err(e) => {
                return Err(e);
            },
            Ok(n) => {
                cur = n;
                rounds -= 1;
            },
        }
    }
}

/// The images of `s2` with `s1` applied to each.
pub open spec fn mapped_images(s2: Map<int, Ty>, s1: Map<int, Ty>) -> Map<int, Ty> {
    Map::new(|k: int| s2.contains_key(k), |k: int| apply(s2[k], s1))
}

/// `acc` with the image `t` of the variable `id` added: where `acc` maps
/// the variable already, it is mapped to the union of `t` and its image
/// there.
pub open spec fn merge_entry(ctx: ContextModel, acc: Map<int, Ty>, id: int, t: Ty) -> Outcome<
    Map<int, Ty>,
> {
    if acc.contains_key(id) {
        let u = union_spec(ctx, t, acc[id]);
        match u.1 {
            Err(e) => Outcome { ctx: u.0, res: Err(e) },
            Ok(ut) => Outcome { ctx: u.0, res: Ok(acc.insert(id, ut)) },
        }
    } else {
        Outcome { ctx, res: Ok(acc.insert(id, t)) }
    }
}

/// `acc` with the entries of `s1` added whose variables are ids below
/// `bound`, in ascending order of the ids.
pub open spec fn merge_below(ctx: ContextModel, acc: Map<int, Ty>, s1: Map<int, Ty>, bound: int) -> Outcome<
    Map<int, Ty>,
>
    decreases bound - i32::MIN,
{
    if bound <= i32::MIN {
        Outcome { ctx, res: Ok(acc) }
    } else {
        let before = merge_below(ctx, acc, s1, bound - 1);
        match before.res {
            Err(e) => before,
            Ok(m) => if s1.contains_key(bound - 1) {
                merge_entry(before.ctx, m, bound - 1, s1[bound - 1])
            } else {
                before
            },
        }
    }
}

/// The composition "`s2`, then `s1`" where both may constrain a variable:
/// `s1` is applied to every image of `s2`; each entry of `s1` is added, in
/// ascending order of the ids, and where `s2` maps its variable as well,
/// the two images are joined in a union.
pub open spec fn compose_with_context_spec(ctx: ContextModel, s1: Map<int, Ty>, s2: Map<int, Ty>) -> Outcome<
    Map<int, Ty>,
> {
    merge_below(ctx, mapped_images(s2, s1), s1, i32::MAX + 1)
}

/// The composition with unions of the first `n` of `ss`, folded from the
/// left starting with the empty substitution.
pub open spec fn compose_many_with_context_spec(ctx: ContextModel, ss: Seq<Map<int, Ty>>, n: nat) -> Outcome<
    Map<int, Ty>,
>
    decreases n,
{
    if n == 0 {
        Outcome { ctx, res: Ok(Map::empty()) }
    } else {
        let before = compose_many_with_context_spec(ctx, ss, (n - 1) as nat);
        match before.res {
            Err(e) => before,
            Ok(acc) => compose_with_context_spec(before.ctx, acc, ss[n - 1]),
        }
    }
}

/// Where `s1` maps no id from `a` up to `b`, nothing is added between the
/// two bounds.
pub proof fn lemma_merge_gap(ctx: ContextModel, acc: Map<int, Ty>, s1: Map<int, Ty>, a: int, b: int)
    requires
        a <= b,
        forall|k: int| a <= k < b ==> !s1.contains_key(k),
    ensures
        merge_below(ctx, acc, s1, b) == merge_below(ctx, acc, s1, a),
    decreases b - a,
{
    if a < b {
        lemma_merge_gap(ctx, acc, s1, a, b - 1);
    }
}

/// An error below a bound is the error below every higher bound.
pub proof fn lemma_merge_below_err(
    ctx: ContextModel,
    acc: Map<int, Ty>,
    s1: Map<int, Ty>,
    a: int,
    b: int,
)
    requires
        a <= b,
        merge_below(ctx, acc, s1, a).res is Err,
    ensures
        merge_below(ctx, acc, s1, b) == merge_below(ctx, acc, s1, a),
    decreases b - a,
{
    if a < b {
        lemma_merge_below_err(ctx, acc, s1, a, b - 1);
    }
}

/// An error among the first `n` substitutions is the error of every longer
/// run.
pub proof fn lemma_compose_many_with_context_err(
    ctx: ContextModel,
    ss: Seq<Map<int, Ty>>,
    n: nat,
    m: nat,
)
    requires
        n <= m,
        compose_many_with_context_spec(ctx, ss, n).res is Err,
    ensures
        compose_many_with_context_spec(ctx, ss, m) == compose_many_with_context_spec(ctx, ss, n),
    decreases m,
{
    if n < m {
        lemma_compose_many_with_context_err(ctx, ss, n, (m - 1) as nat);
    }
}

/// Whether the ids are in strictly ascending order.
pub open spec fn strictly_ascending(q: Seq<int>) -> bool {
    forall|i: int, j: int| 0 <= i < j < q.len() ==> #[trigger] q[i] < #[trigger] q[j]
}

/// The variables that `s` maps, each once, in ascending order.
pub fn sorted_keys(s: &Subst) -> (r: Vec<i32>)
    ensures
        strictly_ascending(ids_model(r)),
        forall|v: int| ids_model(r).contains(v) <==> s@.contains_key(v),
{
    let keys = s.keys();
    let q = sort_ids(&keys);
    proof {
        let ks = ids_model(keys);
        let qs = ids_model(q);
        crate::sorting::lemma_sorted_distinct(ks, ks.len(), ascending());
        assert(total(ascending()));
        lemma_sorted_is_sorted(ks, ks.len(), ascending());
        assert forall|i: int, j: int| 0 <= i < j < qs.len() implies qs[i] < qs[j] by {
            crate::normal::lemma_ascending_pairs(qs, i, j);
        }
        assert(ks.take(ks.len() as int) =~= ks);
        assert forall|v: int| qs.contains(v) <==> s@.contains_key(v) by {
            crate::sorting::lemma_sorted_contains(ks, ks.len(), ascending(), v);
        }
    }
    q
}

fn compose_subs_with_context(s1: &Subst, s2: &Subst, ctx: &mut Context) -> (r: Result<
    Subst,
    InferError,
>)
    ensures
        moved_on(old(ctx)@, final(ctx)@),
        scope_kept(old(ctx)@, final(ctx)@),
        final(ctx)@ == compose_with_context_spec(old(ctx)@, s1@, s2@).ctx,
        match r {
            Ok(s) => compose_with_context_spec(old(ctx)@, s1@, s2@).res == Ok::<
                Map<int, Ty>,
                ErrorModel,
            >(s@),
            Err(e) => compose_with_context_spec(old(ctx)@, s1@, s2@).res == Err::<
                Map<int, Ty>,
                ErrorModel,
            >(e@),
        },
{
    let mut result = Subst::new();
    let keys2 = s2.keys();
    let ghost ks2 = ids_model(keys2);
    let mut i: usize = 0;
    assert(result@ =~= mapped_images(crate::subst::restricted(s2@, ks2, 0), s1@));
    while i < keys2.len()
        invariant
            i <= keys2.len(),
            ks2 == ids_model(keys2),
            forall|v: int| ks2.contains(v) <==> s2@.contains_key(v),
            result@ == mapped_images(crate::subst::restricted(s2@, ks2, i as int), s1@),
        decreases keys2.len() - i,
    {
        let id = keys2[i];
        assert(ks2[i as int] == id as int);
        assert(ks2.contains(id as int));
        let image = match s2.get(id) {
            Some(t) => apply_type(t, s1),
            None => copy_type(&Type { variant: Variant::Var, id, frozen: false }),
        };
        result.insert(id, image);
        assert(result@ =~= mapped_images(crate::subst::restricted(s2@, ks2, i + 1), s1@));
        i += 1;
    }
    proof {
        crate::subst::lemma_restricted_all(s2@, ks2);
    }
    let ghost start = result@;
    let keys = sorted_keys(s1);
    let ghost q = ids_model(keys);
    assert(q.len() == keys.len());
    let mut k: usize = 0;
    while k < keys.len()
        invariant
            moved_on(old(ctx)@, ctx@),
            scope_kept(old(ctx)@, ctx@),
            k <= keys.len(),
            q == ids_model(keys),
            q.len() == keys.len(),
            strictly_ascending(q),
            forall|v: int| q.contains(v) <==> s1@.contains_key(v),
            start == mapped_images(s2@, s1@),
            merge_below(
                old(ctx)@,
                start,
                s1@,
                if k == 0 {
                    i32::MIN as int
                } else {
                    q[k - 1] + 1
                },
            ) == (Outcome { ctx: ctx@, res: Ok::<Map<int, Ty>, ErrorModel>(result@) }),
        decreases keys.len() - k,
    {
        let id = keys[k];
        let ghost low = if k == 0 {
            i32::MIN as int
        } else {
            q[k - 1] + 1
        };
        proof {
            assert(q[k as int] == id as int);
            assert(q.contains(id as int));
            assert forall|v: int| low <= v < id implies !s1@.contains_key(v) by {
                if s1@.contains_key(v) {
                    assert(q.contains(v));
                    let a = choose|a: int| 0 <= a < q.len() && q[a] == v;
                    if a < k {
                        if a < k - 1 {
                            assert(q[a] < q[k - 1]);
                        }
                    } else if a > k {
                        assert(q[k as int] < q[a]);
                    }
                }
            }
            if k > 0 {
                assert(q[k - 1] < q[k as int]);
            }
            lemma_merge_gap(old(ctx)@, start, s1@, low, id as int);
        }
        let joined = match s1.get(id) {
            None => Ok(None),
            Some(t) => match result.get(id) {
                Some(t1) => match union_types(t, t1, ctx) {
                    Ok(u) => Ok(Some(u)),
                    Err(e) => Err(e),
                },
                None => Ok(Some(copy_type(t))),
            },
        };
        match joined {
            Ok(Some(t)) => {
                result.insert(id, t);
            },
            Ok(None) => {},
            Err(err) => {
                proof {
                    lemma_merge_below_err(old(ctx)@, start, s1@, id + 1, i32::MAX + 1);
                }
                return Err(err);
            },
        }
        k += 1;
    }
    proof {
        let low = if keys.len() == 0 {
            i32::MIN as int
        } else {
            q[keys.len() - 1] + 1
        };
        assert forall|v: int| low <= v < i32::MAX + 1 implies !s1@.contains_key(v) by {
            if s1@.contains_key(v) {
                assert(q.contains(v));
                let a = choose|a: int| 0 <= a < q.len() && q[a] == v;
                if a < q.len() - 1 {
                    assert(q[a] < q[q.len() - 1]);
                }
            }
        }
        lemma_merge_gap(old(ctx)@, start, s1@, low, i32::MAX + 1);
    }
    Ok(result)
}

/// The composition of all of `subs`, folded from the left, where images of
/// one variable in two of them are joined in a union in place of one
/// replacing the other.
pub fn compose_many_subs_with_context(subs: &[Subst], ctx: &mut Context) -> (r: Result<
    Subst,
    InferError,
>)
    ensures
        moved_on(old(ctx)@, final(ctx)@),
        scope_kept(old(ctx)@, final(ctx)@),
        final(ctx)@ == compose_many_with_context_spec(
            old(ctx)@,
            crate::subst::subst_models(subs@),
            subs@.len(),
        ).ctx,
        match r {
            Ok(s) => compose_many_with_context_spec(
                old(ctx)@,
                crate::subst::subst_models(subs@),
                subs@.len(),
            ).res == Ok::<Map<int, Ty>, ErrorModel>(s@),
            Err(e) => compose_many_with_context_spec(
                old(ctx)@,
                crate::subst::subst_models(subs@),
                subs@.len(),
            ).res == Err::<Map<int, Ty>, ErrorModel>(e@),
        },
{
    let mut acc = Subst::new();
    let mut i: usize = 0;
    while i < subs.len()
        invariant
            moved_on(old(ctx)@, ctx@),
            scope_kept(old(ctx)@, ctx@),
            i <= subs.len(),
            compose_many_with_context_spec(
                old(ctx)@,
                crate::subst::subst_models(subs@),
                i as nat,
            ) == (Outcome { ctx: ctx@, res: Ok::<Map<int, Ty>, ErrorModel>(acc@) }),
        decreases subs.len() - i,
    {
        match compose_subs_with_context(&acc, &subs[i], ctx) {
            Ok(next) => {
                acc = next;
            },
            Err(e) => {
                proof {
                    lemma_compose_many_with_context_err(
                        old(ctx)@,
                        crate::subst::subst_models(subs@),
                        (i + 1) as nat,
                        subs@.len(),
                    );
                }
                return Err(e);
            },
        }
        i += 1;
    }
    Ok(acc)
}

} // verus!
