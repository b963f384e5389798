//! Unification: the substitution under which one type can be used where
//! another is expected.
use vstd::prelude::*;
use crate::context::Context;
use crate::error::{result_model, ErrorModel, InferError};
use crate::subst::{
    apply, apply_type, compose, compose_subs, lemma_apply_empty, lemma_compose_empty, occurs,
    occurs_any, occurs_any_prop, occurs_in, Subst,
};
use crate::types::{
    copy_type, prop_models, same, same_type, type_models, Kind, Prop, TProp, Ty, Type, Variant,
};

verus! {

/// How deeply unification follows the nesting of types.
pub const MAX_DEPTH: usize = 1024;

/// Binding the variable `id` to `t`: nothing to do when `t` is that variable,
/// an error when the variable occurs in `t`.
pub open spec fn bind_spec(id: int, t: Ty) -> Result<Map<int, Ty>, ErrorModel> {
    if t.kind is Var && t.id == id {
        Ok(Map::empty())
    } else if occurs(id, t) {
        Err(ErrorModel::InfiniteType(id, t))
    } else {
        Ok(Map::empty().insert(id, t))
    }
}

/// The index of the first property called `name` among the first `n` of `ps`.
pub open spec fn find_prop(ps: Seq<Prop>, name: Seq<char>, n: nat) -> Option<int>
    decreases n,
{
    if n == 0 {
        None
    } else {
        match find_prop(ps, name, (n - 1) as nat) {
            Some(i) => Some(i),
            None => if ps[n - 1].name == name {
                Some(n - 1)
            } else {
                None
            },
        }
    }
}

/// The substitution under which `t1` can be used where `t2` is expected.
///
/// A variable on either side is bound to the other side. Functions are
/// unified parameter by parameter and then on their results, tuples element
/// by element (the first may have more), objects property by property of the
/// second (the first may have more), named types argument by argument and
/// arrays on their elements, each step under what the earlier steps found. A
/// literal fits the primitive of its kind. Every other pair must be equal.
/// Nesting is followed `depth` levels down.
pub open spec fn unify_spec(t1: Ty, t2: Ty, depth: nat) -> Result<Map<int, Ty>, ErrorModel>
    decreases depth, 0nat,
{
    match (t1.kind, t2.kind) {
        (Kind::Var, _) => bind_spec(t1.id, t2),
        (_, Kind::Var) => bind_spec(t2.id, t1),
        (Kind::Lam { params: lp, ret: lr, .. }, Kind::Lam { params: rp, ret: rr, .. }) => {
            if lp.len() != rp.len() {
                Err(ErrorModel::Mismatch(t1, t2))
            } else if depth == 0 {
                Err(ErrorModel::TooDeep)
            } else {
                match unify_seq(lp, rp, lp.len(), (depth - 1) as nat) {
                    Err(e) => Err(e),
                    Ok(s) => unify_step(s, *lr, *rr, (depth - 1) as nat),
                }
            }
        },
        (Kind::Prim(p), Kind::Prim(q)) => if p == q {
            Ok(Map::empty())
        } else {
            Err(ErrorModel::Mismatch(t1, t2))
        },
        (Kind::Lit(l), Kind::Lit(m)) => if l == m {
            Ok(Map::empty())
        } else {
            Err(ErrorModel::Mismatch(t1, t2))
        },
        (Kind::Lit(l), Kind::Prim(p)) => if l.kind() == p {
            Ok(Map::empty())
        } else {
            Err(ErrorModel::Mismatch(t1, t2))
        },
        (Kind::Prim(p), Kind::Lit(l)) => if l.kind() == p {
            Ok(Map::empty())
        } else {
            Err(ErrorModel::Mismatch(t1, t2))
        },
        (Kind::Tuple(xs), Kind::Tuple(ys)) => {
            if xs.len() < ys.len() {
                Err(ErrorModel::TooManyElements)
            } else if depth == 0 {
                Err(ErrorModel::TooDeep)
            } else {
                unify_seq(xs, ys, ys.len(), (depth - 1) as nat)
            }
        },
        (Kind::Object(ps), Kind::Object(qs)) => {
            if depth == 0 {
                Err(ErrorModel::TooDeep)
            } else {
                unify_props(t1, t2, ps, qs, qs.len(), (depth - 1) as nat)
            }
        },
        (Kind::Alias { name: n1, args: a1 }, Kind::Alias { name: n2, args: a2 }) => {
            if n1 != n2 {
                Err(ErrorModel::Mismatch(t1, t2))
            } else {
                match (a1, a2) {
                    (None, None) => Ok(Map::empty()),
                    (Some(xs), Some(ys)) => {
                        if xs.len() != ys.len() {
                            Err(ErrorModel::Mismatch(t1, t2))
                        } else if depth == 0 {
                            Err(ErrorModel::TooDeep)
                        } else {
                            unify_seq(xs, ys, xs.len(), (depth - 1) as nat)
                        }
                    },
                    _ => Err(ErrorModel::Mismatch(t1, t2)),
                }
            }
        },
        (Kind::Array(x), Kind::Array(y)) => {
            if depth == 0 {
                Err(ErrorModel::TooDeep)
            } else {
                unify_spec(*x, *y, (depth - 1) as nat)
            }
        },
        _ => if same(t1, t2) {
            Ok(Map::empty())
        } else {
            Err(ErrorModel::Mismatch(t1, t2))
        },
    }
}

/// One more step under what was found so far: `a` and `b` are unified with
/// `s` applied to both, and what that gives is composed with `s`.
pub open spec fn unify_step(s: Map<int, Ty>, a: Ty, b: Ty, depth: nat) -> Result<
    Map<int, Ty>,
    ErrorModel,
>
    decreases depth, 1nat,
{
    match unify_spec(apply(a, s), apply(b, s), depth) {
        Err(e) => Err(e),
        Ok(s1) => Ok(compose(s1, s)),
    }
}

/// The first `n` of `xs` unified with the first `n` of `ys`, place by place
/// from the left.
pub open spec fn unify_seq(xs: Seq<Ty>, ys: Seq<Ty>, n: nat, depth: nat) -> Result<
    Map<int, Ty>,
    ErrorModel,
>
    decreases depth, n + 1,
{
    if n == 0 {
        Ok(Map::empty())
    } else {
        match unify_seq(xs, ys, (n - 1) as nat, depth) {
            Err(e) => Err(e),
            Ok(s) => unify_step(s, xs[n - 1], ys[n - 1], depth),
        }
    }
}

/// The first `n` properties `qs` of `t2` unified with the properties `ps` of
/// `t1` that have their names. A property that `t1` lacks is an error unless
/// it is optional; so is an optional property where a required one is
/// expected.
pub open spec fn unify_props(t1: Ty, t2: Ty, ps: Seq<Prop>, qs: Seq<Prop>, n: nat, depth: nat) -> Result<
    Map<int, Ty>,
    ErrorModel,
>
    decreases depth, n + 1,
{
    if n == 0 {
        Ok(Map::empty())
    } else {
        match unify_props(t1, t2, ps, qs, (n - 1) as nat, depth) {
            Err(e) => Err(e),
            Ok(s) => {
                let q = qs[n - 1];
                match find_prop(ps, q.name, ps.len()) {
                    None => if q.optional {
                        Ok(s)
                    } else {
                        Err(ErrorModel::MissingProperty(q.name, t1))
                    },
                    Some(i) => if ps[i].optional && !q.optional {
                        Err(ErrorModel::Mismatch(t1, t2))
                    } else {
                        unify_step(s, ps[i].ty, q.ty, depth)
                    },
                }
            },
        }
    }
}

/// An error among the first `n` pairs is the error of every longer run.
pub proof fn lemma_unify_seq_err(xs: Seq<Ty>, ys: Seq<Ty>, n: nat, m: nat, depth: nat)
    requires
        n <= m,
        unify_seq(xs, ys, n, depth) is Err,
    ensures
        unify_seq(xs, ys, m, depth) == unify_seq(xs, ys, n, depth),
    decreases m,
{
    if n < m {
        lemma_unify_seq_err(xs, ys, n, (m - 1) as nat, depth);
    }
}

/// An error among the first `n` properties is the error of every longer run.
pub proof fn lemma_unify_props_err(
    t1: Ty,
    t2: Ty,
    ps: Seq<Prop>,
    qs: Seq<Prop>,
    n: nat,
    m: nat,
    depth: nat,
)
    requires
        n <= m,
        unify_props(t1, t2, ps, qs, n, depth) is Err,
    ensures
        unify_props(t1, t2, ps, qs, m, depth) == unify_props(t1, t2, ps, qs, n, depth),
    decreases m,
{
    if n < m {
        lemma_unify_props_err(t1, t2, ps, qs, n, (m - 1) as nat, depth);
    }
}

/// A property found among the first `n` is the one found among more.
pub proof fn lemma_find_prop_stays(ps: Seq<Prop>, name: Seq<char>, n: nat, m: nat)
    requires
        n <= m,
        find_prop(ps, name, n) is Some,
    ensures
        find_prop(ps, name, m) == find_prop(ps, name, n),
    decreases m,
{
    if n < m {
        lemma_find_prop_stays(ps, name, n, (m - 1) as nat);
    }
}

fn mismatch(t1: &Type, t2: &Type) -> (r: Result<Subst, InferError>)
    ensures
        result_model(r) == Err::<Map<int, Ty>, ErrorModel>(ErrorModel::Mismatch(t1@, t2@)),
{
    Err(InferError::Mismatch(copy_type(t1), copy_type(t2)))
}

fn bind(id: i32, t: &Type) -> (r: Result<Subst, InferError>)
    ensures
        result_model(r) == bind_spec(id as int, t@),
{
    let is_same_var = match &t.variant {
        Variant::Var => t.id == id,
        _ => false,
    };
    if is_same_var {
        Ok(Subst::new())
    } else if occurs_in(id, t) {
        Err(InferError::InfiniteType(id, copy_type(t)))
    } else {
        Ok(Subst::singleton(id, copy_type(t)))
    }
}

/// The index of the first property of `ps` called `name`.
pub fn find_tprop(ps: &Vec<TProp>, name: &String) -> (r: Option<usize>)
    ensures
        match r {
            Some(i) => find_prop(prop_models(*ps), name@, ps.len() as nat) == Some(i as int) && i
                < ps.len(),
            None => find_prop(prop_models(*ps), name@, ps.len() as nat) is None,
        },
{
    let mut i: usize = 0;
    while i < ps.len()
        invariant
            i <= ps.len(),
            find_prop(prop_models(*ps), name@, i as nat) is None,
        decreases ps.len() - i,
    {
        if ps[i].name == *name {
            proof {
                assert(prop_models(*ps)[i as int].name == name@);
                assert(find_prop(prop_models(*ps), name@, (i + 1) as nat) == Some(i as int));
                lemma_find_prop_stays(prop_models(*ps), name@, (i + 1) as nat, ps.len() as nat);
            }
            return Some(i);
        }
        proof {
            assert(prop_models(*ps)[i as int].name != name@);
        }
        i += 1;
    }
    None
}

fn unify_at(t1: &Type, t2: &Type, depth: usize) -> (r: Result<Subst, InferError>)
    ensures
        result_model(r) == unify_spec(t1@, t2@, depth as nat),
    decreases depth, 0nat,
{
    match (&t1.variant, &t2.variant) {
        (Variant::Var, _) => bind(t1.id, t2),
        (_, Variant::Var) => bind(t2.id, t1),
        (Variant::Lam(l1), Variant::Lam(l2)) => {
            assert(type_models(l1.params).len() == l1.params.len());
            assert(type_models(l2.params).len() == l2.params.len());
            if l1.params.len() != l2.params.len() {
                mismatch(t1, t2)
            } else if depth == 0 {
                Err(InferError::TooDeep)
            } else {
                match unify_list(&l1.params, &l2.params, l1.params.len(), depth - 1) {
                    Err(e) => Err(e),
                    Ok(s) => unify_next(&s, &l1.ret, &l2.ret, depth - 1),
                }
            }
        },
        (Variant::Prim(p), Variant::Prim(q)) => {
            if *p == *q {
                Ok(Subst::new())
            } else {
                mismatch(t1, t2)
            }
        },
        (Variant::Lit(l), Variant::Lit(m)) => {
            if l.same_as(m) {
                Ok(Subst::new())
            } else {
                mismatch(t1, t2)
            }
        },
        (Variant::Lit(l), Variant::Prim(p)) => {
            if l.kind() == *p {
                Ok(Subst::new())
            } else {
                mismatch(t1, t2)
            }
        },
        (Variant::Prim(p), Variant::Lit(l)) => {
            if l.kind() == *p {
                Ok(Subst::new())
            } else {
                mismatch(t1, t2)
            }
        },
        (Variant::Tuple(xs), Variant::Tuple(ys)) => {
            assert(type_models(*xs).len() == xs.len());
            assert(type_models(*ys).len() == ys.len());
            if xs.len() < ys.len() {
                Err(InferError::TooManyElements)
            } else if depth == 0 {
                Err(InferError::TooDeep)
            } else {
                unify_list(xs, ys, ys.len(), depth - 1)
            }
        },
        (Variant::Object(ps), Variant::Object(qs)) => {
            if depth == 0 {
                Err(InferError::TooDeep)
            } else {
                unify_objects(t1, t2, ps, qs, depth - 1)
            }
        },
        (Variant::Alias(a1), Variant::Alias(a2)) => {
            if a1.name != a2.name {
                mismatch(t1, t2)
            } else {
                match (&a1.type_params, &a2.type_params) {
                    (None, None) => Ok(Subst::new()),
                    (Some(xs), Some(ys)) => {
                        assert(type_models(*xs).len() == xs.len());
                        assert(type_models(*ys).len() == ys.len());
                        if xs.len() != ys.len() {
                            mismatch(t1, t2)
                        } else if depth == 0 {
                            Err(InferError::TooDeep)
                        } else {
                            unify_list(xs, ys, xs.len(), depth - 1)
                        }
                    },
                    _ => mismatch(t1, t2),
                }
            }
        },
        (Variant::Array(x), Variant::Array(y)) => {
            if depth == 0 {
                Err(InferError::TooDeep)
            } else {
                unify_at(x, y, depth - 1)
            }
        },
        _ => {
            if same_type(t1, t2) {
                Ok(Subst::new())
            } else {
                mismatch(t1, t2)
            }
        },
    }
}

fn unify_next(s: &Subst, a: &Type, b: &Type, depth: usize) -> (r: Result<Subst, InferError>)
    ensures
        result_model(r) == unify_step(s@, a@, b@, depth as nat),
    decreases depth, 1nat,
{
    let a1 = apply_type(a, s);
    let b1 = apply_type(b, s);
    match unify_at(&a1, &b1, depth) {
        Err(e) => Err(e),
        Ok(s1) => Ok(compose_subs(&s1, s)),
    }
}

fn unify_list(xs: &Vec<Type>, ys: &Vec<Type>, n: usize, depth: usize) -> (r: Result<
    Subst,
    InferError,
>)
    requires
        n <= xs.len(),
        n <= ys.len(),
    ensures
        result_model(r) == unify_seq(type_models(*xs), type_models(*ys), n as nat, depth as nat),
    decreases depth, 2nat,
{
    let mut s = Subst::new();
    let mut i: usize = 0;
    while i < n
        invariant
            i <= n,
            n <= xs.len(),
            n <= ys.len(),
            unify_seq(type_models(*xs), type_models(*ys), i as nat, depth as nat) == Ok::<
                Map<int, Ty>,
                ErrorModel,
            >(s@),
        decreases n - i,
    {
        match unify_next(&s, &xs[i], &ys[i], depth) {
            Err(e) => {
                proof {
                    lemma_unify_seq_err(
                        type_models(*xs),
                        type_models(*ys),
                        (i + 1) as nat,
                        n as nat,
                        depth as nat,
                    );
                }
                return Err(e);
            },
            Ok(s1) => {
                s = s1;
            },
        }
        i += 1;
    }
    Ok(s)
}

fn unify_objects(t1: &Type, t2: &Type, ps: &Vec<TProp>, qs: &Vec<TProp>, depth: usize) -> (r:
    Result<Subst, InferError>)
    ensures
        result_model(r) == unify_props(
            t1@,
            t2@,
            prop_models(*ps),
            prop_models(*qs),
            qs.len() as nat,
            depth as nat,
        ),
    decreases depth, 2nat,
{
    let mut s = Subst::new();
    let mut i: usize = 0;
    let ghost pm = prop_models(*ps);
    let ghost qm = prop_models(*qs);
    while i < qs.len()
        invariant
            i <= qs.len(),
            pm == prop_models(*ps),
            qm == prop_models(*qs),
            unify_props(t1@, t2@, pm, qm, i as nat, depth as nat) == Ok::<Map<int, Ty>, ErrorModel>(
                s@,
            ),
        decreases qs.len() - i,
    {
        let q = &qs[i];
        assert(qm[i as int] == q@);
        let step = match find_tprop(ps, &q.name) {
            None => {
                if q.optional {
                    Ok(s)
                } else {
                    Err(InferError::MissingProperty(q.name.clone(), copy_type(t1)))
                }
            },
            Some(k) => {
                let p = &ps[k];
                assert(pm[k as int] == p@);
                if p.optional && !q.optional {
                    mismatch(t1, t2)
                } else {
                    unify_next(&s, &p.ty, &q.ty, depth)
                }
            },
        };
        assert(result_model(step) == unify_props(t1@, t2@, pm, qm, (i + 1) as nat, depth as nat));
        match step {
            Err(e) => {
                proof {
                    lemma_unify_props_err(
                        t1@,
                        t2@,
                        pm,
                        qm,
                        (i + 1) as nat,
                        qs.len() as nat,
                        depth as nat,
                    );
                }
                return Err(e);
            },
            Ok(s1) => {
                s = s1;
            },
        }
        i += 1;
    }
    Ok(s)
}

/// The substitution under which `t1` can be used where `t2` is expected, or
/// why there is none. The context is not consulted.
///
/// The recursion is bounded: types are followed [`MAX_DEPTH`] levels down,
/// and a pair that is nested more deeply gives the error `TooDeep`.
pub fn unify(t1: &Type, t2: &Type, _ctx: &Context) -> (r: Result<Subst, InferError>)
    ensures
        result_model(r) == unify_spec(t1@, t2@, MAX_DEPTH as nat),
{
    unify_at(t1, t2, MAX_DEPTH)
}

/// Whether the types nested in `t` that unification descends into lie at
/// most `depth` levels down.
pub open spec fn nested_within(t: Ty, depth: nat) -> bool
    decreases t,
{
    match t.kind {
        Kind::Lam { params, ret, .. } => depth > 0 && nested_within(*ret, (depth - 1) as nat)
            && forall|i: int|
            0 <= i < params.len() ==> nested_within(#[trigger] params[i], (depth - 1) as nat),
        Kind::Tuple(ts) => depth > 0 && forall|i: int|
            0 <= i < ts.len() ==> nested_within(#[trigger] ts[i], (depth - 1) as nat),
        Kind::Object(ps) => depth > 0 && forall|i: int|
            0 <= i < ps.len() ==> nested_within((#[trigger] ps[i]).ty, (depth - 1) as nat),
        Kind::Alias { args: Some(ts), .. } => depth > 0 && forall|i: int|
            0 <= i < ts.len() ==> nested_within(#[trigger] ts[i], (depth - 1) as nat),
        Kind::Array(e) => depth > 0 && nested_within(*e, (depth - 1) as nat),
        _ => true,
    }
}

/// Whether no object type that unification descends into has two properties
/// of the same name.
pub open spec fn names_unique(t: Ty) -> bool
    decreases t,
{
    match t.kind {
        Kind::Lam { params, ret, .. } => names_unique(*ret) && forall|i: int|
            0 <= i < params.len() ==> names_unique(#[trigger] params[i]),
        Kind::Tuple(ts) => forall|i: int| 0 <= i < ts.len() ==> names_unique(#[trigger] ts[i]),
        Kind::Object(ps) => (forall|i: int, j: int|
            0 <= i < j < ps.len() ==> (#[trigger] ps[i]).name != (#[trigger] ps[j]).name)
            && forall|i: int| 0 <= i < ps.len() ==> names_unique((#[trigger] ps[i]).ty),
        Kind::Alias { args: Some(ts), .. } => forall|i: int|
            0 <= i < ts.len() ==> names_unique(#[trigger] ts[i]),
        Kind::Array(e) => names_unique(*e),
        _ => true,
    }
}

/// Whether no variable occurs in `t`.
pub open spec fn closed(t: Ty) -> bool {
    forall|id: int| !occurs(id, t)
}

/// A type without variables unifies with itself under the empty
/// substitution, as long as its nesting is followed to the end.
pub proof fn lemma_unify_self(t: Ty, depth: nat)
    requires
        closed(t),
        names_unique(t),
        nested_within(t, depth),
    ensures
        unify_spec(t, t, depth) == Ok::<Map<int, Ty>, ErrorModel>(Map::empty()),
    decreases t,
{
    match t.kind {
        Kind::Var => {
            assert(occurs(t.id, t));
        },
        Kind::Lam { params, ret, .. } => {
            assert forall|i: int| 0 <= i < params.len() implies closed(#[trigger] params[i]) by {
                assert forall|id: int| !occurs(id, params[i]) by {
                    assert(!occurs(id, t));
                    assert(!occurs_any(id, params));
                }
            }
            assert(closed(*ret)) by {
                assert forall|id: int| !occurs(id, *ret) by {
                    assert(!occurs(id, t));
                }
            }
            lemma_unify_seq_self(params, params.len(), (depth - 1) as nat);
            lemma_unify_self(*ret, (depth - 1) as nat);
            lemma_apply_empty(*ret);
            lemma_compose_empty(Map::empty());
            let e = Map::<int, Ty>::empty();
            assert(apply(*ret, e) == *ret);
            assert(compose(e, e) == e);
            assert(unify_step(e, *ret, *ret, (depth - 1) as nat) == Ok::<Map<int, Ty>, ErrorModel>(e));
        },
        Kind::Tuple(ts) => {
            assert forall|i: int| 0 <= i < ts.len() implies closed(#[trigger] ts[i]) by {
                assert forall|id: int| !occurs(id, ts[i]) by {
                    assert(!occurs(id, t));
                    assert(!occurs_any(id, ts));
                }
            }
            lemma_unify_seq_self(ts, ts.len(), (depth - 1) as nat);
        },
        Kind::Object(ps) => {
            assert forall|i: int| 0 <= i < ps.len() implies closed((#[trigger] ps[i]).ty) by {
                assert forall|id: int| !occurs(id, ps[i].ty) by {
                    assert(!occurs(id, t));
                    assert(!occurs_any_prop(id, ps));
                }
            }
            lemma_unify_props_self(t, ps, ps.len(), (depth - 1) as nat);
        },
        Kind::Alias { args, .. } => {
            match args {
                Some(ts) => {
                    assert forall|i: int| 0 <= i < ts.len() implies closed(#[trigger] ts[i]) by {
                        assert forall|id: int| !occurs(id, ts[i]) by {
                            assert(!occurs(id, t));
                            assert(!occurs_any(id, ts));
                        }
                    }
                    lemma_unify_seq_self(ts, ts.len(), (depth - 1) as nat);
                },
                None => {},
            }
        },
        Kind::Array(e) => {
            assert(closed(*e)) by {
                assert forall|id: int| !occurs(id, *e) by {
                    assert(!occurs(id, t));
                }
            }
            lemma_unify_self(*e, (depth - 1) as nat);
        },
        _ => {},
    }
}

/// [`lemma_unify_self`] for the first `n` of a sequence of types.
pub proof fn lemma_unify_seq_self(ts: Seq<Ty>, n: nat, depth: nat)
    requires
        n <= ts.len(),
        forall|i: int| 0 <= i < ts.len() ==> closed(#[trigger] ts[i]),
        forall|i: int| 0 <= i < ts.len() ==> names_unique(#[trigger] ts[i]),
        forall|i: int| 0 <= i < ts.len() ==> nested_within(#[trigger] ts[i], depth),
    ensures
        unify_seq(ts, ts, n, depth) == Ok::<Map<int, Ty>, ErrorModel>(Map::empty()),
    decreases ts, n,
{
    if n > 0 {
        lemma_unify_seq_self(ts, (n - 1) as nat, depth);
        lemma_unify_self(ts[n - 1], depth);
        lemma_apply_empty(ts[n - 1]);
        lemma_compose_empty(Map::empty());
        let e = Map::<int, Ty>::empty();
        assert(unify_seq(ts, ts, (n - 1) as nat, depth) == Ok::<Map<int, Ty>, ErrorModel>(e));
        assert(apply(ts[n - 1], e) == ts[n - 1]);
        assert(unify_spec(ts[n - 1], ts[n - 1], depth) == Ok::<Map<int, Ty>, ErrorModel>(e));
        assert(compose(e, e) == e);
        assert(unify_step(e, ts[n - 1], ts[n - 1], depth) == Ok::<Map<int, Ty>, ErrorModel>(e));
    }
}

/// The first property of a given name, where names are unique, is the
/// property itself.
pub proof fn lemma_find_prop_unique(ps: Seq<Prop>, k: int, n: nat)
    requires
        0 <= k < ps.len(),
        n <= ps.len(),
        forall|i: int, j: int|
            0 <= i < j < ps.len() ==> (#[trigger] ps[i]).name != (#[trigger] ps[j]).name,
    ensures
        find_prop(ps, ps[k].name, n) == if k < n {
            Some(k)
        } else {
            None::<int>
        },
    decreases n,
{
    if n > 0 {
        lemma_find_prop_unique(ps, k, (n - 1) as nat);
    }
}

/// [`lemma_unify_self`] for the first `n` properties of an object type.
pub proof fn lemma_unify_props_self(t: Ty, ps: Seq<Prop>, n: nat, depth: nat)
    requires
        n <= ps.len(),
        forall|i: int, j: int|
            0 <= i < j < ps.len() ==> (#[trigger] ps[i]).name != (#[trigger] ps[j]).name,
        forall|i: int| 0 <= i < ps.len() ==> closed((#[trigger] ps[i]).ty),
        forall|i: int| 0 <= i < ps.len() ==> names_unique((#[trigger] ps[i]).ty),
        forall|i: int| 0 <= i < ps.len() ==> nested_within((#[trigger] ps[i]).ty, depth),
    ensures
        unify_props(t, t, ps, ps, n, depth) == Ok::<Map<int, Ty>, ErrorModel>(Map::empty()),
    decreases ps, n,
{
    if n > 0 {
        lemma_unify_props_self(t, ps, (n - 1) as nat, depth);
        lemma_find_prop_unique(ps, n - 1, ps.len());
        lemma_unify_self(ps[n - 1].ty, depth);
        lemma_apply_empty(ps[n - 1].ty);
        lemma_compose_empty(Map::empty());
        let e = Map::<int, Ty>::empty();
        let x = ps[n - 1].ty;
        assert(unify_props(t, t, ps, ps, (n - 1) as nat, depth) == Ok::<Map<int, Ty>, ErrorModel>(e));
        assert(find_prop(ps, ps[n - 1].name, ps.len()) == Some(n - 1));
        assert(unify_spec(x, x, depth) == Ok::<Map<int, Ty>, ErrorModel>(e));
        assert(compose(e, e) == e);
        assert(unify_step(e, x, x, depth) == Ok::<Map<int, Ty>, ErrorModel>(e));
    }
}

/// Unifying a variable with a type that contains it, and is not the
/// variable itself, fails with the infinite-type error.
pub proof fn lemma_unify_occurs(v: Ty, t: Ty, depth: nat)
    requires
        v.kind is Var,
        occurs(v.id, t),
        !(t.kind is Var && t.id == v.id),
    ensures
        unify_spec(v, t, depth) == Err::<Map<int, Ty>, ErrorModel>(
            ErrorModel::InfiniteType(v.id, t),
        ),
        unify_spec(t, v, depth) == Err::<Map<int, Ty>, ErrorModel>(
            ErrorModel::InfiniteType(v.id, t),
        ),
{
}

} // verus!
