//! Substitutions: finite maps from variable ids to types, their application
//! to types and their composition.
use std::collections::HashMap;
use vstd::prelude::*;
use vstd::std_specs::hash::spec_keys_iter;
use vstd::std_specs::iter::IteratorSpec;
use crate::types::{
    copy_type, ids_model, prop_model, prop_models, type_model, type_models, AliasType, Kind, LamType,
    MemberType, Prop, Scheme, SchemeModel, TProp, Ty, Type, Variant,
};

verus! {

/// Whether the variable `id` occurs in `t`.
pub open spec fn occurs(id: int, t: Ty) -> bool
    decreases t,
{
    match t.kind {
        Kind::Var => t.id == id,
        Kind::Lam { params, ret, .. } => occurs_any(id, params) || occurs(id, *ret),
        Kind::Prim(_) => false,
        Kind::Lit(_) => false,
        Kind::Union(ts) => occurs_any(id, ts),
        Kind::Intersection(ts) => occurs_any(id, ts),
        Kind::Object(ps) => occurs_any_prop(id, ps),
        Kind::Alias { args, .. } => match args {
            Some(ts) => occurs_any(id, ts),
            None => false,
        },
        Kind::Tuple(ts) => occurs_any(id, ts),
        Kind::Array(e) => occurs(id, *e),
        Kind::Rest(e) => occurs(id, *e),
        Kind::Member { obj, .. } => occurs(id, *obj),
    }
}

/// Whether the variable `id` occurs in one of `ts`.
pub open spec fn occurs_any(id: int, ts: Seq<Ty>) -> bool
    decreases ts,
{
    exists|i: int| 0 <= i < ts.len() && occurs(id, #[trigger] ts[i])
}

/// Whether the variable `id` occurs in the type of one of `ps`.
pub open spec fn occurs_any_prop(id: int, ps: Seq<Prop>) -> bool
    decreases ps,
{
    exists|i: int| 0 <= i < ps.len() && occurs(id, (#[trigger] ps[i]).ty)
}

/// The free variables of a type.
pub open spec fn ftv(t: Ty) -> Set<int> {
    Set::new(|id: int| occurs(id, t))
}

/// The free variables of a scheme: those of its type that it does not
/// quantify over.
pub open spec fn ftv_scheme(sc: SchemeModel) -> Set<int> {
    Set::new(|id: int| occurs(id, sc.ty) && !sc.qualifiers.contains(id))
}

/// `t` with each variable that `s` maps replaced by its image. The
/// replacement is made once: `s` is not applied to the images.
pub open spec fn apply(t: Ty, s: Map<int, Ty>) -> Ty
    decreases t,
{
    match t.kind {
        Kind::Var => if s.contains_key(t.id) {
            s[t.id]
        } else {
            t
        },
        Kind::Lam { params, ret, is_call } => Ty {
            kind: Kind::Lam { params: apply_all(params, s), ret: Box::new(apply(*ret, s)), is_call },
            ..t
        },
        Kind::Prim(_) => t,
        Kind::Lit(_) => t,
        Kind::Union(ts) => Ty { kind: Kind::Union(apply_all(ts, s)), ..t },
        Kind::Intersection(ts) => Ty { kind: Kind::Intersection(apply_all(ts, s)), ..t },
        Kind::Object(ps) => Ty { kind: Kind::Object(apply_props(ps, s)), ..t },
        Kind::Alias { name, args } => Ty {
            kind: Kind::Alias {
                name,
                args: match args {
                    Some(ts) => Some(apply_all(ts, s)),
                    None => None,
                },
            },
            ..t
        },
        Kind::Tuple(ts) => Ty { kind: Kind::Tuple(apply_all(ts, s)), ..t },
        Kind::Array(e) => Ty { kind: Kind::Array(Box::new(apply(*e, s))), ..t },
        Kind::Rest(e) => Ty { kind: Kind::Rest(Box::new(apply(*e, s))), ..t },
        Kind::Member { obj, prop } => Ty {
            kind: Kind::Member { obj: Box::new(apply(*obj, s)), prop },
            ..t
        },
    }
}

/// [`apply`] on each type of a sequence.
pub open spec fn apply_all(ts: Seq<Ty>, s: Map<int, Ty>) -> Seq<Ty>
    decreases ts,
{
    Seq::new(ts.len(), |i: int| if 0 <= i < ts.len() { apply(ts[i], s) } else { arbitrary() })
}

/// [`apply`] on the type of each property of a sequence.
pub open spec fn apply_props(ps: Seq<Prop>, s: Map<int, Ty>) -> Seq<Prop>
    decreases ps,
{
    Seq::new(
        ps.len(),
        |i: int|
            if 0 <= i < ps.len() {
                Prop { name: ps[i].name, optional: ps[i].optional, ty: apply(ps[i].ty, s) }
            } else {
                arbitrary()
            },
    )
}

/// [`apply`] on a scheme: the variables that the scheme quantifies over are
/// bound, so `s` does not touch them.
pub open spec fn apply_scheme(sc: SchemeModel, s: Map<int, Ty>) -> SchemeModel {
    SchemeModel { qualifiers: sc.qualifiers, ty: apply(sc.ty, s.remove_keys(sc.qualifiers.to_set())) }
}

/// The composition "`s2`, then `s1`": `s1` is applied to every image of `s2`,
/// and the entries of `s1` for variables that `s2` does not map are added.
pub open spec fn compose(s1: Map<int, Ty>, s2: Map<int, Ty>) -> Map<int, Ty> {
    Map::new(
        |k: int| s1.contains_key(k) || s2.contains_key(k),
        |k: int|
            if s2.contains_key(k) {
                apply(s2[k], s1)
            } else {
                s1[k]
            },
    )
}

/// The composition of a sequence of substitutions, folded from the left
/// starting with the empty substitution.
pub open spec fn compose_many(ss: Seq<Map<int, Ty>>) -> Map<int, Ty>
    decreases ss.len(),
{
    if ss.len() == 0 {
        Map::empty()
    } else {
        compose(compose_many(ss.drop_last()), ss.last())
    }
}

/// Applying a substitution to a type in which none of its variables occurs
/// leaves the type as it is.
pub proof fn lemma_apply_untouched(t: Ty, s: Map<int, Ty>)
    requires
        forall|k: int| #[trigger] s.contains_key(k) ==> !occurs(k, t),
    ensures
        apply(t, s) == t,
    decreases t,
{
    match t.kind {
        Kind::Var => {},
        Kind::Lam { params, ret, is_call } => {
            lemma_apply_all_untouched(params, s);
            lemma_apply_untouched(*ret, s);
        },
        Kind::Prim(_) => {},
        Kind::Lit(_) => {},
        Kind::Union(ts) => {
            lemma_apply_all_untouched(ts, s);
        },
        Kind::Intersection(ts) => {
            lemma_apply_all_untouched(ts, s);
        },
        Kind::Object(ps) => {
            assert forall|i: int| 0 <= i < ps.len() implies apply(#[trigger] ps[i].ty, s)
                == ps[i].ty by {
                assert forall|k: int| #[trigger] s.contains_key(k) implies !occurs(k, ps[i].ty) by {
                    assert(!occurs_any_prop(k, ps));
                }
                lemma_apply_untouched(ps[i].ty, s);
            }
            assert(apply_props(ps, s) =~= ps);
        },
        Kind::Alias { name, args } => {
            match args {
                Some(ts) => {
                    lemma_apply_all_untouched(ts, s);
                },
                None => {},
            }
        },
        Kind::Tuple(ts) => {
            lemma_apply_all_untouched(ts, s);
        },
        Kind::Array(e) => {
            lemma_apply_untouched(*e, s);
        },
        Kind::Rest(e) => {
            lemma_apply_untouched(*e, s);
        },
        Kind::Member { obj, prop } => {
            lemma_apply_untouched(*obj, s);
        },
    }
}

/// [`lemma_apply_untouched`] for a sequence of types.
pub proof fn lemma_apply_all_untouched(ts: Seq<Ty>, s: Map<int, Ty>)
    requires
        forall|k: int| #[trigger] s.contains_key(k) ==> !occurs_any(k, ts),
    ensures
        apply_all(ts, s) == ts,
    decreases ts,
{
    assert forall|i: int| 0 <= i < ts.len() implies apply(#[trigger] ts[i], s) == ts[i] by {
        lemma_apply_untouched(ts[i], s);
    }
    assert(apply_all(ts, s) =~= ts);
}

/// Applying a substitution a second time changes nothing once none of the
/// variables that it maps is free in the result of the first application.
pub proof fn lemma_apply_twice(t: Ty, s: Map<int, Ty>)
    requires
        s.dom().disjoint(ftv(apply(t, s))),
    ensures
        apply(apply(t, s), s) == apply(t, s),
{
    assert forall|k: int| #[trigger] s.contains_key(k) implies !occurs(k, apply(t, s)) by {
        assert(s.dom().contains(k));
        assert(!ftv(apply(t, s)).contains(k));
    }
    lemma_apply_untouched(apply(t, s), s);
}

/// The empty substitution leaves every type as it is.
pub proof fn lemma_apply_empty(t: Ty)
    ensures
        apply(t, Map::empty()) == t,
{
    lemma_apply_untouched(t, Map::empty());
}

/// Applying a composition is applying its second part and then its first.
pub proof fn lemma_apply_compose(t: Ty, s1: Map<int, Ty>, s2: Map<int, Ty>)
    ensures
        apply(t, compose(s1, s2)) == apply(apply(t, s2), s1),
    decreases t,
{
    match t.kind {
        Kind::Var => {},
        Kind::Lam { params, ret, is_call } => {
            lemma_apply_all_compose(params, s1, s2);
            lemma_apply_compose(*ret, s1, s2);
        },
        Kind::Prim(_) => {},
        Kind::Lit(_) => {},
        Kind::Union(ts) => {
            lemma_apply_all_compose(ts, s1, s2);
        },
        Kind::Intersection(ts) => {
            lemma_apply_all_compose(ts, s1, s2);
        },
        Kind::Object(ps) => {
            assert forall|i: int| 0 <= i < ps.len() implies apply(
                #[trigger] ps[i].ty,
                compose(s1, s2),
            ) == apply(apply(ps[i].ty, s2), s1) by {
                lemma_apply_compose(ps[i].ty, s1, s2);
            }
            assert(apply_props(ps, compose(s1, s2)) =~= apply_props(apply_props(ps, s2), s1));
        },
        Kind::Alias { name, args } => {
            match args {
                Some(ts) => {
                    lemma_apply_all_compose(ts, s1, s2);
                },
                None => {},
            }
        },
        Kind::Tuple(ts) => {
            lemma_apply_all_compose(ts, s1, s2);
        },
        Kind::Array(e) => {
            lemma_apply_compose(*e, s1, s2);
        },
        Kind::Rest(e) => {
            lemma_apply_compose(*e, s1, s2);
        },
        Kind::Member { obj, prop } => {
            lemma_apply_compose(*obj, s1, s2);
        },
    }
}

/// [`lemma_apply_compose`] for a sequence of types.
pub proof fn lemma_apply_all_compose(ts: Seq<Ty>, s1: Map<int, Ty>, s2: Map<int, Ty>)
    ensures
        apply_all(ts, compose(s1, s2)) == apply_all(apply_all(ts, s2), s1),
    decreases ts,
{
    assert forall|i: int| 0 <= i < ts.len() implies apply(#[trigger] ts[i], compose(s1, s2))
        == apply(apply(ts[i], s2), s1) by {
        lemma_apply_compose(ts[i], s1, s2);
    }
    assert(apply_all(ts, compose(s1, s2)) =~= apply_all(apply_all(ts, s2), s1));
}

/// Composition of substitutions is associative.
pub proof fn lemma_compose_associative(a: Map<int, Ty>, b: Map<int, Ty>, c: Map<int, Ty>)
    ensures
        compose(a, compose(b, c)) == compose(compose(a, b), c),
{
    let l = compose(a, compose(b, c));
    let r = compose(compose(a, b), c);
    assert forall|k: int| l.contains_key(k) implies #[trigger] l[k] == r[k] by {
        if c.contains_key(k) {
            lemma_apply_compose(c[k], a, b);
        }
    }
    assert(l =~= r);
}

/// Composing a sequence of substitutions is composing what its two halves
/// compose to, wherever it is cut.
pub proof fn lemma_compose_many_concat(a: Seq<Map<int, Ty>>, b: Seq<Map<int, Ty>>)
    ensures
        compose_many(a + b) == compose(compose_many(a), compose_many(b)),
    decreases b.len(),
{
    if b.len() == 0 {
        assert(a + b =~= a);
        lemma_compose_empty(compose_many(a));
    } else {
        let front = b.drop_last();
        lemma_compose_many_concat(a, front);
        assert((a + b).drop_last() =~= a + front);
        assert((a + b).last() == b.last());
        lemma_compose_associative(compose_many(a), compose_many(front), b.last());
    }
}

/// The empty substitution is a unit of composition on both sides.
pub proof fn lemma_compose_empty(s: Map<int, Ty>)
    ensures
        compose(Map::empty(), s) == s,
        compose(s, Map::empty()) == s,
{
    assert forall|k: int| s.contains_key(k) implies apply(#[trigger] s[k], Map::empty())
        == s[k] by {
        lemma_apply_empty(s[k]);
    }
    assert(compose(Map::empty(), s) =~= s);
    assert(compose(s, Map::empty()) =~= s);
}

/// A substitution: a finite map from the ids of variables to types.
#[derive(Debug)]
pub struct Subst {
    pub map: HashMap<i32, Type>,
}

impl View for Subst {
    type V = Map<int, Ty>;

    open spec fn view(&self) -> Map<int, Ty> {
        Map::new(
            |k: int| i32::MIN <= k <= i32::MAX && self.map@.contains_key(k as i32),
            |k: int| self.map@[k as i32]@,
        )
    }
}

/// The part of `m` for the first `n` of the variables `ks`.
pub open spec fn restricted(m: Map<int, Ty>, ks: Seq<int>, n: int) -> Map<int, Ty> {
    Map::new(
        |k: int| m.contains_key(k) && exists|j: int| 0 <= j < n && #[trigger] ks[j] == k,
        |k: int| m[k],
    )
}

/// The part of a map for all its variables is the map.
pub proof fn lemma_restricted_all(m: Map<int, Ty>, ks: Seq<int>)
    requires
        forall|v: int| ks.contains(v) <==> m.contains_key(v),
    ensures
        restricted(m, ks, ks.len() as int) == m,
{
    assert forall|v: int| m.contains_key(v) implies restricted(
        m,
        ks,
        ks.len() as int,
    ).contains_key(v) by {
        assert(ks.contains(v));
        let j = choose|j: int| 0 <= j < ks.len() && ks[j] == v;
        assert(ks[j] == v);
    }
    assert(restricted(m, ks, ks.len() as int) =~= m);
}

impl Subst {
    /// The empty substitution.
    pub fn new() -> (r: Subst)
        ensures
            r@ == Map::<int, Ty>::empty(),
    {
        let r = Subst { map: HashMap::new() };
        assert(r@ =~= Map::<int, Ty>::empty());
        r
    }

    /// The substitution that maps `id` to `ty` and nothing else.
    pub fn singleton(id: i32, ty: Type) -> (r: Subst)
        ensures
            r@ == Map::<int, Ty>::empty().insert(id as int, ty@),
    {
        let mut r = Subst::new();
        r.insert(id, ty);
        r
    }

    /// Maps `id` to `ty`, in place of what `id` was mapped to before.
    pub fn insert(&mut self, id: i32, ty: Type)
        ensures
            final(self)@ == old(self)@.insert(id as int, ty@),
    {
        self.map.insert(id, ty);
        assert(self@ =~= old(self)@.insert(id as int, ty@));
    }

    /// The image of `id`, if it has one.
    pub fn get(&self, id: i32) -> (r: Option<&Type>)
        ensures
            match r {
                Some(t) => self@.contains_key(id as int) && t@ == self@[id as int],
                None => !self@.contains_key(id as int),
            },
    {
        self.map.get(&id)
    }

    /// Whether `id` has an image.
    pub fn contains(&self, id: i32) -> (r: bool)
        ensures
            r == self@.contains_key(id as int),
    {
        self.get(id).is_some()
    }

    /// The variables that are mapped, each once, in no particular order.
    pub fn keys(&self) -> (r: Vec<i32>)
        ensures
            ids_model(r).no_duplicates(),
            forall|v: int| ids_model(r).contains(v) <==> self@.contains_key(v),
    {
        let mut out: Vec<i32> = Vec::new();
        let ghost all = spec_keys_iter(&self.map).remaining();
        for k in it: self.map.keys()
            invariant
                it.seq() == all,
                out@.len() == it.index(),
                forall|j: int| 0 <= j < out.len() ==> out@[j] == *it.seq()[j],
        {
            out.push(*k);
        }
        proof {
            assert(out@ =~= all.unref());
            assert(all.unref().to_set() == self.map@.dom());
            let ks = ids_model(out);
            assert forall|a: int, b: int| 0 <= a < ks.len() && 0 <= b < ks.len() && a != b implies ks[a]
                != ks[b] by {
                assert(out@[a] != out@[b]);
            }
            assert forall|v: int| ks.contains(v) <==> self@.contains_key(v) by {
                if ks.contains(v) {
                    let a = choose|a: int| 0 <= a < ks.len() && ks[a] == v;
                    assert(out@[a] as int == v);
                    assert(out@.contains(out@[a]));
                    assert(out@.to_set().contains(out@[a]));
                }
                if self@.contains_key(v) {
                    assert(out@.to_set().contains(v as i32));
                    let a = choose|a: int| 0 <= a < out@.len() && out@[a] == v as i32;
                    assert(ks[a] == v);
                }
            }
        }
        out
    }

    /// Whether nothing is mapped.
    pub fn is_empty(&self) -> (r: bool)
        ensures
            r == (self@ == Map::<int, Ty>::empty()),
    {
        let keys = self.keys();
        let r = keys.len() == 0;
        proof {
            let ks = ids_model(keys);
            if r {
                assert forall|v: int| !self@.contains_key(v) by {
                    assert(!ks.contains(v));
                }
                assert(self@ =~= Map::<int, Ty>::empty());
            } else {
                assert(ks.contains(ks[0]));
            }
        }
        r
    }

    /// A copy of the image of `id`.
    fn image(&self, id: i32) -> (r: Type)
        requires
            self@.contains_key(id as int),
        ensures
            r@ == self@[id as int],
    {
        match self.get(id) {
            Some(t) => copy_type(t),
            None => Type { variant: Variant::Var, id, frozen: false },
        }
    }

    /// The substitution without the variables listed in `ids`.
    pub fn without(&self, ids: &Vec<i32>) -> (r: Subst)
        ensures
            r@ == self@.remove_keys(ids_model(*ids).to_set()),
    {
        let mut out = Subst::new();
        let keys = self.keys();
        let ghost ks = ids_model(keys);
        let ghost gone = ids_model(*ids).to_set();
        let mut i: usize = 0;
        assert(out@ =~= restricted(self@, ks, 0).remove_keys(gone));
        while i < keys.len()
            invariant
                i <= keys.len(),
                ks == ids_model(keys),
                gone == ids_model(*ids).to_set(),
                forall|v: int| ks.contains(v) <==> self@.contains_key(v),
                out@ == restricted(self@, ks, i as int).remove_keys(gone),
            decreases keys.len() - i,
        {
            let id = keys[i];
            assert(ks[i as int] == id as int);
            assert(ks.contains(id as int));
            if !contains_id(ids, id) {
                out.insert(id, self.image(id));
            }
            assert(out@ =~= restricted(self@, ks, i + 1).remove_keys(gone));
            i += 1;
        }
        proof {
            lemma_restricted_all(self@, ks);
        }
        out
    }
}

impl Clone for Subst {
    fn clone(&self) -> (r: Subst)
        ensures
            r@ == self@,
    {
        let none: Vec<i32> = Vec::new();
        let r = self.without(&none);
        assert(ids_model(none).to_set() =~= Set::<int>::empty());
        assert(r@ =~= self@);
        r
    }
}

/// Whether `id` is one of `ids`.
pub fn contains_id(ids: &Vec<i32>, id: i32) -> (r: bool)
    ensures
        r == ids_model(*ids).contains(id as int),
{
    let mut i: usize = 0;
    while i < ids.len()
        invariant
            i <= ids.len(),
            forall|j: int| 0 <= j < i ==> ids[j] != id,
        decreases ids.len() - i,
    {
        if ids[i] == id {
            assert(ids_model(*ids)[i as int] == id as int);
            return true;
        }
        i += 1;
    }
    assert forall|j: int| 0 <= j < ids_model(*ids).len() implies ids_model(*ids)[j] != id as int by {
        assert(ids[j] != id);
    }
    false
}

/// Whether the variable `id` occurs in `t`.
pub fn occurs_in(id: i32, t: &Type) -> (r: bool)
    ensures
        r == occurs(id as int, t@),
    decreases t,
{
    match &t.variant {
        Variant::Var => t.id == id,
        Variant::Lam(lam) => {
            let r = occurs_in_any(id, &lam.params) || occurs_in(id, &lam.ret);
            r
        },
        Variant::Prim(_) => false,
        Variant::Lit(_) => false,
        Variant::Union(ts) => occurs_in_any(id, ts),
        Variant::Intersection(ts) => occurs_in_any(id, ts),
        Variant::Object(ps) => occurs_in_props(id, ps),
        Variant::Alias(a) => match &a.type_params {
            Some(ts) => occurs_in_any(id, ts),
            None => false,
        },
        Variant::Tuple(ts) => occurs_in_any(id, ts),
        Variant::Array(e) => occurs_in(id, e),
        Variant::Rest(e) => occurs_in(id, e),
        Variant::Member(m) => occurs_in(id, &m.obj),
    }
}

/// Whether the variable `id` occurs in one of `ts`.
pub fn occurs_in_any(id: i32, ts: &Vec<Type>) -> (r: bool)
    ensures
        r == occurs_any(id as int, type_models(*ts)),
    decreases ts,
{
    let mut i: usize = 0;
    while i < ts.len()
        invariant
            i <= ts.len(),
            forall|j: int| 0 <= j < i ==> !occurs(id as int, #[trigger] type_models(*ts)[j]),
        decreases ts.len() - i,
    {
        if occurs_in(id, &ts[i]) {
            assert(occurs(id as int, type_models(*ts)[i as int]));
            return true;
        }
        i += 1;
    }
    false
}

/// Whether the variable `id` occurs in the type of one of `ps`.
pub fn occurs_in_props(id: i32, ps: &Vec<TProp>) -> (r: bool)
    ensures
        r == occurs_any_prop(id as int, prop_models(*ps)),
    decreases ps,
{
    let mut i: usize = 0;
    while i < ps.len()
        invariant
            i <= ps.len(),
            forall|j: int| 0 <= j < i ==> !occurs(id as int, (#[trigger] prop_models(*ps)[j]).ty),
        decreases ps.len() - i,
    {
        if occurs_in(id, &ps[i].ty) {
            assert(occurs(id as int, prop_models(*ps)[i as int].ty));
            return true;
        }
        i += 1;
    }
    false
}

/// `t` with each variable that `s` maps replaced by its image.
pub fn apply_type(t: &Type, s: &Subst) -> (r: Type)
    ensures
        r@ == apply(t@, s@),
    decreases t,
{
    let variant = match &t.variant {
        Variant::Var => {
            return match s.get(t.id) {
                Some(image) => copy_type(image),
                None => copy_type(t),
            };
        },
        Variant::Lam(lam) => Variant::Lam(
            LamType {
                params: apply_types(&lam.params, s),
                ret: Box::new(apply_type(&lam.ret, s)),
                is_call: lam.is_call,
            },
        ),
        Variant::Prim(p) => Variant::Prim(*p),
        Variant::Lit(l) => Variant::Lit(l.clone()),
        Variant::Union(ts) => Variant::Union(apply_types(ts, s)),
        Variant::Intersection(ts) => Variant::Intersection(apply_types(ts, s)),
        Variant::Object(ps) => Variant::Object(apply_tprops(ps, s)),
        Variant::Alias(a) => Variant::Alias(
            AliasType {
                name: a.name.clone(),
                type_params: match &a.type_params {
                    Some(ts) => Some(apply_types(ts, s)),
                    None => None,
                },
            },
        ),
        Variant::Tuple(ts) => Variant::Tuple(apply_types(ts, s)),
        Variant::Array(e) => Variant::Array(Box::new(apply_type(e, s))),
        Variant::Rest(e) => Variant::Rest(Box::new(apply_type(e, s))),
        Variant::Member(m) => Variant::Member(
            MemberType { obj: Box::new(apply_type(&m.obj, s)), prop: m.prop.clone() },
        ),
    };
    Type { variant, id: t.id, frozen: t.frozen }
}

/// [`apply_type`] on each type of a vector.
pub fn apply_types(ts: &Vec<Type>, s: &Subst) -> (r: Vec<Type>)
    ensures
        type_models(r) == apply_all(type_models(*ts), s@),
    decreases ts,
{
    let mut out: Vec<Type> = Vec::new();
    let mut i: usize = 0;
    while i < ts.len()
        invariant
            i <= ts.len(),
            out.len() == i,
            forall|j: int| 0 <= j < i ==> type_model(#[trigger] out[j]) == apply(type_model(ts[j]), s@),
        decreases ts.len() - i,
    {
        out.push(apply_type(&ts[i], s));
        i += 1;
    }
    assert(type_models(out) =~= apply_all(type_models(*ts), s@));
    out
}

/// [`apply_type`] on the type of each property of a vector.
pub fn apply_tprops(ps: &Vec<TProp>, s: &Subst) -> (r: Vec<TProp>)
    ensures
        prop_models(r) == apply_props(prop_models(*ps), s@),
    decreases ps,
{
    let mut out: Vec<TProp> = Vec::new();
    let mut i: usize = 0;
    while i < ps.len()
        invariant
            i <= ps.len(),
            out.len() == i,
            forall|j: int|
                0 <= j < i ==> prop_model(#[trigger] out[j]) == apply_props(prop_models(*ps), s@)[j],
        decreases ps.len() - i,
    {
        let p = &ps[i];
        out.push(TProp { name: p.name.clone(), optional: p.optional, ty: apply_type(&p.ty, s) });
        i += 1;
    }
    assert(prop_models(out) =~= apply_props(prop_models(*ps), s@));
    out
}

impl Type {
    /// The type with each variable that `s` maps replaced by its image.
    pub fn apply(&self, s: &Subst) -> (r: Type)
        ensures
            r@ == apply(self@, s@),
    {
        apply_type(self, s)
    }
}

impl Scheme {
    /// The scheme with `s` applied to its type, but for the variables that it
    /// quantifies over.
    pub fn apply(&self, s: &Subst) -> (r: Scheme)
        ensures
            r@ == apply_scheme(self@, s@),
    {
        let inner = s.without(&self.qualifiers);
        let r = Scheme {
            qualifiers: crate::types::copy_ids(&self.qualifiers),
            ty: apply_type(&self.ty, &inner),
        };
        assert(ids_model(r.qualifiers) =~= ids_model(self.qualifiers));
        r
    }
}

/// The composition "`s1`, then `s2`": `s2` applied to every image of `s1`,
/// and the entries of `s2` for the variables that `s1` does not map.
pub fn compose_subs(s2: &Subst, s1: &Subst) -> (r: Subst)
    ensures
        r@ == compose(s2@, s1@),
{
    let mut out = s2.clone();
    let keys = s1.keys();
    let ghost ks = ids_model(keys);
    let mut k: usize = 0;
    assert(out@ =~= compose(s2@, restricted(s1@, ks, 0)));
    while k < keys.len()
        invariant
            k <= keys.len(),
            ks == ids_model(keys),
            forall|v: int| ks.contains(v) <==> s1@.contains_key(v),
            out@ == compose(s2@, restricted(s1@, ks, k as int)),
        decreases keys.len() - k,
    {
        let id = keys[k];
        assert(ks[k as int] == id as int);
        assert(ks.contains(id as int));
        let image = match s1.get(id) {
            Some(t) => apply_type(t, s2),
            None => Type { variant: Variant::Var, id, frozen: false },
        };
        out.insert(id, image);
        assert(out@ =~= compose(s2@, restricted(s1@, ks, k + 1)));
        k += 1;
    }
    proof {
        lemma_restricted_all(s1@, ks);
    }
    out
}

/// The models of a sequence of substitutions, in order.
pub open spec fn subst_models(ss: Seq<Subst>) -> Seq<Map<int, Ty>> {
    Seq::new(ss.len(), |i: int| ss[i]@)
}

/// The composition of all of `subs`, folded from the left starting with the
/// empty substitution.
pub fn compose_many_subs(subs: &[Subst]) -> (r: Subst)
    ensures
        r@ == compose_many(subst_models(subs@)),
{
    let mut acc = Subst::new();
    let mut i: usize = 0;
    assert(subst_models(subs@).take(0) =~= Seq::empty());
    while i < subs.len()
        invariant
            i <= subs.len(),
            acc@ == compose_many(subst_models(subs@).take(i as int)),
        decreases subs.len() - i,
    {
        let next = compose_subs(&acc, &subs[i]);
        proof {
            let pre = subst_models(subs@).take(i + 1);
            assert(pre.drop_last() =~= subst_models(subs@).take(i as int));
            assert(pre.last() == subs@[i as int]@);
        }
        acc = next;
        i += 1;
    }
    assert(subst_models(subs@).take(subs.len() as int) =~= subst_models(subs@));
    acc
}

/// Pushes a substitution, and says what that does to the models.
pub fn push_subst(v: &mut Vec<Subst>, s: Subst)
    ensures
        subst_models(final(v)@) == subst_models(old(v)@).push(s@),
        final(v)@ == old(v)@.push(s),
{
    v.push(s);
    assert(subst_models(v@) =~= subst_models(old(v)@).push(s@));
}

/// An empty vector of substitutions.
pub fn no_substs() -> (v: Vec<Subst>)
    ensures
        subst_models(v@) == Seq::<Map<int, Ty>>::empty(),
        v@.len() == 0,
{
    let v: Vec<Subst> = Vec::new();
    assert(subst_models(v@) =~= Seq::<Map<int, Ty>>::empty());
    v
}

/// The composition of all the substitutions of a vector.
pub fn compose_all(subs: &Vec<Subst>) -> (r: Subst)
    ensures
        r@ == compose_many(subst_models(subs@)),
{
    compose_many_subs(subs.as_slice())
}

} // verus!
