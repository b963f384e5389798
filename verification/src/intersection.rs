//! Simplification of intersections: the object types among the members are
//! merged into one.
use vstd::prelude::*;
use defaultmap::DefaultHashMap;
use crate::context::{fresh_type, moved_on, scope_kept, Context, ContextModel};
use crate::error::{result_model, ErrorModel, InferError};
use crate::names::{index_default, index_entries, index_get, index_insert, index_new, name_le, str_le};
use crate::sorting::{lemma_insert_at, sorted, sorted_prefix};
use crate::types::{
    copy_type, no_props, no_types, prop_models, push_prop, push_type, type_models, Kind, Prop,
    TProp, Ty, Type, Variant,
};
use crate::unify::MAX_DEPTH;
use crate::util::{by_id, contains_same, contains_same_type, sort_by_id};

verus! {

/// The types that the object types of an intersection give to one property
/// name, each once, in the order in which they came.
pub struct Group {
    pub name: Seq<char>,
    pub tys: Seq<Ty>,
}

/// The index of the first group called `name` among the first `n` of `gs`.
pub open spec fn group_index(gs: Seq<Group>, name: Seq<char>, n: nat) -> Option<int>
    decreases n,
{
    if n == 0 {
        None
    } else {
        match group_index(gs, name, (n - 1) as nat) {
            Some(i) => Some(i),
            None => if gs[n - 1].name == name {
                Some(n - 1)
            } else {
                None
            },
        }
    }
}

/// The groups with the type of `p` added under its name, unless a type equal
/// to it is there already.
pub open spec fn group_add(gs: Seq<Group>, p: Prop) -> Seq<Group> {
    match group_index(gs, p.name, gs.len()) {
        Some(i) => if contains_same(gs[i].tys, p.ty) {
            gs
        } else {
            gs.update(i, Group { name: gs[i].name, tys: gs[i].tys.push(p.ty) })
        },
        None => gs.push(Group { name: p.name, tys: seq![p.ty] }),
    }
}

/// The groups with the first `n` of `ps` added.
pub open spec fn group_props(gs: Seq<Group>, ps: Seq<Prop>, n: nat) -> Seq<Group>
    decreases n,
{
    if n == 0 {
        gs
    } else {
        group_add(group_props(gs, ps, (n - 1) as nat), ps[n - 1])
    }
}

/// The groups of the properties of the object types among the first `n` of
/// `ts`.
pub open spec fn group_objects(ts: Seq<Ty>, n: nat) -> Seq<Group>
    decreases n,
{
    if n == 0 {
        Seq::empty()
    } else {
        let gs = group_objects(ts, (n - 1) as nat);
        match ts[n - 1].kind {
            Kind::Object(ps) => group_props(gs, ps, ps.len()),
            _ => gs,
        }
    }
}

/// Those of the first `n` of `ts` that are no object types.
pub open spec fn non_objects(ts: Seq<Ty>, n: nat) -> Seq<Ty>
    decreases n,
{
    if n == 0 {
        Seq::empty()
    } else {
        let before = non_objects(ts, (n - 1) as nat);
        if ts[n - 1].kind is Object {
            before
        } else {
            before.push(ts[n - 1])
        }
    }
}

/// The order of groups by their names.
pub open spec fn by_name() -> spec_fn(Group, Group) -> bool {
    |a: Group, b: Group| str_le(a.name, b.name)
}

/// The members `out` as one type: the one member itself, or an intersection
/// type with a fresh id.
pub open spec fn wrap_members(ctx: ContextModel, out: Seq<Ty>) -> (
    ContextModel,
    Result<Ty, ErrorModel>,
) {
    if out.len() == 1 {
        (ctx, Ok(out[0]))
    } else if !ctx.has_room(1) {
        (ctx, Err(ErrorModel::OutOfIds))
    } else {
        (ctx.advance(1), Ok(fresh_type(Kind::Intersection(out), ctx.count + 1)))
    }
}

/// The type of a property that several object types give: simplified in
/// turn, `depth` levels down; below that the intersection of the types as
/// they are.
pub open spec fn competing_spec(ctx: ContextModel, tys: Seq<Ty>, depth: nat) -> (
    ContextModel,
    Result<Ty, ErrorModel>,
)
    decreases depth, 0nat, 1nat,
{
    if depth == 0 {
        if !ctx.has_room(1) {
            (ctx, Err(ErrorModel::OutOfIds))
        } else {
            (ctx.advance(1), Ok(fresh_type(Kind::Intersection(tys), ctx.count + 1)))
        }
    } else {
        simplify_spec(ctx, tys, (depth - 1) as nat)
    }
}

/// The properties of the merged object type that the first `n` of the
/// groups `gs` give: one for each group, required, of the one type of the
/// group or of the simplified intersection of its types.
pub open spec fn merged_props(ctx: ContextModel, gs: Seq<Group>, n: nat, depth: nat) -> (
    ContextModel,
    Result<Seq<Prop>, ErrorModel>,
)
    decreases depth, 0nat, n + 2,
{
    if n == 0 {
        (ctx, Ok(Seq::empty()))
    } else {
        match merged_props(ctx, gs, (n - 1) as nat, depth) {
            (c, Err(e)) => (c, Err(e)),
            (c, Ok(ps)) => {
                let g = gs[n - 1];
                if g.tys.len() == 1 {
                    (c, Ok(ps.push(Prop { name: g.name, optional: false, ty: g.tys[0] })))
                } else {
                    match competing_spec(c, g.tys, depth) {
                        (c2, Err(e)) => (c2, Err(e)),
                        (c2, Ok(t)) => (c2, Ok(ps.push(Prop { name: g.name, optional: false, ty: t }))),
                    }
                }
            },
        }
    }
}

/// The intersection of `ts`, simplified, and the context after it.
///
/// The properties of the object types among `ts` are grouped by name and the
/// groups put in the order of their names. They make one object type, which
/// joins the members that are no object types; the members are sorted by id.
/// Where one member is left the result is that member.
pub open spec fn simplify_spec(ctx: ContextModel, ts: Seq<Ty>, depth: nat) -> (
    ContextModel,
    Result<Ty, ErrorModel>,
)
    decreases depth, 1nat, 0nat,
{
    let gs = sorted(group_objects(ts, ts.len()), by_name());
    match merged_props(ctx, gs, gs.len(), depth) {
        (c, Err(e)) => (c, Err(e)),
        (c, Ok(props)) => {
            let others = non_objects(ts, ts.len());
            if props.len() > 0 {
                if !c.has_room(1) {
                    (c, Err(ErrorModel::OutOfIds))
                } else {
                    let obj = fresh_type(Kind::Object(props), c.count + 1);
                    wrap_members(c.advance(1), sorted(others.push(obj), by_id()))
                }
            } else {
                wrap_members(c, sorted(others, by_id()))
            }
        },
    }
}

/// An error among the first `n` groups is the error of every longer run.
pub proof fn lemma_merged_props_err(ctx: ContextModel, gs: Seq<Group>, n: nat, m: nat, depth: nat)
    requires
        n <= m,
        merged_props(ctx, gs, n, depth).1 is Err,
    ensures
        merged_props(ctx, gs, m, depth) == merged_props(ctx, gs, n, depth),
    decreases m,
{
    if n < m {
        lemma_merged_props_err(ctx, gs, n, (m - 1) as nat, depth);
    }
}

/// The index found lies among the first `n` and has the name.
pub proof fn lemma_group_index_found(gs: Seq<Group>, name: Seq<char>, n: nat)
    requires
        group_index(gs, name, n) is Some,
    ensures
        0 <= group_index(gs, name, n)->Some_0 < n,
        gs[group_index(gs, name, n)->Some_0].name == name,
    decreases n,
{
    if n > 0 && group_index(gs, name, (n - 1) as nat) is Some {
        lemma_group_index_found(gs, name, (n - 1) as nat);
    }
}

/// The index of a name depends on the names of the groups alone.
pub proof fn lemma_group_index_names(gs: Seq<Group>, hs: Seq<Group>, name: Seq<char>, n: nat)
    requires
        n <= gs.len(),
        n <= hs.len(),
        forall|j: int| 0 <= j < n ==> (#[trigger] gs[j]).name == hs[j].name,
    ensures
        group_index(gs, name, n) == group_index(hs, name, n),
    decreases n,
{
    if n > 0 {
        lemma_group_index_names(gs, hs, name, (n - 1) as nat);
    }
}

/// A group of an intersection under construction.
pub struct NameGroup {
    pub name: String,
    pub tys: Vec<Type>,
}

impl View for NameGroup {
    type V = Group;

    open spec fn view(&self) -> Group {
        Group { name: self.name@, tys: type_models(self.tys) }
    }
}

/// The models of a vector of groups, in order.
pub open spec fn groups_model(gs: Vec<NameGroup>) -> Seq<Group> {
    Seq::new(gs.len() as nat, |i: int| gs[i]@)
}

/// Whether the index gives, for each name, one more than the place of its
/// group, and zero for a name without a group.
pub open spec fn index_matches(m: DefaultHashMap<String, usize>, gs: Seq<Group>) -> bool {
    &&& index_default(m) == 0
    &&& forall|name: Seq<char>| #[trigger]
        index_entries(m).contains_key(name) <==> group_index(gs, name, gs.len()) is Some
    &&& forall|name: Seq<char>| #[trigger]
        index_entries(m).contains_key(name) ==> index_entries(m)[name] == group_index(
            gs,
            name,
            gs.len(),
        )->Some_0 + 1
}

fn add_to_groups(groups: &mut Vec<NameGroup>, index: &mut DefaultHashMap<String, usize>, p: &TProp)
    requires
        index_matches(*old(index), groups_model(*old(groups))),
    ensures
        groups_model(*final(groups)) == group_add(groups_model(*old(groups)), p@),
        index_matches(*final(index), groups_model(*final(groups))),
{
    let ghost gs = groups_model(*groups);
    let k = index_get(index, &p.name);
    if k == 0 {
        assert(group_index(gs, p@.name, gs.len()) is None) by {
            if index_entries(*index).contains_key(p@.name) {
                lemma_group_index_found(gs, p@.name, gs.len());
            }
        }
        let mut tys = no_types();
        push_type(&mut tys, copy_type(&p.ty));
        assert(type_models(tys) =~= seq![p@.ty]);
        groups.push(NameGroup { name: p.name.clone(), tys });
        let place = groups.len();
        index_insert(index, p.name.clone(), place);
        proof {
            let hs = groups_model(*groups);
            assert(hs =~= group_add(gs, p@));
            assert forall|name: Seq<char>| #[trigger]
                index_entries(*index).contains_key(name) <==> group_index(
                    hs,
                    name,
                    hs.len(),
                ) is Some by {
                lemma_group_index_names(gs, hs, name, gs.len());
            }
            assert forall|name: Seq<char>| #[trigger]
                index_entries(*index).contains_key(name) implies index_entries(*index)[name]
                == group_index(hs, name, hs.len())->Some_0 + 1 by {
                lemma_group_index_names(gs, hs, name, gs.len());
            }
        }
    } else {
        let i = k - 1;
        proof {
            assert(index_entries(*index).contains_key(p@.name));
            lemma_group_index_found(gs, p@.name, gs.len());
            assert(group_index(gs, p@.name, gs.len()) == Some(i as int));
        }
        if !contains_same_type(&groups[i].tys, &p.ty) {
            let mut g = groups.remove(i);
            push_type(&mut g.tys, copy_type(&p.ty));
            groups.insert(i, g);
            proof {
                let hs = groups_model(*groups);
                assert(hs =~= group_add(gs, p@));
                assert forall|name: Seq<char>|
                    group_index(hs, name, hs.len()) == group_index(gs, name, gs.len()) by {
                    lemma_group_index_names(gs, hs, name, gs.len());
                }
            }
        }
    }
}

fn copy_group(g: &NameGroup) -> (r: NameGroup)
    ensures
        r@ == g@,
{
    NameGroup { name: g.name.clone(), tys: crate::types::copy_types(&g.tys) }
}

fn sort_groups(gs: &Vec<NameGroup>) -> (r: Vec<NameGroup>)
    ensures
        groups_model(r) == sorted(groups_model(*gs), by_name()),
{
    let mut out: Vec<NameGroup> = Vec::new();
    let mut i: usize = 0;
    assert(groups_model(out) =~= sorted_prefix(groups_model(*gs), 0, by_name()));
    while i < gs.len()
        invariant
            i <= gs.len(),
            out.len() == i,
            groups_model(out) == sorted_prefix(groups_model(*gs), i as nat, by_name()),
        decreases gs.len() - i,
    {
        let g = copy_group(&gs[i]);
        let mut p: usize = out.len();
        while p > 0 && !name_le(out[p - 1].name.as_str(), g.name.as_str())
            invariant
                p <= out.len(),
                forall|j: int|
                    p <= j < out.len() ==> !by_name()(#[trigger] groups_model(out)[j], g@),
            decreases p,
        {
            p -= 1;
        }
        proof {
            if p > 0 {
                assert(by_name()(groups_model(out)[p - 1], g@));
            }
            lemma_insert_at(groups_model(out), g@, by_name(), p as int);
        }
        let ghost before = out;
        out.insert(p, g);
        assert(groups_model(out) =~= groups_model(before).insert(p as int, g@));
        i += 1;
    }
    out
}

fn group_all(ts: &Vec<Type>) -> (r: Vec<NameGroup>)
    ensures
        groups_model(r) == group_objects(type_models(*ts), ts.len() as nat),
{
    let mut groups: Vec<NameGroup> = Vec::new();
    let mut index = index_new();
    let mut i: usize = 0;
    assert(groups_model(groups) =~= Seq::empty());
    while i < ts.len()
        invariant
            i <= ts.len(),
            groups_model(groups) == group_objects(type_models(*ts), i as nat),
            index_matches(index, groups_model(groups)),
        decreases ts.len() - i,
    {
        let t = &ts[i];
        assert(type_models(*ts)[i as int] == t@);
        match &t.variant {
            Variant::Object(ps) => {
                let ghost start = groups_model(groups);
                let mut k: usize = 0;
                assert(prop_models(*ps).len() == ps.len());
                while k < ps.len()
                    invariant
                        k <= ps.len(),
                        groups_model(groups) == group_props(start, prop_models(*ps), k as nat),
                        index_matches(index, groups_model(groups)),
                    decreases ps.len() - k,
                {
                    assert(prop_models(*ps)[k as int] == ps[k as int]@);
                    add_to_groups(&mut groups, &mut index, &ps[k]);
                    k += 1;
                }
            },
            _ => {},
        }
        i += 1;
    }
    groups
}

fn others_of(ts: &Vec<Type>) -> (r: Vec<Type>)
    ensures
        type_models(r) == non_objects(type_models(*ts), ts.len() as nat),
{
    let mut out = no_types();
    let mut i: usize = 0;
    while i < ts.len()
        invariant
            i <= ts.len(),
            type_models(out) == non_objects(type_models(*ts), i as nat),
        decreases ts.len() - i,
    {
        let t = &ts[i];
        assert(type_models(*ts)[i as int] == t@);
        let is_object = match &t.variant {
            Variant::Object(_) => true,
            _ => false,
        };
        if !is_object {
            push_type(&mut out, copy_type(t));
        }
        i += 1;
    }
    out
}

fn wrap(mut out: Vec<Type>, ctx: &mut Context) -> (r: Result<Type, InferError>)
    ensures
        moved_on(old(ctx)@, final(ctx)@),
        scope_kept(old(ctx)@, final(ctx)@),
        final(ctx)@ == wrap_members(old(ctx)@, type_models(out)).0,
        result_model(r) == wrap_members(old(ctx)@, type_models(out)).1,
{
    assert(type_models(out).len() == out.len());
    if out.len() == 1 {
        let ghost all = type_models(out);
        let only = out.pop().unwrap();
        assert(only@ == all[0]);
        Ok(only)
    } else if !ctx.has_room(1) {
        Err(InferError::OutOfIds)
    } else {
        Ok(ctx.intersection(out))
    }
}

fn simplify_at(in_types: &Vec<Type>, ctx: &mut Context, depth: usize) -> (r: Result<
    Type,
    InferError,
>)
    ensures
        moved_on(old(ctx)@, final(ctx)@),
        scope_kept(old(ctx)@, final(ctx)@),
        final(ctx)@ == simplify_spec(old(ctx)@, type_models(*in_types), depth as nat).0,
        result_model(r) == simplify_spec(old(ctx)@, type_models(*in_types), depth as nat).1,
    decreases depth,
{
    assert(type_models(*in_types).len() == in_types.len());
    let groups = sort_groups(&group_all(in_types));
    let ghost gs = groups_model(groups);
    let mut props = no_props();
    let mut i: usize = 0;
    while i < groups.len()
        invariant
            moved_on(old(ctx)@, ctx@),
            scope_kept(old(ctx)@, ctx@),
            i <= groups.len(),
            gs == groups_model(groups),
            gs == sorted(
                group_objects(type_models(*in_types), type_models(*in_types).len()),
                by_name(),
            ),
            merged_props(old(ctx)@, gs, i as nat, depth as nat) == (
                ctx@,
                Ok::<Seq<Prop>, ErrorModel>(prop_models(props)),
            ),
        decreases groups.len() - i,
    {
        let g = &groups[i];
        assert(gs[i as int] == g@);
        assert(type_models(g.tys).len() == g.tys.len());
        let ghost c0 = ctx@;
        let ty = if g.tys.len() == 1 {
            copy_type(&g.tys[0])
        } else {
            let merged = if depth == 0 {
                if !ctx.has_room(1) {
                    Err(InferError::OutOfIds)
                } else {
                    Ok(ctx.intersection(crate::types::copy_types(&g.tys)))
                }
            } else {
                simplify_at(&g.tys, ctx, depth - 1)
            };
            assert(competing_spec(c0, g@.tys, depth as nat) == (ctx@, result_model(merged)));
            match merged {
                Ok(t) => t,
                Err(e) => {
                    proof {
                        assert(merged_props(old(ctx)@, gs, (i + 1) as nat, depth as nat) == (
                            ctx@,
                            Err::<Seq<Prop>, ErrorModel>(e@),
                        ));
                        lemma_merged_props_err(
                            old(ctx)@,
                            gs,
                            (i + 1) as nat,
                            gs.len(),
                            depth as nat,
                        );
                    }
                    return Err(e);
                },
            }
        };
        let ghost before = prop_models(props);
        push_prop(&mut props, TProp { name: g.name.clone(), optional: false, ty });
        assert(merged_props(old(ctx)@, gs, (i + 1) as nat, depth as nat) == (
            ctx@,
            Ok::<Seq<Prop>, ErrorModel>(before.push(Prop { name: g@.name, optional: false, ty: ty@ })),
        ));
        i += 1;
    }
    let mut out = others_of(in_types);
    assert(prop_models(props).len() == props.len());
    if props.len() > 0 {
        if !ctx.has_room(1) {
            return Err(InferError::OutOfIds);
        }
        let obj = ctx.object(props);
        push_type(&mut out, obj);
    }
    wrap(sort_by_id(&out), ctx)
}

/// The intersection of `in_types`, simplified: the object types among them
/// merged into one, the members sorted by id, and a single member left bare.
///
/// The recursion is bounded: the types that several objects give to one
/// property are simplified in turn [`MAX_DEPTH`] levels down; below that
/// they are joined in an intersection as they are.
pub fn simplify_intersection(in_types: &Vec<Type>, ctx: &mut Context) -> (r: Result<
    Type,
    InferError,
>)
    ensures
        moved_on(old(ctx)@, final(ctx)@),
        scope_kept(old(ctx)@, final(ctx)@),
        final(ctx)@ == simplify_spec(old(ctx)@, type_models(*in_types), MAX_DEPTH as nat).0,
        result_model(r) == simplify_spec(old(ctx)@, type_models(*in_types), MAX_DEPTH as nat).1,
{
    simplify_at(in_types, ctx, MAX_DEPTH)
}

} // verus!
