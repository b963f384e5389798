//! From the types that a program writes to the types of the engine.
use vstd::prelude::*;
use crate::ast::{lit_model, TPropAnn, TypeAnn};
use crate::context::{make_spec, moved_on, scope_kept, Context, ContextModel};
use crate::env::Env;
use crate::error::{ErrorModel, InferError};
use crate::types::{
    copy_type, no_props, no_types, prop_models, push_prop, push_type, type_models, AliasType, Kind,
    LamType, Lit, Prop, SchemeModel, TProp, Ty, Type, Variant,
};
use crate::util::{outcome, Outcome};

verus! {

/// [`make_spec`] as an outcome.
pub open spec fn make(ctx: ContextModel, kind: Kind) -> Outcome<Ty> {
    Outcome { ctx: make_spec(ctx, kind).0, res: make_spec(ctx, kind).1 }
}

/// The type that the annotation `ann` stands for, built from the leaves up,
/// each type with a fresh id. A name that `params` binds, written without
/// arguments, stands for the type bound to it; every other name is a
/// reference to a named type.
pub open spec fn ann_spec(ctx: ContextModel, ann: TypeAnn, params: Map<Seq<char>, SchemeModel>) -> Outcome<
    Ty,
>
    decreases ann, 0nat,
{
    match ann {
        TypeAnn::Lam { params: ps, ret } => {
            let a = ann_all(ctx, ps, ps.len() as nat, params);
            match a.res {
                Err(e) => Outcome { ctx: a.ctx, res: Err(e) },
                Ok(pts) => {
                    let r = ann_spec(a.ctx, *ret, params);
                    match r.res {
                        Err(e) => Outcome { ctx: r.ctx, res: Err(e) },
                        Ok(rt) => make(
                            r.ctx,
                            Kind::Lam { params: pts, ret: Box::new(rt), is_call: false },
                        ),
                    }
                },
            }
        },
        TypeAnn::Lit(l) => make(ctx, Kind::Lit(lit_model(l))),
        TypeAnn::Prim(p) => make(ctx, Kind::Prim(p)),
        TypeAnn::Object(props) => {
            let a = ann_props(ctx, props, props.len() as nat, params);
            match a.res {
                Err(e) => Outcome { ctx: a.ctx, res: Err(e) },
                Ok(ps) => make(a.ctx, Kind::Object(ps)),
            }
        },
        TypeAnn::TypeRef { name, type_params } => match type_params {
            None => if params.contains_key(name@) {
                Outcome { ctx, res: Ok(params[name@].ty) }
            } else {
                make(ctx, Kind::Alias { name: name@, args: None })
            },
            Some(args) => {
                let a = ann_all(ctx, args, args.len() as nat, params);
                match a.res {
                    Err(e) => Outcome { ctx: a.ctx, res: Err(e) },
                    Ok(ts) => make(a.ctx, Kind::Alias { name: name@, args: Some(ts) }),
                }
            },
        },
        TypeAnn::Union(anns) => {
            let a = ann_all(ctx, anns, anns.len() as nat, params);
            match a.res {
                Err(e) => Outcome { ctx: a.ctx, res: Err(e) },
                Ok(ts) => make(a.ctx, Kind::Union(ts)),
            }
        },
        TypeAnn::Intersection(anns) => {
            let a = ann_all(ctx, anns, anns.len() as nat, params);
            match a.res {
                Err(e) => Outcome { ctx: a.ctx, res: Err(e) },
                Ok(ts) => make(a.ctx, Kind::Intersection(ts)),
            }
        },
        TypeAnn::Tuple(anns) => {
            let a = ann_all(ctx, anns, anns.len() as nat, params);
            match a.res {
                Err(e) => Outcome { ctx: a.ctx, res: Err(e) },
                Ok(ts) => make(a.ctx, Kind::Tuple(ts)),
            }
        },
        TypeAnn::Array(elem) => {
            let r = ann_spec(ctx, *elem, params);
            match r.res {
                Err(e) => Outcome { ctx: r.ctx, res: Err(e) },
                Ok(t) => make(r.ctx, Kind::Array(Box::new(t))),
            }
        },
    }
}

/// [`ann_spec`] over the first `n` of `anns`, from the left.
pub open spec fn ann_all(
    ctx: ContextModel,
    anns: Vec<TypeAnn>,
    n: nat,
    params: Map<Seq<char>, SchemeModel>,
) -> Outcome<Seq<Ty>>
    decreases anns, n,
{
    if n == 0 || n > anns.len() {
        Outcome { ctx, res: Ok(Seq::empty()) }
    } else {
        let before = ann_all(ctx, anns, (n - 1) as nat, params);
        match before.res {
            Err(e) => before,
            Ok(ts) => {
                let r = ann_spec(before.ctx, anns[n - 1], params);
                match r.res {
                    Err(e) => Outcome { ctx: r.ctx, res: Err(e) },
                    Ok(t) => Outcome { ctx: r.ctx, res: Ok(ts.push(t)) },
                }
            },
        }
    }
}

/// [`ann_spec`] over the types of the first `n` of `props`, from the left.
pub open spec fn ann_props(
    ctx: ContextModel,
    props: Vec<TPropAnn>,
    n: nat,
    params: Map<Seq<char>, SchemeModel>,
) -> Outcome<Seq<Prop>>
    decreases props, n,
{
    if n == 0 || n > props.len() {
        Outcome { ctx, res: Ok(Seq::empty()) }
    } else {
        let before = ann_props(ctx, props, (n - 1) as nat, params);
        match before.res {
            Err(e) => before,
            Ok(ps) => {
                let p = props[n - 1];
                let r = ann_spec(before.ctx, p.type_ann, params);
                match r.res {
                    Err(e) => Outcome { ctx: r.ctx, res: Err(e) },
                    Ok(t) => Outcome {
                        ctx: r.ctx,
                        res: Ok(ps.push(Prop { name: p.name@, optional: p.optional, ty: t })),
                    },
                }
            },
        }
    }
}

/// An error among the first `n` annotations is the error of every longer
/// run.
pub proof fn lemma_ann_all_err(
    ctx: ContextModel,
    anns: Vec<TypeAnn>,
    n: nat,
    m: nat,
    params: Map<Seq<char>, SchemeModel>,
)
    requires
        n <= m <= anns.len(),
        ann_all(ctx, anns, n, params).res is Err,
    ensures
        ann_all(ctx, anns, m, params) == ann_all(ctx, anns, n, params),
    decreases m,
{
    if n < m {
        lemma_ann_all_err(ctx, anns, n, (m - 1) as nat, params);
    }
}

/// An error among the first `n` properties is the error of every longer run.
pub proof fn lemma_ann_props_err(
    ctx: ContextModel,
    props: Vec<TPropAnn>,
    n: nat,
    m: nat,
    params: Map<Seq<char>, SchemeModel>,
)
    requires
        n <= m <= props.len(),
        ann_props(ctx, props, n, params).res is Err,
    ensures
        ann_props(ctx, props, m, params) == ann_props(ctx, props, n, params),
    decreases m,
{
    if n < m {
        lemma_ann_props_err(ctx, props, n, (m - 1) as nat, params);
    }
}

/// The type that `ann` stands for, where `params` binds the type parameters
/// in scope.
pub fn infer_type_ann_with_params(ann: &TypeAnn, ctx: &mut Context, params: &Env) -> (r: Result<
    Type,
    InferError,
>)
    ensures
        moved_on(old(ctx)@, final(ctx)@),
        scope_kept(old(ctx)@, final(ctx)@),
        outcome(final(ctx)@, r) == ann_spec(old(ctx)@, *ann, params@),
    decreases ann, 0nat,
{
    match ann {
        TypeAnn::Lam { params: ps, ret } => {
            let pts = anns_to_types(ps, ctx, params)?;
            let rt = infer_type_ann_with_params(ret, ctx, params)?;
            ctx.make(Variant::Lam(LamType { params: pts, ret: Box::new(rt), is_call: false }))
        },
        TypeAnn::Lit(l) => ctx.make(Variant::Lit(l.to_type())),
        TypeAnn::Prim(p) => ctx.make(Variant::Prim(*p)),
        TypeAnn::Object(props) => {
            let ps = anns_to_props(props, ctx, params)?;
            ctx.make(Variant::Object(ps))
        },
        TypeAnn::TypeRef { name, type_params } => match type_params {
            None => match params.get(name.as_str()) {
                Some(sc) => Ok(copy_type(&sc.ty)),
                None => ctx.make(Variant::Alias(AliasType { name: name.clone(), type_params: None })),
            },
            Some(args) => {
                let ts = anns_to_types(args, ctx, params)?;
                ctx.make(Variant::Alias(AliasType { name: name.clone(), type_params: Some(ts) }))
            },
        },
        TypeAnn::Union(anns) => {
            let ts = anns_to_types(anns, ctx, params)?;
            ctx.make(Variant::Union(ts))
        },
        TypeAnn::Intersection(anns) => {
            let ts = anns_to_types(anns, ctx, params)?;
            ctx.make(Variant::Intersection(ts))
        },
        TypeAnn::Tuple(anns) => {
            let ts = anns_to_types(anns, ctx, params)?;
            ctx.make(Variant::Tuple(ts))
        },
        TypeAnn::Array(elem) => {
            let t = infer_type_ann_with_params(elem, ctx, params)?;
            ctx.make(Variant::Array(Box::new(t)))
        },
    }
}

fn anns_to_types(anns: &Vec<TypeAnn>, ctx: &mut Context, params: &Env) -> (r: Result<
    Vec<Type>,
    InferError,
>)
    ensures
        moved_on(old(ctx)@, final(ctx)@),
        scope_kept(old(ctx)@, final(ctx)@),
        final(ctx)@ == ann_all(old(ctx)@, *anns, anns.len() as nat, params@).ctx,
        match r {
            Ok(v) => ann_all(old(ctx)@, *anns, anns.len() as nat, params@).res == Ok::<
                Seq<Ty>,
                ErrorModel,
            >(type_models(v)),
            Err(e) => ann_all(old(ctx)@, *anns, anns.len() as nat, params@).res == Err::<
                Seq<Ty>,
                ErrorModel,
            >(e@),
        },
    decreases anns, 1nat,
{
    let mut out = no_types();
    let mut i: usize = 0;
    while i < anns.len()
        invariant
            moved_on(old(ctx)@, ctx@),
            scope_kept(old(ctx)@, ctx@),
            i <= anns.len(),
            ann_all(old(ctx)@, *anns, i as nat, params@) == (Outcome {
                ctx: ctx@,
                res: Ok::<Seq<Ty>, ErrorModel>(type_models(out)),
            }),
        decreases anns.len() - i,
    {
        match infer_type_ann_with_params(&anns[i], ctx, params) {
            Ok(t) => {
                push_type(&mut out, t);
            },
            Err(e) => {
                proof {
                    lemma_ann_all_err(old(ctx)@, *anns, (i + 1) as nat, anns.len() as nat, params@);
                }
                return Err(e);
            },
        }
        i += 1;
    }
    Ok(out)
}

fn anns_to_props(props: &Vec<TPropAnn>, ctx: &mut Context, params: &Env) -> (r: Result<
    Vec<TProp>,
    InferError,
>)
    ensures
        moved_on(old(ctx)@, final(ctx)@),
        scope_kept(old(ctx)@, final(ctx)@),
        final(ctx)@ == ann_props(old(ctx)@, *props, props.len() as nat, params@).ctx,
        match r {
            Ok(v) => ann_props(old(ctx)@, *props, props.len() as nat, params@).res == Ok::<
                Seq<Prop>,
                ErrorModel,
            >(prop_models(v)),
            Err(e) => ann_props(old(ctx)@, *props, props.len() as nat, params@).res == Err::<
                Seq<Prop>,
                ErrorModel,
            >(e@),
        },
    decreases props, 1nat,
{
    let mut out = no_props();
    let mut i: usize = 0;
    while i < props.len()
        invariant
            moved_on(old(ctx)@, ctx@),
            scope_kept(old(ctx)@, ctx@),
            i <= props.len(),
            ann_props(old(ctx)@, *props, i as nat, params@) == (Outcome {
                ctx: ctx@,
                res: Ok::<Seq<Prop>, ErrorModel>(prop_models(out)),
            }),
        decreases props.len() - i,
    {
        let p = &props[i];
        match infer_type_ann_with_params(&p.type_ann, ctx, params) {
            Ok(t) => {
                push_prop(&mut out, TProp { name: p.name.clone(), optional: p.optional, ty: t });
            },
            Err(e) => {
                proof {
                    lemma_ann_props_err(
                        old(ctx)@,
                        *props,
                        (i + 1) as nat,
                        props.len() as nat,
                        params@,
                    );
                }
                return Err(e);
            },
        }
        i += 1;
    }
    Ok(out)
}

/// The type that `ann` stands for, with no type parameter in scope.
pub fn infer_type_ann(ann: &TypeAnn, ctx: &mut Context) -> (r: Result<Type, InferError>)
    ensures
        moved_on(old(ctx)@, final(ctx)@),
        scope_kept(old(ctx)@, final(ctx)@),
        outcome(final(ctx)@, r) == ann_spec(old(ctx)@, *ann, Map::empty()),
{
    let none = Env::new();
    infer_type_ann_with_params(ann, ctx, &none)
}

/// Where no type parameter is in scope, no variable occurs in the type of
/// an annotation.
pub proof fn lemma_ann_closed(ctx: ContextModel, ann: TypeAnn, v: int)
    requires
        ann_spec(ctx, ann, Map::empty()).res is Ok,
    ensures
        !crate::subst::occurs(v, ann_spec(ctx, ann, Map::empty()).res->Ok_0),
    decreases ann, 0nat,
{
    let none = Map::<Seq<char>, SchemeModel>::empty();
    match ann {
        TypeAnn::Lam { params: ps, ret } => {
            let a = ann_all(ctx, ps, ps.len() as nat, none);
            lemma_ann_all_closed(ctx, ps, ps.len() as nat, v);
            lemma_ann_closed(a.ctx, *ret, v);
        },
        TypeAnn::Object(props) => {
            lemma_ann_props_closed(ctx, props, props.len() as nat, v);
        },
        TypeAnn::TypeRef { type_params, .. } => {
            match type_params {
                Some(args) => {
                    lemma_ann_all_closed(ctx, args, args.len() as nat, v);
                },
                None => {},
            }
        },
        TypeAnn::Union(anns) => {
            lemma_ann_all_closed(ctx, anns, anns.len() as nat, v);
        },
        TypeAnn::Intersection(anns) => {
            lemma_ann_all_closed(ctx, anns, anns.len() as nat, v);
        },
        TypeAnn::Tuple(anns) => {
            lemma_ann_all_closed(ctx, anns, anns.len() as nat, v);
        },
        TypeAnn::Array(elem) => {
            lemma_ann_closed(ctx, *elem, v);
        },
        _ => {},
    }
}

/// [`lemma_ann_closed`] for the first `n` of a vector of annotations.
pub proof fn lemma_ann_all_closed(ctx: ContextModel, anns: Vec<TypeAnn>, n: nat, v: int)
    requires
        ann_all(ctx, anns, n, Map::empty()).res is Ok,
    ensures
        !crate::subst::occurs_any(v, ann_all(ctx, anns, n, Map::empty()).res->Ok_0),
    decreases anns, n,
{
    let none = Map::<Seq<char>, SchemeModel>::empty();
    if n == 0 || n > anns.len() {
    } else {
        let before = ann_all(ctx, anns, (n - 1) as nat, none);
        lemma_ann_all_closed(ctx, anns, (n - 1) as nat, v);
        lemma_ann_closed(before.ctx, anns[n - 1], v);
        let ts = before.res->Ok_0;
        let t = ann_spec(before.ctx, anns[n - 1], none).res->Ok_0;
        let all = ts.push(t);
        assert forall|i: int| 0 <= i < all.len() implies !crate::subst::occurs(
            v,
            #[trigger] all[i],
        ) by {
            if i < ts.len() {
                assert(all[i] == ts[i]);
            }
        }
    }
}

/// [`lemma_ann_closed`] for the first `n` of a vector of properties.
pub proof fn lemma_ann_props_closed(ctx: ContextModel, props: Vec<TPropAnn>, n: nat, v: int)
    requires
        ann_props(ctx, props, n, Map::empty()).res is Ok,
    ensures
        !crate::subst::occurs_any_prop(v, ann_props(ctx, props, n, Map::empty()).res->Ok_0),
    decreases props, n,
{
    let none = Map::<Seq<char>, SchemeModel>::empty();
    if n == 0 || n > props.len() {
    } else {
        let before = ann_props(ctx, props, (n - 1) as nat, none);
        lemma_ann_props_closed(ctx, props, (n - 1) as nat, v);
        lemma_ann_closed(before.ctx, props[n - 1].type_ann, v);
        let ps = before.res->Ok_0;
        let all = ann_props(ctx, props, n, none).res->Ok_0;
        assert forall|i: int| 0 <= i < all.len() implies !crate::subst::occurs(
            v,
            (#[trigger] all[i]).ty,
        ) by {
            if i < ps.len() {
                assert(all[i] == ps[i]);
            }
        }
    }
}

} // verus!
