//! Patterns: the type that a pattern asks of a value, and the names that it
//! binds.
use vstd::prelude::*;
use crate::annot::{ann_spec, infer_type_ann_with_params, make};
use crate::ast::{lit_model, ObjectPatProp, Pattern, TypeAnn};
use crate::context::{fresh_type, moved_on, scope_kept, Context, ContextModel};
use crate::env::{apply_env, Env};
use crate::error::{ErrorModel, InferError};
use crate::subst::Subst;
use crate::types::{
    copy_type, no_props, no_types, prop_models, push_prop, push_type, type_models, AliasType, Kind,
    Lit, Primitive, Prop, Scheme, SchemeModel, TProp, Ty, Type, Variant,
};
use crate::unify::{unify, unify_spec, MAX_DEPTH};
use crate::util::{generalize, generalize_spec, outcome, Outcome};

verus! {

/// What walking a pattern gives: the context and the names bound after it,
/// and the type of the pattern or an error.
pub struct PatOutcome<T> {
    pub ctx: ContextModel,
    pub bound: Map<Seq<char>, SchemeModel>,
    pub res: Result<T, ErrorModel>,
}

/// Binding `name` to a fresh variable: an error when the pattern binds the
/// name already.
pub open spec fn bind_fresh(ctx: ContextModel, bound: Map<Seq<char>, SchemeModel>, name: Seq<char>) -> PatOutcome<
    Ty,
> {
    if !ctx.has_room(1) {
        PatOutcome { ctx, bound, res: Err(ErrorModel::OutOfIds) }
    } else {
        let tv = fresh_type(Kind::Var, ctx.count + 1);
        if bound.contains_key(name) {
            PatOutcome { ctx: ctx.advance(1), bound, res: Err(ErrorModel::DuplicateIdentifier(name)) }
        } else {
            PatOutcome {
                ctx: ctx.advance(1),
                bound: bound.insert(name, SchemeModel { qualifiers: Seq::empty(), ty: tv }),
                res: Ok(tv),
            }
        }
    }
}

/// The kind of the type that an `is` pattern narrows to: a primitive for the
/// three names of primitives, a reference to a named type for every other.
pub open spec fn narrowed_kind(is_id: Seq<char>) -> Kind {
    if is_id == "string"@ {
        Kind::Prim(Primitive::Str)
    } else if is_id == "number"@ {
        Kind::Prim(Primitive::Num)
    } else if is_id == "boolean"@ {
        Kind::Prim(Primitive::Bool)
    } else {
        Kind::Alias { name: is_id, args: None }
    }
}

/// The properties gathered from an object pattern so far, and the type of
/// its rest entry where one was met.
pub struct ObjParts {
    pub props: Seq<Prop>,
    pub rest: Option<Ty>,
}

/// The type of the pattern `pat`, with the names it binds added to `bound`.
pub open spec fn pattern_spec(ctx: ContextModel, bound: Map<Seq<char>, SchemeModel>, pat: Pattern) -> PatOutcome<
    Ty,
>
    decreases pat, 0nat,
{
    match pat {
        Pattern::Ident { name, .. } => bind_fresh(ctx, bound, name@),
        Pattern::Lit { lit } => {
            let m = make(ctx, Kind::Lit(lit_model(lit)));
            PatOutcome { ctx: m.ctx, bound, res: m.res }
        },
        Pattern::Is { id, is_id } => {
            let m = make(ctx, narrowed_kind(is_id@));
            match m.res {
                Err(e) => PatOutcome { ctx: m.ctx, bound, res: Err(e) },
                Ok(ty) => if bound.contains_key(id@) {
                    PatOutcome { ctx: m.ctx, bound, res: Err(ErrorModel::DuplicateIdentifier(id@)) }
                } else {
                    PatOutcome {
                        ctx: m.ctx,
                        bound: bound.insert(id@, generalize_spec(m.ctx.types, ty)),
                        res: Ok(ty),
                    }
                },
            }
        },
        Pattern::Rest { arg, .. } => {
            let a = pattern_spec(ctx, bound, *arg);
            match a.res {
                Err(e) => a,
                Ok(t) => {
                    let m = make(a.ctx, Kind::Rest(Box::new(t)));
                    PatOutcome { ctx: m.ctx, bound: a.bound, res: m.res }
                },
            }
        },
        Pattern::Array { elems, .. } => {
            let es = pattern_elems(ctx, bound, elems, elems.len() as nat);
            match es.res {
                Err(e) => PatOutcome { ctx: es.ctx, bound: es.bound, res: Err(e) },
                Ok(ts) => {
                    let m = make(es.ctx, Kind::Tuple(ts));
                    PatOutcome { ctx: m.ctx, bound: es.bound, res: m.res }
                },
            }
        },
        Pattern::Object { props, .. } => {
            let ps = pattern_props(ctx, bound, props, props.len() as nat);
            match ps.res {
                Err(e) => PatOutcome { ctx: ps.ctx, bound: ps.bound, res: Err(e) },
                Ok(parts) => {
                    let obj = make(ps.ctx, Kind::Object(parts.props));
                    match (obj.res, parts.rest) {
                        (Ok(o), Some(rest)) => {
                            let m = make(obj.ctx, Kind::Intersection(seq![o, rest]));
                            PatOutcome { ctx: m.ctx, bound: ps.bound, res: m.res }
                        },
                        _ => PatOutcome { ctx: obj.ctx, bound: ps.bound, res: obj.res },
                    }
                },
            }
        },
    }
}

/// The types of the first `n` elements of an array pattern, from the left.
/// A gap is not supported.
pub open spec fn pattern_elems(
    ctx: ContextModel,
    bound: Map<Seq<char>, SchemeModel>,
    elems: Vec<Option<Pattern>>,
    n: nat,
) -> PatOutcome<Seq<Ty>>
    decreases elems, n,
{
    if n == 0 || n > elems.len() {
        PatOutcome { ctx, bound, res: Ok(Seq::empty()) }
    } else {
        let before = pattern_elems(ctx, bound, elems, (n - 1) as nat);
        match before.res {
            Err(e) => before,
            Ok(ts) => match elems[n - 1] {
                None => PatOutcome {
                    ctx: before.ctx,
                    bound: before.bound,
                    res: Err(ErrorModel::Unsupported),
                },
                Some(p) => {
                    let r = pattern_spec(before.ctx, before.bound, p);
                    match r.res {
                        Err(e) => PatOutcome { ctx: r.ctx, bound: r.bound, res: Err(e) },
                        Ok(t) => PatOutcome { ctx: r.ctx, bound: r.bound, res: Ok(ts.push(t)) },
                    }
                },
            },
        }
    }
}

/// What the first `n` entries of an object pattern give, from the left: a
/// required property for each entry with a key, and the type of the rest
/// entry, of which there is at most one.
pub open spec fn pattern_props(
    ctx: ContextModel,
    bound: Map<Seq<char>, SchemeModel>,
    props: Vec<ObjectPatProp>,
    n: nat,
) -> PatOutcome<ObjParts>
    decreases props, n,
{
    if n == 0 || n > props.len() {
        PatOutcome { ctx, bound, res: Ok(ObjParts { props: Seq::empty(), rest: None }) }
    } else {
        let before = pattern_props(ctx, bound, props, (n - 1) as nat);
        match before.res {
            Err(e) => before,
            Ok(parts) => match props[n - 1] {
                ObjectPatProp::KeyValue { key, value } => {
                    let r = pattern_spec(before.ctx, before.bound, value);
                    match r.res {
                        Err(e) => PatOutcome { ctx: r.ctx, bound: r.bound, res: Err(e) },
                        Ok(t) => PatOutcome {
                            ctx: r.ctx,
                            bound: r.bound,
                            res: Ok(
                                ObjParts {
                                    props: parts.props.push(
                                        Prop { name: key@, optional: false, ty: t },
                                    ),
                                    rest: parts.rest,
                                },
                            ),
                        },
                    }
                },
                ObjectPatProp::Assign { key } => {
                    let r = bind_fresh(before.ctx, before.bound, key@);
                    match r.res {
                        Err(e) => PatOutcome { ctx: r.ctx, bound: r.bound, res: Err(e) },
                        Ok(t) => PatOutcome {
                            ctx: r.ctx,
                            bound: r.bound,
                            res: Ok(
                                ObjParts {
                                    props: parts.props.push(
                                        Prop { name: key@, optional: false, ty: t },
                                    ),
                                    rest: parts.rest,
                                },
                            ),
                        },
                    }
                },
                ObjectPatProp::Rest { arg } => {
                    if parts.rest is Some {
                        PatOutcome {
                            ctx: before.ctx,
                            bound: before.bound,
                            res: Err(ErrorModel::Unsupported),
                        }
                    } else {
                        let r = pattern_spec(before.ctx, before.bound, arg);
                        match r.res {
                            Err(e) => PatOutcome { ctx: r.ctx, bound: r.bound, res: Err(e) },
                            Ok(t) => PatOutcome {
                                ctx: r.ctx,
                                bound: r.bound,
                                res: Ok(ObjParts { props: parts.props, rest: Some(t) }),
                            },
                        }
                    }
                },
            },
        }
    }
}

/// An error among the first `n` elements is the error of every longer run.
pub proof fn lemma_pattern_elems_err(
    ctx: ContextModel,
    bound: Map<Seq<char>, SchemeModel>,
    elems: Vec<Option<Pattern>>,
    n: nat,
    m: nat,
)
    requires
        n <= m <= elems.len(),
        pattern_elems(ctx, bound, elems, n).res is Err,
    ensures
        pattern_elems(ctx, bound, elems, m) == pattern_elems(ctx, bound, elems, n),
    decreases m,
{
    if n < m {
        lemma_pattern_elems_err(ctx, bound, elems, n, (m - 1) as nat);
    }
}

/// An error among the first `n` entries is the error of every longer run.
pub proof fn lemma_pattern_props_err(
    ctx: ContextModel,
    bound: Map<Seq<char>, SchemeModel>,
    props: Vec<ObjectPatProp>,
    n: nat,
    m: nat,
)
    requires
        n <= m <= props.len(),
        pattern_props(ctx, bound, props, n).res is Err,
    ensures
        pattern_props(ctx, bound, props, m) == pattern_props(ctx, bound, props, n),
    decreases m,
{
    if n < m {
        lemma_pattern_props_err(ctx, bound, props, n, (m - 1) as nat);
    }
}

/// The outcome of a walk that ended with `r`.
pub open spec fn pat_outcome<T: View>(
    ctx: ContextModel,
    bound: Map<Seq<char>, SchemeModel>,
    r: Result<T, InferError>,
) -> PatOutcome<T::V> {
    PatOutcome { ctx, bound, res: crate::error::result_model(r) }
}

fn bind_fresh_var(name: &String, ctx: &mut Context, assump: &mut Env) -> (r: Result<
    Type,
    InferError,
>)
    ensures
        moved_on(old(ctx)@, final(ctx)@),
        scope_kept(old(ctx)@, final(ctx)@),
        pat_outcome(final(ctx)@, final(assump)@, r) == bind_fresh(old(ctx)@, old(assump)@, name@),
{
    if !ctx.has_room(1) {
        return Err(InferError::OutOfIds);
    }
    let tv = ctx.fresh_var();
    if assump.contains(name.as_str()) {
        return Err(InferError::DuplicateIdentifier(name.clone()));
    }
    assump.insert(name.clone(), Scheme::from_type(copy_type(&tv)));
    Ok(tv)
}

fn narrowed_variant(is_id: &String) -> (r: Variant)
    ensures
        crate::context::variant_kind(r) == narrowed_kind(is_id@),
{
    let string = String::from_str("string");
    let number = String::from_str("number");
    let boolean = String::from_str("boolean");
    if *is_id == string {
        Variant::Prim(Primitive::Str)
    } else if *is_id == number {
        Variant::Prim(Primitive::Num)
    } else if *is_id == boolean {
        Variant::Prim(Primitive::Bool)
    } else {
        Variant::Alias(AliasType { name: is_id.clone(), type_params: None })
    }
}

/// The type of the pattern `pat`; the names that it binds are added to
/// `assump`. A name bound twice is an error.
pub fn infer_pattern_rec(pat: &Pattern, ctx: &mut Context, assump: &mut Env) -> (r: Result<
    Type,
    InferError,
>)
    ensures
        moved_on(old(ctx)@, final(ctx)@),
        scope_kept(old(ctx)@, final(ctx)@),
        pat_outcome(final(ctx)@, final(assump)@, r) == pattern_spec(old(ctx)@, old(assump)@, *pat),
    decreases pat, 0nat,
{
    match pat {
        Pattern::Ident { name, .. } => bind_fresh_var(name, ctx, assump),
        Pattern::Lit { lit } => ctx.make(Variant::Lit(lit.to_type())),
        Pattern::Is { id, is_id } => {
            let ty = ctx.make(narrowed_variant(is_id))?;
            if assump.contains(id.as_str()) {
                return Err(InferError::DuplicateIdentifier(id.clone()));
            }
            let scheme = generalize(&ctx.types, &ty);
            assump.insert(id.clone(), scheme);
            Ok(ty)
        },
        Pattern::Rest { arg, .. } => {
            let t = infer_pattern_rec(arg, ctx, assump)?;
            ctx.make(Variant::Rest(Box::new(t)))
        },
        Pattern::Array { elems, .. } => {
            let ts = infer_elems(elems, ctx, assump)?;
            ctx.make(Variant::Tuple(ts))
        },
        Pattern::Object { props, .. } => {
            let (ps, rest) = infer_props(props, ctx, assump)?;
            let obj = ctx.make(Variant::Object(ps))?;
            match rest {
                Some(rest_ty) => {
                    let mut members = no_types();
                    let ghost o = obj@;
                    push_type(&mut members, obj);
                    push_type(&mut members, rest_ty);
                    assert(type_models(members) =~= seq![o, rest_ty@]);
                    ctx.make(Variant::Intersection(members))
                },
                None => Ok(obj),
            }
        },
    }
}

fn infer_elems(elems: &Vec<Option<Pattern>>, ctx: &mut Context, assump: &mut Env) -> (r: Result<
    Vec<Type>,
    InferError,
>)
    ensures
        moved_on(old(ctx)@, final(ctx)@),
        scope_kept(old(ctx)@, final(ctx)@),
        final(ctx)@ == pattern_elems(old(ctx)@, old(assump)@, *elems, elems.len() as nat).ctx,
        final(assump)@ == pattern_elems(old(ctx)@, old(assump)@, *elems, elems.len() as nat).bound,
        match r {
            Ok(v) => pattern_elems(old(ctx)@, old(assump)@, *elems, elems.len() as nat).res == Ok::<
                Seq<Ty>,
                ErrorModel,
            >(type_models(v)),
            Err(e) => pattern_elems(old(ctx)@, old(assump)@, *elems, elems.len() as nat).res
                == Err::<Seq<Ty>, ErrorModel>(e@),
        },
    decreases elems, 1nat,
{
    let mut out = no_types();
    let mut i: usize = 0;
    while i < elems.len()
        invariant
            moved_on(old(ctx)@, ctx@),
            scope_kept(old(ctx)@, ctx@),
            i <= elems.len(),
            pattern_elems(old(ctx)@, old(assump)@, *elems, i as nat) == (PatOutcome {
                ctx: ctx@,
                bound: assump@,
                res: Ok::<Seq<Ty>, ErrorModel>(type_models(out)),
            }),
        decreases elems.len() - i,
    {
        let step = match &elems[i] {
            None => Err(InferError::Unsupported),
            Some(p) => infer_pattern_rec(p, ctx, assump),
        };
        match step {
            Ok(t) => {
                push_type(&mut out, t);
            },
            Err(e) => {
                proof {
                    lemma_pattern_elems_err(
                        old(ctx)@,
                        old(assump)@,
                        *elems,
                        (i + 1) as nat,
                        elems.len() as nat,
                    );
                }
                return Err(e);
            },
        }
        i += 1;
    }
    Ok(out)
}

fn infer_props(props: &Vec<ObjectPatProp>, ctx: &mut Context, assump: &mut Env) -> (r: Result<
    (Vec<TProp>, Option<Type>),
    InferError,
>)
    ensures
        moved_on(old(ctx)@, final(ctx)@),
        scope_kept(old(ctx)@, final(ctx)@),
        final(ctx)@ == pattern_props(old(ctx)@, old(assump)@, *props, props.len() as nat).ctx,
        final(assump)@ == pattern_props(old(ctx)@, old(assump)@, *props, props.len() as nat).bound,
        match r {
            Ok(v) => pattern_props(old(ctx)@, old(assump)@, *props, props.len() as nat).res == Ok::<
                ObjParts,
                ErrorModel,
            >(
                ObjParts {
                    props: prop_models(v.0),
                    rest: match v.1 {
                        Some(t) => Some(t@),
                        None => None,
                    },
                },
            ),
            Err(e) => pattern_props(old(ctx)@, old(assump)@, *props, props.len() as nat).res
                == Err::<ObjParts, ErrorModel>(e@),
        },
    decreases props, 1nat,
{
    let mut out = no_props();
    let mut rest: Option<Type> = None;
    let mut i: usize = 0;
    while i < props.len()
        invariant
            moved_on(old(ctx)@, ctx@),
            scope_kept(old(ctx)@, ctx@),
            i <= props.len(),
            pattern_props(old(ctx)@, old(assump)@, *props, i as nat) == (PatOutcome {
                ctx: ctx@,
                bound: assump@,
                res: Ok::<ObjParts, ErrorModel>(
                    ObjParts {
                        props: prop_models(out),
                        rest: match rest {
                            Some(t) => Some(t@),
                            None => None,
                        },
                    },
                ),
            }),
        decreases props.len() - i,
    {
        let step: Result<(), InferError> = match &props[i] {
            ObjectPatProp::KeyValue { key, value } => {
                match infer_pattern_rec(value, ctx, assump) {
                    Ok(t) => {
                        push_prop(&mut out, TProp { name: key.clone(), optional: false, ty: t });
                        Ok(())
                    },
                    Err(e) => Err(e),
                }
            },
            ObjectPatProp::Assign { key } => {
                match bind_fresh_var(key, ctx, assump) {
                    Ok(t) => {
                        push_prop(&mut out, TProp { name: key.clone(), optional: false, ty: t });
                        Ok(())
                    },
                    Err(e) => Err(e),
                }
            },
            ObjectPatProp::Rest { arg } => {
                if rest.is_some() {
                    Err(InferError::Unsupported)
                } else {
                    match infer_pattern_rec(arg, ctx, assump) {
                        Ok(t) => {
                            rest = Some(t);
                            Ok(())
                        },
                        Err(e) => Err(e),
                    }
                }
            },
        };
        match step {
            Ok(_) => {},
            Err(e) => {
                proof {
                    lemma_pattern_props_err(
                        old(ctx)@,
                        old(assump)@,
                        *props,
                        (i + 1) as nat,
                        props.len() as nat,
                    );
                }
                return Err(e);
            },
        }
        i += 1;
    }
    Ok((out, rest))
}

/// The type annotation of a pattern, where it has one.
pub open spec fn type_ann_of(pat: Pattern) -> Option<TypeAnn> {
    match pat {
        Pattern::Ident { type_ann, .. } => type_ann,
        Pattern::Rest { type_ann, .. } => type_ann,
        Pattern::Object { type_ann, .. } => type_ann,
        Pattern::Array { type_ann, .. } => type_ann,
        Pattern::Lit { .. } => None,
        Pattern::Is { .. } => None,
    }
}

/// The type annotation of a pattern, where it has one.
pub fn get_type_ann(pat: &Pattern) -> (r: Option<&TypeAnn>)
    ensures
        match r {
            Some(a) => type_ann_of(*pat) == Some(*a),
            None => type_ann_of(*pat) is None,
        },
{
    match pat {
        Pattern::Ident { type_ann, .. } => type_ann.as_ref(),
        Pattern::Rest { type_ann, .. } => type_ann.as_ref(),
        Pattern::Object { type_ann, .. } => type_ann.as_ref(),
        Pattern::Array { type_ann, .. } => type_ann.as_ref(),
        Pattern::Lit { .. } => None,
        Pattern::Is { .. } => None,
    }
}

/// What a pattern gives: a substitution, the names bound and the type of the
/// pattern.
///
/// The pattern is walked first. Where it has a type annotation, the type of
/// the annotation is unified with the type of the walk, as the type expected
/// of the value: the substitution is what that gives, it is applied to the
/// names bound, and the type is the type of the annotation.
pub open spec fn infer_pattern_spec(ctx: ContextModel, pat: Pattern, params: Map<Seq<char>, SchemeModel>) -> Outcome<
    (Map<int, Ty>, Map<Seq<char>, SchemeModel>, Ty),
> {
    let walk = pattern_spec(ctx, Map::empty(), pat);
    match walk.res {
        Err(e) => Outcome { ctx: walk.ctx, res: Err(e) },
        Ok(pt) => match type_ann_of(pat) {
            None => Outcome { ctx: walk.ctx, res: Ok((Map::empty(), walk.bound, pt)) },
            Some(ann) => {
                let a = ann_spec(walk.ctx, ann, params);
                match a.res {
                    Err(e) => Outcome { ctx: a.ctx, res: Err(e) },
                    Ok(at) => match unify_spec(at, pt, MAX_DEPTH as nat) {
                        Err(e) => Outcome { ctx: a.ctx, res: Err(e) },
                        Ok(s) => Outcome { ctx: a.ctx, res: Ok((s, apply_env(walk.bound, s), at)) },
                    },
                }
            },
        },
    }
}

/// The substitution, the names bound and the type that the pattern `pat`
/// gives, where `type_param_map` binds the type parameters in scope.
pub fn infer_pattern(pat: &Pattern, ctx: &mut Context, type_param_map: &Env) -> (r: Result<
    (Subst, Env, Type),
    InferError,
>)
    ensures
        moved_on(old(ctx)@, final(ctx)@),
        scope_kept(old(ctx)@, final(ctx)@),
        outcome(final(ctx)@, r) == infer_pattern_spec(old(ctx)@, *pat, type_param_map@),
{
    let mut new_vars = Env::new();
    let pat_type = infer_pattern_rec(pat, ctx, &mut new_vars)?;
    match get_type_ann(pat) {
        Some(type_ann) => {
            let type_ann_ty = infer_type_ann_with_params(type_ann, ctx, type_param_map)?;
            let s = unify(&type_ann_ty, &pat_type, ctx)?;
            let bound = new_vars.apply(&s);
            Ok((s, bound, type_ann_ty))
        },
        None => Ok((Subst::new(), new_vars, pat_type)),
    }
}

} // verus!
