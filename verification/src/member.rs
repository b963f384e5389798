//! Member access: the type of a property of a value.
use vstd::prelude::*;
use crate::annot::make;
use crate::context::{
    lookup_alias_spec, moved_on, prop_type_spec, scope_kept, Context, ContextModel,
};
use crate::error::{ErrorModel, InferError};
use crate::types::{copy_type, prop_models, Kind, MemberType, Ty, Type, Variant};
use crate::unify::{find_prop, find_tprop};
use crate::util::{outcome, Outcome};

verus! {

/// The projection of the property `prop` out of `obj_t`.
///
/// An object type must have the property. A reference to a named type is
/// resolved, at most `fuel` times in a row, and the property is looked for
/// in what it stands for. Other types are not supported.
pub open spec fn property_type_spec(ctx: ContextModel, obj_t: Ty, prop: Seq<char>, fuel: nat) -> Outcome<
    Ty,
>
    decreases fuel,
{
    match obj_t.kind {
        Kind::Object(props) => {
            let m = make(ctx, Kind::Member { obj: Box::new(obj_t), prop });
            match m.res {
                Err(e) => m,
                Ok(mem) => if find_prop(props, prop, props.len()) is Some {
                    m
                } else {
                    Outcome { ctx: m.ctx, res: Err(ErrorModel::NotInRecord(prop)) }
                },
            }
        },
        Kind::Alias { name, args } => {
            if fuel == 0 {
                Outcome { ctx, res: Err(ErrorModel::TooDeep) }
            } else {
                match lookup_alias_spec(ctx.types, name, args) {
                    Err(e) => Outcome { ctx, res: Err(e) },
                    Ok(t) => property_type_spec(ctx, t, prop, (fuel - 1) as nat),
                }
            }
        },
        _ => Outcome { ctx, res: Err(ErrorModel::Unsupported) },
    }
}

/// The type that a projection stands for: where it projects a property out
/// of an object type that has it, the type of that property; every other
/// type is left as it is.
pub open spec fn unwrap_member_spec(ctx: ContextModel, t: Ty) -> Outcome<Ty> {
    match t.kind {
        Kind::Member { obj, prop } => match obj.kind {
            Kind::Object(props) => match find_prop(props, prop, props.len()) {
                Some(i) => if props[i].optional {
                    if !ctx.has_room(2) {
                        Outcome { ctx, res: Err(ErrorModel::OutOfIds) }
                    } else {
                        Outcome { ctx: ctx.advance(2), res: Ok(prop_type_spec(props[i], ctx.count)) }
                    }
                } else {
                    Outcome { ctx, res: Ok(props[i].ty) }
                },
                None => Outcome { ctx, res: Ok(t) },
            },
            _ => Outcome { ctx, res: Ok(t) },
        },
        _ => Outcome { ctx, res: Ok(t) },
    }
}

/// The projection of the property `prop` out of `obj_t`. Named types are
/// resolved at most `fuel` times in a row: a chain of names longer than that,
/// as a name that stands for itself makes one, gives the error `TooDeep`.
pub fn infer_property_type(obj_t: &Type, prop: &String, ctx: &mut Context, fuel: usize) -> (r:
    Result<Type, InferError>)
    ensures
        moved_on(old(ctx)@, final(ctx)@),
        scope_kept(old(ctx)@, final(ctx)@),
        outcome(final(ctx)@, r) == property_type_spec(old(ctx)@, obj_t@, prop@, fuel as nat),
    decreases fuel,
{
    match &obj_t.variant {
        Variant::Object(props) => {
            assert(prop_models(*props).len() == props.len());
            let mem = ctx.make(
                Variant::Member(MemberType { obj: Box::new(copy_type(obj_t)), prop: prop.clone() }),
            )?;
            match find_tprop(props, prop) {
                Some(_) => Ok(mem),
                None => Err(InferError::NotInRecord(prop.clone())),
            }
        },
        Variant::Alias(alias) => {
            if fuel == 0 {
                return Err(InferError::TooDeep);
            }
            let t = ctx.lookup_alias(alias)?;
            infer_property_type(&t, prop, ctx, fuel - 1)
        },
        _ => Err(InferError::Unsupported),
    }
}

/// The type that a projection stands for.
pub fn unwrap_member_type(t: &Type, ctx: &mut Context) -> (r: Result<Type, InferError>)
    ensures
        moved_on(old(ctx)@, final(ctx)@),
        scope_kept(old(ctx)@, final(ctx)@),
        outcome(final(ctx)@, r) == unwrap_member_spec(old(ctx)@, t@),
{
    proof {
        reveal_with_fuel(crate::types::type_model, 2);
    }
    if let Variant::Member(member) = &t.variant {
        if let Variant::Object(props) = &member.obj.variant {
            assert(prop_models(*props).len() == props.len());
            assert(member.obj@.kind == Kind::Object(prop_models(*props)));
            if let Some(i) = find_tprop(props, &member.prop) {
                let p = &props[i];
                assert(prop_models(*props)[i as int] == p@);
                if p.optional && !ctx.has_room(2) {
                    return Err(InferError::OutOfIds);
                }
                return Ok(p.get_type(ctx));
            }
        }
    }
    Ok(copy_type(t))
}

} // verus!
