//! The state of one inference run: what is in scope, and the source of fresh
//! ids.
use vstd::prelude::*;
use crate::env::Env;
use crate::error::{ErrorModel, InferError};
use crate::subst::{apply, apply_type, Subst};
use crate::types::{
    copy_type, prop_models, type_models, AliasType, Kind, LamType, Lit, MemberType, Primitive, Prop,
    Scheme, SchemeModel, TProp, Ty, Type, Variant,
};

verus! {

/// The source of fresh ids: `count` is the last id handed out.
#[derive(Clone, Copy, Debug)]
pub struct State {
    pub count: i32,
}

/// What is in scope, and the state of the run.
#[derive(Debug)]
pub struct Context {
    /// The values in scope, by identifier.
    pub values: Env,
    /// The named types in scope, by name.
    pub types: Env,
    pub state: State,
    /// Whether the code being inferred is the body of an async function.
    pub is_async: bool,
}

/// Model of a [`Context`].
pub struct ContextModel {
    pub values: Map<Seq<char>, SchemeModel>,
    pub types: Map<Seq<char>, SchemeModel>,
    pub count: int,
    pub is_async: bool,
}

impl View for Context {
    type V = ContextModel;

    open spec fn view(&self) -> ContextModel {
        ContextModel {
            values: self.values@,
            types: self.types@,
            count: self.state.count as int,
            is_async: self.is_async,
        }
    }
}

impl ContextModel {
    /// The context after `n` more ids have been handed out.
    pub open spec fn advance(self, n: int) -> ContextModel {
        ContextModel { count: self.count + n, ..self }
    }

    /// Whether `n` more ids can be handed out.
    pub open spec fn has_room(self, n: int) -> bool {
        self.count + n <= i32::MAX
    }

    /// The context with other named types in scope.
    pub open spec fn with_types(self, types: Map<Seq<char>, SchemeModel>) -> ContextModel {
        ContextModel { types, ..self }
    }

    /// The context with other values in scope.
    pub open spec fn with_values(self, values: Map<Seq<char>, SchemeModel>) -> ContextModel {
        ContextModel { values, ..self }
    }
}

/// Whether `after` can follow `before` in a run: no id is handed out twice,
/// as the count has not gone back, and the named types in scope and the
/// async mark are what they were.
pub open spec fn moved_on(before: ContextModel, after: ContextModel) -> bool {
    after.count >= before.count && after.types == before.types && after.is_async == before.is_async
}

/// Whether the values in scope are what they were.
pub open spec fn scope_kept(before: ContextModel, after: ContextModel) -> bool {
    after.values == before.values
}

/// A type that is not frozen.
pub open spec fn fresh_type(kind: Kind, id: int) -> Ty {
    Ty { kind, id, frozen: false }
}

/// A new type of the kind `kind` with the next id, and the context after it;
/// an error when no id is left.
pub open spec fn make_spec(ctx: ContextModel, kind: Kind) -> (ContextModel, Result<Ty, ErrorModel>) {
    if !ctx.has_room(1) {
        (ctx, Err(ErrorModel::OutOfIds))
    } else {
        (ctx.advance(1), Ok(fresh_type(kind, ctx.count + 1)))
    }
}

/// The kind that a variant stands for.
pub open spec fn variant_kind(variant: Variant) -> Kind {
    (Type { variant, id: 0, frozen: false })@.kind
}

/// The map that sends each of the first `n` of `quals` to a variable of its
/// own, numbered from `count + 1` on.
pub open spec fn fresh_vars_map(quals: Seq<int>, count: int, n: int) -> Map<int, Ty>
    decreases n,
{
    if n <= 0 {
        Map::empty()
    } else {
        fresh_vars_map(quals, count, n - 1).insert(quals[n - 1], fresh_type(Kind::Var, count + n))
    }
}

/// The type of a scheme with each variable that it quantifies over replaced
/// by a variable numbered from `count + 1` on.
pub open spec fn instantiate_spec(sc: SchemeModel, count: int) -> Ty {
    apply(sc.ty, fresh_vars_map(sc.qualifiers, count, sc.qualifiers.len() as int))
}

/// What looking up the value `name` gives, and the context after it.
pub open spec fn lookup_value_spec(ctx: ContextModel, name: Seq<char>) -> (
    ContextModel,
    Result<Ty, ErrorModel>,
) {
    if !ctx.values.contains_key(name) {
        (ctx, Err(ErrorModel::UnboundIdentifier(name)))
    } else {
        let sc = ctx.values[name];
        if !ctx.has_room(sc.qualifiers.len() as int) {
            (ctx, Err(ErrorModel::OutOfIds))
        } else {
            (ctx.advance(sc.qualifiers.len() as int), Ok(instantiate_spec(sc, ctx.count)))
        }
    }
}

/// The map that sends each of the first `n` of `quals` to the type at its
/// place in `args`.
pub open spec fn args_map(quals: Seq<int>, args: Seq<Ty>, n: int) -> Map<int, Ty>
    decreases n,
{
    if n <= 0 {
        Map::empty()
    } else {
        args_map(quals, args, n - 1).insert(quals[n - 1], args[n - 1])
    }
}

/// The definition of the named type `name`, with `args` in place of its
/// parameters.
pub open spec fn lookup_alias_spec(
    types: Map<Seq<char>, SchemeModel>,
    name: Seq<char>,
    args: Option<Seq<Ty>>,
) -> Result<Ty, ErrorModel> {
    if !types.contains_key(name) {
        Err(ErrorModel::UnknownType(name))
    } else {
        let sc = types[name];
        let given = match args {
            Some(a) => a,
            None => Seq::empty(),
        };
        if given.len() != sc.qualifiers.len() {
            Err(ErrorModel::WrongTypeArguments(name))
        } else {
            Ok(apply(sc.ty, args_map(sc.qualifiers, given, given.len() as int)))
        }
    }
}

/// The type that a property stands for: `ty | undefined` when it is
/// optional, with the ids `count + 1` for `undefined` and `count + 2` for the
/// union.
pub open spec fn prop_type_spec(p: Prop, count: int) -> Ty {
    if p.optional {
        fresh_type(
            Kind::Union(seq![p.ty, fresh_type(Kind::Prim(Primitive::Undefined), count + 1)]),
            count + 2,
        )
    } else {
        p.ty
    }
}

impl Default for Context {
    fn default() -> (r: Context)
        ensures
            r@ == (ContextModel {
                values: Map::empty(),
                types: Map::empty(),
                count: 0,
                is_async: false,
            }),
    {
        Context { values: Env::new(), types: Env::new(), state: State { count: 0 }, is_async: false }
    }
}

impl Clone for Context {
    fn clone(&self) -> (r: Context)
        ensures
            r@ == self@,
    {
        Context {
            values: self.values.clone(),
            types: self.types.clone(),
            state: State { count: self.state.count },
            is_async: self.is_async,
        }
    }
}

impl Context {
    /// Whether `n` more ids can be handed out.
    pub fn has_room(&self, n: usize) -> (r: bool)
        ensures
            r == self@.has_room(n as int),
    {
        n <= 0xffff_ffff && (self.state.count as i64) + (n as i64) <= 0x7fff_ffff
    }

    /// A new type of the given variant with a fresh id; fails when no id is
    /// left.
    pub fn make(&mut self, variant: Variant) -> (r: Result<Type, InferError>)
        ensures
            moved_on(old(self)@, final(self)@),
            scope_kept(old(self)@, final(self)@),
            final(self)@ == make_spec(old(self)@, variant_kind(variant)).0,
            crate::error::result_model(r) == make_spec(old(self)@, variant_kind(variant)).1,
    {
        if !self.has_room(1) {
            Err(InferError::OutOfIds)
        } else {
            Ok(Type { id: self.fresh_id(), frozen: false, variant })
        }
    }

    /// A fresh id: one more than the last.
    pub fn fresh_id(&mut self) -> (id: i32)
        requires
            old(self)@.has_room(1),
        ensures
            id == old(self)@.count + 1,
            final(self)@ == old(self)@.advance(1),
    {
        let id = self.state.count + 1;
        self.state.count = id;
        id
    }

    /// A fresh type variable.
    pub fn fresh_var(&mut self) -> (r: Type)
        requires
            old(self)@.has_room(1),
        ensures
            r@ == fresh_type(Kind::Var, old(self)@.count + 1),
            final(self)@ == old(self)@.advance(1),
    {
        Type { id: self.fresh_id(), frozen: false, variant: Variant::Var }
    }

    /// A function type.
    pub fn lam(&mut self, params: Vec<Type>, ret: Box<Type>) -> (r: Type)
        requires
            old(self)@.has_room(1),
        ensures
            r@ == fresh_type(
                Kind::Lam { params: type_models(params), ret: Box::new(ret@), is_call: false },
                old(self)@.count + 1,
            ),
            final(self)@ == old(self)@.advance(1),
    {
        Type {
            id: self.fresh_id(),
            frozen: false,
            variant: Variant::Lam(LamType { params, ret, is_call: false }),
        }
    }

    /// The type of a call with the given arguments and result.
    pub fn call(&mut self, args: Vec<Type>, ret: Box<Type>) -> (r: Type)
        requires
            old(self)@.has_room(1),
        ensures
            r@ == fresh_type(
                Kind::Lam { params: type_models(args), ret: Box::new(ret@), is_call: true },
                old(self)@.count + 1,
            ),
            final(self)@ == old(self)@.advance(1),
    {
        Type {
            id: self.fresh_id(),
            frozen: false,
            variant: Variant::Lam(LamType { params: args, ret, is_call: true }),
        }
    }

    /// A primitive type.
    pub fn prim(&mut self, prim: Primitive) -> (r: Type)
        requires
            old(self)@.has_room(1),
        ensures
            r@ == fresh_type(Kind::Prim(prim), old(self)@.count + 1),
            final(self)@ == old(self)@.advance(1),
    {
        Type { id: self.fresh_id(), frozen: false, variant: Variant::Prim(prim) }
    }

    /// The type of a literal of the program.
    pub fn lit(&mut self, lit: crate::ast::Lit) -> (r: Type)
        requires
            old(self)@.has_room(1),
        ensures
            r@ == fresh_type(Kind::Lit(crate::ast::lit_model(lit)), old(self)@.count + 1),
            final(self)@ == old(self)@.advance(1),
    {
        let lit = lit.to_type();
        Type { id: self.fresh_id(), frozen: false, variant: Variant::Lit(lit) }
    }

    /// A literal type.
    pub fn lit_type(&mut self, lit: Lit) -> (r: Type)
        requires
            old(self)@.has_room(1),
        ensures
            r@ == fresh_type(Kind::Lit(lit@), old(self)@.count + 1),
            final(self)@ == old(self)@.advance(1),
    {
        Type { id: self.fresh_id(), frozen: false, variant: Variant::Lit(lit) }
    }

    /// A union type with the given members, as they are.
    pub fn union(&mut self, types: Vec<Type>) -> (r: Type)
        requires
            old(self)@.has_room(1),
        ensures
            r@ == fresh_type(Kind::Union(type_models(types)), old(self)@.count + 1),
            final(self)@ == old(self)@.advance(1),
    {
        Type { id: self.fresh_id(), frozen: false, variant: Variant::Union(types) }
    }

    /// An intersection type with the given members, as they are.
    pub fn intersection(&mut self, types: Vec<Type>) -> (r: Type)
        requires
            old(self)@.has_room(1),
        ensures
            r@ == fresh_type(Kind::Intersection(type_models(types)), old(self)@.count + 1),
            final(self)@ == old(self)@.advance(1),
    {
        Type { id: self.fresh_id(), frozen: false, variant: Variant::Intersection(types) }
    }

    /// An object type with the given properties.
    pub fn object(&mut self, props: Vec<TProp>) -> (r: Type)
        requires
            old(self)@.has_room(1),
        ensures
            r@ == fresh_type(Kind::Object(prop_models(props)), old(self)@.count + 1),
            final(self)@ == old(self)@.advance(1),
    {
        Type { id: self.fresh_id(), frozen: false, variant: Variant::Object(props) }
    }

    /// A property of an object type.
    pub fn prop(&self, name: &str, ty: Type, optional: bool) -> (r: TProp)
        ensures
            r@ == (Prop { name: name@, optional, ty: ty@ }),
    {
        TProp { name: name.to_owned(), optional, ty }
    }

    /// A reference to the type named `name`.
    pub fn alias(&mut self, name: &str, type_params: Option<Vec<Type>>) -> (r: Type)
        requires
            old(self)@.has_room(1),
        ensures
            r@ == fresh_type(
                Kind::Alias {
                    name: name@,
                    args: match type_params {
                        Some(ts) => Some(type_models(ts)),
                        None => None,
                    },
                },
                old(self)@.count + 1,
            ),
            final(self)@ == old(self)@.advance(1),
    {
        Type {
            id: self.fresh_id(),
            frozen: false,
            variant: Variant::Alias(AliasType { name: name.to_owned(), type_params }),
        }
    }

    /// A tuple type.
    pub fn tuple(&mut self, types: Vec<Type>) -> (r: Type)
        requires
            old(self)@.has_room(1),
        ensures
            r@ == fresh_type(Kind::Tuple(type_models(types)), old(self)@.count + 1),
            final(self)@ == old(self)@.advance(1),
    {
        Type { id: self.fresh_id(), frozen: false, variant: Variant::Tuple(types) }
    }

    /// An array type.
    pub fn array(&mut self, elem: Type) -> (r: Type)
        requires
            old(self)@.has_room(1),
        ensures
            r@ == fresh_type(Kind::Array(Box::new(elem@)), old(self)@.count + 1),
            final(self)@ == old(self)@.advance(1),
    {
        Type { id: self.fresh_id(), frozen: false, variant: Variant::Array(Box::new(elem)) }
    }

    /// The type of the rest of a sequence.
    pub fn rest(&mut self, ty: Type) -> (r: Type)
        requires
            old(self)@.has_room(1),
        ensures
            r@ == fresh_type(Kind::Rest(Box::new(ty@)), old(self)@.count + 1),
            final(self)@ == old(self)@.advance(1),
    {
        Type { id: self.fresh_id(), frozen: false, variant: Variant::Rest(Box::new(ty)) }
    }

    /// The projection of the property `prop` out of `obj`.
    pub fn mem(&mut self, obj: Type, prop: &str) -> (r: Type)
        requires
            old(self)@.has_room(1),
        ensures
            r@ == fresh_type(
                Kind::Member { obj: Box::new(obj@), prop: prop@ },
                old(self)@.count + 1,
            ),
            final(self)@ == old(self)@.advance(1),
    {
        Type {
            id: self.fresh_id(),
            frozen: false,
            variant: Variant::Member(MemberType { obj: Box::new(obj), prop: prop.to_owned() }),
        }
    }

    /// The type of `scheme` with a fresh variable in place of each variable
    /// that it quantifies over.
    pub fn instantiate(&mut self, scheme: &Scheme) -> (r: Type)
        requires
            old(self)@.has_room(scheme@.qualifiers.len() as int),
        ensures
            moved_on(old(self)@, final(self)@),
            scope_kept(old(self)@, final(self)@),
            r@ == instantiate_spec(scheme@, old(self)@.count),
            final(self)@ == old(self)@.advance(scheme@.qualifiers.len() as int),
    {
        let mut subs = Subst::new();
        let mut i: usize = 0;
        while i < scheme.qualifiers.len()
            invariant
                moved_on(old(self)@, self@),
                scope_kept(old(self)@, self@),
                i <= scheme.qualifiers.len(),
                old(self)@.has_room(scheme@.qualifiers.len() as int),
                self@ == old(self)@.advance(i as int),
                subs@ == fresh_vars_map(scheme@.qualifiers, old(self)@.count, i as int),
            decreases scheme.qualifiers.len() - i,
        {
            let tv = self.fresh_var();
            subs.insert(scheme.qualifiers[i], tv);
            i += 1;
        }
        apply_type(&scheme.ty, &subs)
    }

    /// The type of the value `name`, instantiated; fails when `name` is not in
    /// scope.
    pub fn lookup_value(&mut self, name: &str) -> (r: Result<Type, InferError>)
        ensures
            moved_on(old(self)@, final(self)@),
            scope_kept(old(self)@, final(self)@),
            final(self)@ == lookup_value_spec(old(self)@, name@).0,
            crate::error::result_model(r) == lookup_value_spec(old(self)@, name@).1,
    {
        let scheme = match self.values.get(name) {
            Some(sc) => sc.clone(),
            None => {
                return Err(InferError::UnboundIdentifier(name.to_owned()));
            },
        };
        if !self.has_room(scheme.qualifiers.len()) {
            return Err(InferError::OutOfIds);
        }
        Ok(self.instantiate(&scheme))
    }

    /// The definition of the named type that `alias` refers to, with the
    /// arguments of `alias` in place of its parameters.
    pub fn lookup_alias(&self, alias: &AliasType) -> (r: Result<Type, InferError>)
        ensures
            crate::error::result_model(r) == lookup_alias_spec(
                self@.types,
                alias.name@,
                match alias.type_params {
                    Some(ts) => Some(type_models(ts)),
                    None => None,
                },
            ),
    {
        let scheme = match self.types.get(alias.name.as_str()) {
            Some(sc) => sc,
            None => {
                return Err(InferError::UnknownType(alias.name.clone()));
            },
        };
        let empty: Vec<Type> = Vec::new();
        let given: &Vec<Type> = match &alias.type_params {
            Some(ts) => ts,
            None => &empty,
        };
        assert(type_models(empty) =~= Seq::empty());
        if given.len() != scheme.qualifiers.len() {
            return Err(InferError::WrongTypeArguments(alias.name.clone()));
        }
        let mut subs = Subst::new();
        let mut i: usize = 0;
        while i < given.len()
            invariant
                i <= given.len(),
                given.len() == scheme.qualifiers.len(),
                subs@ == args_map(scheme@.qualifiers, type_models(*given), i as int),
            decreases given.len() - i,
        {
            subs.insert(scheme.qualifiers[i], copy_type(&given[i]));
            i += 1;
        }
        Ok(apply_type(&scheme.ty, &subs))
    }
}

impl TProp {
    /// The type that the property stands for: `ty | undefined` when it is
    /// optional, `ty` when it is not.
    pub fn get_type(&self, ctx: &mut Context) -> (r: Type)
        requires
            self.optional ==> old(ctx)@.has_room(2),
        ensures
            moved_on(old(ctx)@, final(ctx)@),
            scope_kept(old(ctx)@, final(ctx)@),
            r@ == prop_type_spec(self@, old(ctx)@.count),
            final(ctx)@ == old(ctx)@.advance(if self.optional { 2int } else { 0int }),
    {
        if self.optional {
            let undefined = ctx.prim(Primitive::Undefined);
            let mut members: Vec<Type> = Vec::new();
            members.push(copy_type(&self.ty));
            members.push(undefined);
            assert(type_models(members) =~= seq![
                self@.ty,
                fresh_type(Kind::Prim(Primitive::Undefined), old(ctx)@.count + 1),
            ]);
            ctx.union(members)
        } else {
            copy_type(&self.ty)
        }
    }
}

} // verus!
