//! The type representation: executable types, their mathematical models and
//! the variable-aware structural equality between them.
use vstd::prelude::*;

verus! {

/// The built-in primitive types.
#[derive(Clone, Copy, Debug, PartialEq, Eq, Hash, Structural)]
pub enum Primitive {
    Num,
    Bool,
    Str,
    Undefined,
    Null,
}

/// A literal type: the type of exactly one value.
#[derive(Debug)]
pub enum Lit {
    /// A number, kept as written in the source.
    Num(String),
    Bool(bool),
    Str(String),
    Null,
    Undefined,
}

/// Model of a [`Lit`].
pub enum LitModel {
    Num(Seq<char>),
    Bool(bool),
    Str(Seq<char>),
    Null,
    Undefined,
}

impl View for Lit {
    type V = LitModel;

    open spec fn view(&self) -> LitModel {
        match self {
            Lit::Num(n) => LitModel::Num(n@),
            Lit::Bool(b) => LitModel::Bool(*b),
            Lit::Str(s) => LitModel::Str(s@),
            Lit::Null => LitModel::Null,
            Lit::Undefined => LitModel::Undefined,
        }
    }
}

impl LitModel {
    /// The primitive that subsumes this literal.
    pub open spec fn kind(self) -> Primitive {
        match self {
            LitModel::Num(_) => Primitive::Num,
            LitModel::Bool(_) => Primitive::Bool,
            LitModel::Str(_) => Primitive::Str,
            LitModel::Null => Primitive::Null,
            LitModel::Undefined => Primitive::Undefined,
        }
    }
}

impl Clone for Lit {
    fn clone(&self) -> (r: Lit)
        ensures
            r@ == self@,
    {
        match self {
            Lit::Num(n) => Lit::Num(n.clone()),
            Lit::Bool(b) => Lit::Bool(*b),
            Lit::Str(s) => Lit::Str(s.clone()),
            Lit::Null => Lit::Null,
            Lit::Undefined => Lit::Undefined,
        }
    }
}

impl Lit {
    /// The primitive that subsumes this literal.
    pub fn kind(&self) -> (r: Primitive)
        ensures
            r == self@.kind(),
    {
        match self {
            Lit::Num(_) => Primitive::Num,
            Lit::Bool(_) => Primitive::Bool,
            Lit::Str(_) => Primitive::Str,
            Lit::Null => Primitive::Null,
            Lit::Undefined => Primitive::Undefined,
        }
    }

    /// Whether two literals denote the same value.
    pub fn same_as(&self, other: &Lit) -> (r: bool)
        ensures
            r == (self@ == other@),
    {
        match (self, other) {
            (Lit::Num(a), Lit::Num(b)) => *a == *b,
            (Lit::Bool(a), Lit::Bool(b)) => *a == *b,
            (Lit::Str(a), Lit::Str(b)) => *a == *b,
            (Lit::Null, Lit::Null) => true,
            (Lit::Undefined, Lit::Undefined) => true,
            _ => false,
        }
    }
}

/// A property of an object type.
#[derive(Debug)]
pub struct TProp {
    pub name: String,
    pub optional: bool,
    pub ty: Type,
}

/// A type variable by itself: the id that names it and its `frozen` mark.
/// Two are equal when their ids are.
#[derive(Clone, Copy, Debug)]
pub struct VarType {
    pub id: i32,
    pub frozen: bool,
}

/// The type of a function, or of a call site when `is_call` is set.
#[derive(Debug)]
pub struct LamType {
    pub params: Vec<Type>,
    pub ret: Box<Type>,
    pub is_call: bool,
}

/// A reference to a named type, with its arguments if it has any.
#[derive(Debug)]
pub struct AliasType {
    pub name: String,
    pub type_params: Option<Vec<Type>>,
}

/// The deferred projection of a property out of a type.
#[derive(Debug)]
pub struct MemberType {
    pub obj: Box<Type>,
    pub prop: String,
}

/// The shapes a type can take.
#[derive(Debug)]
pub enum Variant {
    Var,
    Lam(LamType),
    Prim(Primitive),
    Lit(Lit),
    Union(Vec<Type>),
    Intersection(Vec<Type>),
    Object(Vec<TProp>),
    Alias(AliasType),
    Tuple(Vec<Type>),
    Array(Box<Type>),
    Rest(Box<Type>),
    Member(MemberType),
}

/// A type. `id` names the variable when the variant is `Var` and is a mere
/// creation stamp otherwise; `frozen` marks a type that stems from an explicit
/// declaration.
#[derive(Debug)]
pub struct Type {
    pub variant: Variant,
    pub id: i32,
    pub frozen: bool,
}

/// Model of a [`TProp`].
pub struct Prop {
    pub name: Seq<char>,
    pub optional: bool,
    pub ty: Ty,
}

/// Model of a [`Variant`].
pub enum Kind {
    Var,
    Lam { params: Seq<Ty>, ret: Box<Ty>, is_call: bool },
    Prim(Primitive),
    Lit(LitModel),
    Union(Seq<Ty>),
    Intersection(Seq<Ty>),
    Object(Seq<Prop>),
    Alias { name: Seq<char>, args: Option<Seq<Ty>> },
    Tuple(Seq<Ty>),
    Array(Box<Ty>),
    Rest(Box<Ty>),
    Member { obj: Box<Ty>, prop: Seq<char> },
}

/// Model of a [`Type`].
pub struct Ty {
    pub kind: Kind,
    pub id: int,
    pub frozen: bool,
}

/// The model of a type.
pub open spec fn type_model(t: Type) -> Ty
    decreases t,
{
    let kind = match t.variant {
        Variant::Var => Kind::Var,
        Variant::Lam(lam) => Kind::Lam {
            params: type_models(lam.params),
            ret: Box::new(type_model(*lam.ret)),
            is_call: lam.is_call,
        },
        Variant::Prim(p) => Kind::Prim(p),
        Variant::Lit(l) => Kind::Lit(l@),
        Variant::Union(ts) => Kind::Union(type_models(ts)),
        Variant::Intersection(ts) => Kind::Intersection(type_models(ts)),
        Variant::Object(ps) => Kind::Object(prop_models(ps)),
        Variant::Alias(a) => Kind::Alias {
            name: a.name@,
            args: match a.type_params {
                Some(ts) => Some(type_models(ts)),
                None => None,
            },
        },
        Variant::Tuple(ts) => Kind::Tuple(type_models(ts)),
        Variant::Array(t) => Kind::Array(Box::new(type_model(*t))),
        Variant::Rest(t) => Kind::Rest(Box::new(type_model(*t))),
        Variant::Member(m) => Kind::Member { obj: Box::new(type_model(*m.obj)), prop: m.prop@ },
    };
    Ty { kind, id: t.id as int, frozen: t.frozen }
}

/// The models of a vector of types, in order.
pub open spec fn type_models(ts: Vec<Type>) -> Seq<Ty>
    decreases ts,
{
    Seq::new(ts.len() as nat, |i: int| if 0 <= i < ts.len() { type_model(ts[i]) } else { arbitrary() })
}

/// The model of a property.
pub open spec fn prop_model(p: TProp) -> Prop
    decreases p,
{
    Prop { name: p.name@, optional: p.optional, ty: type_model(p.ty) }
}

/// The models of a vector of properties, in order.
pub open spec fn prop_models(ps: Vec<TProp>) -> Seq<Prop>
    decreases ps,
{
    Seq::new(ps.len() as nat, |i: int| if 0 <= i < ps.len() { prop_model(ps[i]) } else { arbitrary() })
}

impl View for TProp {
    type V = Prop;

    open spec fn view(&self) -> Prop {
        prop_model(*self)
    }
}

impl View for Type {
    type V = Ty;

    open spec fn view(&self) -> Ty {
        type_model(*self)
    }
}

/// A copy of a type, with the same model.
pub fn copy_type(t: &Type) -> (r: Type)
    ensures
        r@ == t@,
    decreases t,
{
    let variant = match &t.variant {
        Variant::Var => Variant::Var,
        Variant::Lam(lam) => Variant::Lam(
            LamType {
                params: copy_types(&lam.params),
                ret: Box::new(copy_type(&lam.ret)),
                is_call: lam.is_call,
            },
        ),
        Variant::Prim(p) => Variant::Prim(*p),
        Variant::Lit(l) => Variant::Lit(l.clone()),
        Variant::Union(ts) => Variant::Union(copy_types(ts)),
        Variant::Intersection(ts) => Variant::Intersection(copy_types(ts)),
        Variant::Object(ps) => Variant::Object(copy_props(ps)),
        Variant::Alias(a) => Variant::Alias(
            AliasType {
                name: a.name.clone(),
                type_params: match &a.type_params {
                    Some(ts) => Some(copy_types(ts)),
                    None => None,
                },
            },
        ),
        Variant::Tuple(ts) => Variant::Tuple(copy_types(ts)),
        Variant::Array(e) => Variant::Array(Box::new(copy_type(e))),
        Variant::Rest(e) => Variant::Rest(Box::new(copy_type(e))),
        Variant::Member(m) => Variant::Member(
            MemberType { obj: Box::new(copy_type(&m.obj)), prop: m.prop.clone() },
        ),
    };
    Type { variant, id: t.id, frozen: t.frozen }
}

/// A copy of a vector of types, with the same models.
pub fn copy_types(ts: &Vec<Type>) -> (r: Vec<Type>)
    ensures
        type_models(r) == type_models(*ts),
    decreases ts,
{
    let mut out: Vec<Type> = Vec::new();
    let mut i: usize = 0;
    while i < ts.len()
        invariant
            i <= ts.len(),
            out.len() == i,
            forall|j: int| 0 <= j < i ==> type_model(#[trigger] out[j]) == type_model(ts[j]),
        decreases ts.len() - i,
    {
        out.push(copy_type(&ts[i]));
        i += 1;
    }
    assert(type_models(out) =~= type_models(*ts));
    out
}

/// A copy of a property, with the same model.
pub fn copy_prop(p: &TProp) -> (r: TProp)
    ensures
        r@ == p@,
    decreases p,
{
    TProp { name: p.name.clone(), optional: p.optional, ty: copy_type(&p.ty) }
}

/// A copy of a vector of properties, with the same models.
pub fn copy_props(ps: &Vec<TProp>) -> (r: Vec<TProp>)
    ensures
        prop_models(r) == prop_models(*ps),
    decreases ps,
{
    let mut out: Vec<TProp> = Vec::new();
    let mut i: usize = 0;
    while i < ps.len()
        invariant
            i <= ps.len(),
            out.len() == i,
            forall|j: int| 0 <= j < i ==> prop_model(#[trigger] out[j]) == prop_model(ps[j]),
        decreases ps.len() - i,
    {
        out.push(copy_prop(&ps[i]));
        i += 1;
    }
    assert(prop_models(out) =~= prop_models(*ps));
    out
}

impl Clone for Type {
    fn clone(&self) -> (r: Type)
        ensures
            r@ == self@,
    {
        copy_type(self)
    }
}

impl Clone for TProp {
    fn clone(&self) -> (r: TProp)
        ensures
            r@ == self@,
    {
        copy_prop(self)
    }
}

/// What equality sees of a type: a variable keeps its `id` and nothing else,
/// every other type loses `id`, `frozen` and `is_call`, at every depth.
pub open spec fn shape(t: Ty) -> Ty
    decreases t,
{
    match t.kind {
        Kind::Var => Ty { kind: Kind::Var, id: t.id, frozen: false },
        Kind::Lam { params, ret, is_call } => Ty {
            kind: Kind::Lam { params: shapes(params), ret: Box::new(shape(*ret)), is_call: false },
            id: 0,
            frozen: false,
        },
        Kind::Prim(p) => Ty { kind: Kind::Prim(p), id: 0, frozen: false },
        Kind::Lit(l) => Ty { kind: Kind::Lit(l), id: 0, frozen: false },
        Kind::Union(ts) => Ty { kind: Kind::Union(shapes(ts)), id: 0, frozen: false },
        Kind::Intersection(ts) => Ty { kind: Kind::Intersection(shapes(ts)), id: 0, frozen: false },
        Kind::Object(ps) => Ty { kind: Kind::Object(prop_shapes(ps)), id: 0, frozen: false },
        Kind::Alias { name, args } => Ty {
            kind: Kind::Alias {
                name,
                args: match args {
                    Some(ts) => Some(shapes(ts)),
                    None => None,
                },
            },
            id: 0,
            frozen: false,
        },
        Kind::Tuple(ts) => Ty { kind: Kind::Tuple(shapes(ts)), id: 0, frozen: false },
        Kind::Array(e) => Ty { kind: Kind::Array(Box::new(shape(*e))), id: 0, frozen: false },
        Kind::Rest(e) => Ty { kind: Kind::Rest(Box::new(shape(*e))), id: 0, frozen: false },
        Kind::Member { obj, prop } => Ty {
            kind: Kind::Member { obj: Box::new(shape(*obj)), prop },
            id: 0,
            frozen: false,
        },
    }
}

/// [`shape`] of each type of a sequence.
pub open spec fn shapes(ts: Seq<Ty>) -> Seq<Ty>
    decreases ts,
{
    Seq::new(ts.len(), |i: int| if 0 <= i < ts.len() { shape(ts[i]) } else { arbitrary() })
}

/// [`shape`] of each property's type.
pub open spec fn prop_shapes(ps: Seq<Prop>) -> Seq<Prop>
    decreases ps,
{
    Seq::new(
        ps.len(),
        |i: int|
            if 0 <= i < ps.len() {
                Prop { name: ps[i].name, optional: ps[i].optional, ty: shape(ps[i].ty) }
            } else {
                arbitrary()
            },
    )
}

/// Equality of types: structural, but for variables, which are equal when
/// their ids are.
pub open spec fn same(a: Ty, b: Ty) -> bool {
    shape(a) == shape(b)
}

/// Equality of types is an equivalence: every type equals itself, and two
/// types that equal a third equal each other.
pub proof fn lemma_same_is_equivalence(a: Ty, b: Ty, c: Ty)
    ensures
        same(a, a),
        same(a, b) == same(b, a),
        same(a, b) && same(b, c) ==> same(a, c),
{
}

/// Whether two types are equal in the sense of [`same`].
pub fn same_type(a: &Type, b: &Type) -> (r: bool)
    ensures
        r == same(a@, b@),
    decreases a,
{
    match (&a.variant, &b.variant) {
        (Variant::Var, Variant::Var) => a.id == b.id,
        (Variant::Lam(x), Variant::Lam(y)) => {
            let r = same_types(&x.params, &y.params) && same_type(&x.ret, &y.ret);
            r
        },
        (Variant::Prim(p), Variant::Prim(q)) => *p == *q,
        (Variant::Lit(l), Variant::Lit(m)) => l.same_as(m),
        (Variant::Union(x), Variant::Union(y)) => same_types(x, y),
        (Variant::Intersection(x), Variant::Intersection(y)) => same_types(x, y),
        (Variant::Object(x), Variant::Object(y)) => same_props(x, y),
        (Variant::Alias(x), Variant::Alias(y)) => {
            if x.name != y.name {
                false
            } else {
                match (&x.type_params, &y.type_params) {
                    (Some(xs), Some(ys)) => same_types(xs, ys),
                    (None, None) => true,
                    _ => false,
                }
            }
        },
        (Variant::Tuple(x), Variant::Tuple(y)) => same_types(x, y),
        (Variant::Array(x), Variant::Array(y)) => same_type(x, y),
        (Variant::Rest(x), Variant::Rest(y)) => same_type(x, y),
        (Variant::Member(x), Variant::Member(y)) => {
            let r = same_type(&x.obj, &y.obj) && x.prop == y.prop;
            r
        },
        _ => false,
    }
}

/// Whether two vectors of types are equal element by element.
pub fn same_types(xs: &Vec<Type>, ys: &Vec<Type>) -> (r: bool)
    ensures
        r == (shapes(type_models(*xs)) == shapes(type_models(*ys))),
    decreases xs,
{
    if xs.len() != ys.len() {
        assert(shapes(type_models(*xs)).len() != shapes(type_models(*ys)).len());
        return false;
    }
    let mut i: usize = 0;
    while i < xs.len()
        invariant
            i <= xs.len(),
            xs.len() == ys.len(),
            forall|j: int| 0 <= j < i ==> same(type_model(#[trigger] xs[j]), type_model(ys[j])),
        decreases xs.len() - i,
    {
        if !same_type(&xs[i], &ys[i]) {
            assert(shapes(type_models(*xs))[i as int] != shapes(type_models(*ys))[i as int]);
            return false;
        }
        i += 1;
    }
    assert(shapes(type_models(*xs)) =~= shapes(type_models(*ys)));
    true
}

/// Whether two vectors of properties are equal element by element.
pub fn same_props(xs: &Vec<TProp>, ys: &Vec<TProp>) -> (r: bool)
    ensures
        r == (prop_shapes(prop_models(*xs)) == prop_shapes(prop_models(*ys))),
    decreases xs,
{
    if xs.len() != ys.len() {
        assert(prop_shapes(prop_models(*xs)).len() != prop_shapes(prop_models(*ys)).len());
        return false;
    }
    let mut i: usize = 0;
    while i < xs.len()
        invariant
            i <= xs.len(),
            xs.len() == ys.len(),
            forall|j: int|
                0 <= j < i ==> prop_shapes(prop_models(*xs))[j] == prop_shapes(
                    prop_models(*ys),
                )[j],
        decreases xs.len() - i,
    {
        let x = &xs[i];
        let y = &ys[i];
        let eq = x.name == y.name && x.optional == y.optional && same_type(&x.ty, &y.ty);
        if !eq {
            assert(prop_shapes(prop_models(*xs))[i as int] != prop_shapes(prop_models(*ys))[i as int]);
            return false;
        }
        i += 1;
    }
    assert(prop_shapes(prop_models(*xs)) =~= prop_shapes(prop_models(*ys)));
    true
}

/// The type with its `frozen` mark set to `frozen` and the mark of every type
/// nested in it set.
pub open spec fn with_frozen(t: Ty, frozen: bool) -> Ty
    decreases t,
{
    let kind = match t.kind {
        Kind::Var => Kind::Var,
        Kind::Lam { params, ret, is_call } => Kind::Lam {
            params: all_frozen(params),
            ret: Box::new(with_frozen(*ret, true)),
            is_call,
        },
        Kind::Prim(p) => Kind::Prim(p),
        Kind::Lit(l) => Kind::Lit(l),
        Kind::Union(ts) => Kind::Union(all_frozen(ts)),
        Kind::Intersection(ts) => Kind::Intersection(all_frozen(ts)),
        Kind::Object(ps) => Kind::Object(props_frozen(ps)),
        Kind::Alias { name, args } => Kind::Alias {
            name,
            args: match args {
                Some(ts) => Some(all_frozen(ts)),
                None => None,
            },
        },
        Kind::Tuple(ts) => Kind::Tuple(all_frozen(ts)),
        Kind::Array(e) => Kind::Array(Box::new(with_frozen(*e, true))),
        Kind::Rest(e) => Kind::Rest(Box::new(with_frozen(*e, true))),
        Kind::Member { obj, prop } => Kind::Member { obj: Box::new(with_frozen(*obj, true)), prop },
    };
    Ty { kind, id: t.id, frozen }
}

/// Each type of a sequence, frozen.
pub open spec fn all_frozen(ts: Seq<Ty>) -> Seq<Ty>
    decreases ts,
{
    Seq::new(ts.len(), |i: int| if 0 <= i < ts.len() { with_frozen(ts[i], true) } else { arbitrary() })
}

/// Each property of a sequence, with its type frozen.
pub open spec fn props_frozen(ps: Seq<Prop>) -> Seq<Prop>
    decreases ps,
{
    Seq::new(
        ps.len(),
        |i: int|
            if 0 <= i < ps.len() {
                Prop { name: ps[i].name, optional: ps[i].optional, ty: with_frozen(ps[i].ty, true) }
            } else {
                arbitrary()
            },
    )
}

fn frozen_copy(t: &Type, frozen: bool) -> (r: Type)
    ensures
        r@ == with_frozen(t@, frozen),
    decreases t,
{
    let variant = match &t.variant {
        Variant::Var => Variant::Var,
        Variant::Lam(lam) => Variant::Lam(
            LamType {
                params: frozen_copies(&lam.params),
                ret: Box::new(frozen_copy(&lam.ret, true)),
                is_call: lam.is_call,
            },
        ),
        Variant::Prim(p) => Variant::Prim(*p),
        Variant::Lit(l) => Variant::Lit(l.clone()),
        Variant::Union(ts) => Variant::Union(frozen_copies(ts)),
        Variant::Intersection(ts) => Variant::Intersection(frozen_copies(ts)),
        Variant::Object(ps) => Variant::Object(frozen_props(ps)),
        Variant::Alias(a) => Variant::Alias(
            AliasType {
                name: a.name.clone(),
                type_params: match &a.type_params {
                    Some(ts) => Some(frozen_copies(ts)),
                    None => None,
                },
            },
        ),
        Variant::Tuple(ts) => Variant::Tuple(frozen_copies(ts)),
        Variant::Array(e) => Variant::Array(Box::new(frozen_copy(e, true))),
        Variant::Rest(e) => Variant::Rest(Box::new(frozen_copy(e, true))),
        Variant::Member(m) => Variant::Member(
            MemberType { obj: Box::new(frozen_copy(&m.obj, true)), prop: m.prop.clone() },
        ),
    };
    Type { variant, id: t.id, frozen }
}

fn frozen_copies(ts: &Vec<Type>) -> (r: Vec<Type>)
    ensures
        type_models(r) == all_frozen(type_models(*ts)),
    decreases ts,
{
    let mut out: Vec<Type> = Vec::new();
    let mut i: usize = 0;
    while i < ts.len()
        invariant
            i <= ts.len(),
            out.len() == i,
            forall|j: int|
                0 <= j < i ==> type_model(#[trigger] out[j]) == with_frozen(type_model(ts[j]), true),
        decreases ts.len() - i,
    {
        out.push(frozen_copy(&ts[i], true));
        i += 1;
    }
    assert(type_models(out) =~= all_frozen(type_models(*ts)));
    out
}

fn frozen_props(ps: &Vec<TProp>) -> (r: Vec<TProp>)
    ensures
        prop_models(r) == props_frozen(prop_models(*ps)),
    decreases ps,
{
    let mut out: Vec<TProp> = Vec::new();
    let mut i: usize = 0;
    while i < ps.len()
        invariant
            i <= ps.len(),
            out.len() == i,
            forall|j: int|
                0 <= j < i ==> prop_model(#[trigger] out[j]) == props_frozen(prop_models(*ps))[j],
        decreases ps.len() - i,
    {
        let p = &ps[i];
        out.push(TProp { name: p.name.clone(), optional: p.optional, ty: frozen_copy(&p.ty, true) });
        i += 1;
    }
    assert(prop_models(out) =~= props_frozen(prop_models(*ps)));
    out
}

/// Sets the `frozen` mark of `ty` to `frozen`, and the mark of every type
/// nested in it.
pub fn set_frozen(ty: Type, frozen: bool) -> (r: Type)
    ensures
        r@ == with_frozen(ty@, frozen),
{
    frozen_copy(&ty, frozen)
}

/// Marks a type, and every type nested in it, as frozen.
pub fn freeze(ty: Type) -> (r: Type)
    ensures
        r@ == with_frozen(ty@, true),
{
    set_frozen(ty, true)
}

/// Clears the `frozen` mark at the root of a type; the types nested in it are
/// marked frozen.
pub fn unfreeze(ty: Type) -> (r: Type)
    ensures
        r@ == with_frozen(ty@, false),
{
    set_frozen(ty, false)
}

/// A type quantified over the variables listed in `qualifiers`.
#[derive(Debug)]
pub struct Scheme {
    pub qualifiers: Vec<i32>,
    pub ty: Type,
}

/// Model of a [`Scheme`].
pub struct SchemeModel {
    pub qualifiers: Seq<int>,
    pub ty: Ty,
}

/// The ids of a vector, as mathematical integers.
pub open spec fn ids_model(ids: Vec<i32>) -> Seq<int> {
    Seq::new(ids.len() as nat, |i: int| ids[i] as int)
}

impl View for Scheme {
    type V = SchemeModel;

    open spec fn view(&self) -> SchemeModel {
        SchemeModel { qualifiers: ids_model(self.qualifiers), ty: self.ty@ }
    }
}

/// A copy of a vector of ids.
pub fn copy_ids(ids: &Vec<i32>) -> (r: Vec<i32>)
    ensures
        r@ == ids@,
{
    let mut out: Vec<i32> = Vec::new();
    let mut i: usize = 0;
    while i < ids.len()
        invariant
            i <= ids.len(),
            out@ == ids@.take(i as int),
        decreases ids.len() - i,
    {
        out.push(ids[i]);
        assert(ids@.take(i + 1) =~= ids@.take(i as int).push(ids[i as int]));
        i += 1;
    }
    assert(ids@.take(ids.len() as int) =~= ids@);
    out
}

impl Clone for Scheme {
    fn clone(&self) -> (r: Scheme)
        ensures
            r@ == self@,
    {
        let r = Scheme { qualifiers: copy_ids(&self.qualifiers), ty: copy_type(&self.ty) };
        assert(ids_model(r.qualifiers) =~= ids_model(self.qualifiers));
        r
    }
}

impl Scheme {
    /// The scheme that quantifies over nothing.
    pub fn from_type(ty: Type) -> (r: Scheme)
        ensures
            r@ == (SchemeModel { qualifiers: Seq::empty(), ty: ty@ }),
    {
        let r = Scheme { qualifiers: Vec::new(), ty };
        assert(ids_model(r.qualifiers) =~= Seq::empty());
        r
    }
}

/// Marks the type of a scheme, and every type nested in it, as frozen.
pub fn freeze_scheme(scheme: Scheme) -> (r: Scheme)
    ensures
        r@ == (SchemeModel { qualifiers: scheme@.qualifiers, ty: with_frozen(scheme@.ty, true) }),
{
    let Scheme { qualifiers, ty } = scheme;
    Scheme { qualifiers, ty: freeze(ty) }
}

/// The models of a vector that grew by one element.
pub proof fn lemma_type_models_push(before: Vec<Type>, after: Vec<Type>, t: Type)
    requires
        after@ == before@.push(t),
    ensures
        type_models(after) == type_models(before).push(t@),
{
    assert(type_models(after) =~= type_models(before).push(t@));
}

/// The models of a vector of properties that grew by one element.
pub proof fn lemma_prop_models_push(before: Vec<TProp>, after: Vec<TProp>, p: TProp)
    requires
        after@ == before@.push(p),
    ensures
        prop_models(after) == prop_models(before).push(p@),
{
    assert(prop_models(after) =~= prop_models(before).push(p@));
}

/// The models of an empty vector.
pub proof fn lemma_type_models_empty(v: Vec<Type>)
    requires
        v@.len() == 0,
    ensures
        type_models(v) == Seq::<Ty>::empty(),
{
    assert(type_models(v) =~= Seq::<Ty>::empty());
}

/// Pushes a type, and says what that does to the models.
pub fn push_type(v: &mut Vec<Type>, t: Type)
    ensures
        type_models(*final(v)) == type_models(*old(v)).push(t@),
        final(v)@ == old(v)@.push(t),
{
    let ghost before = *v;
    v.push(t);
    proof {
        lemma_type_models_push(before, *v, t);
    }
}

/// Pushes a property, and says what that does to the models.
pub fn push_prop(v: &mut Vec<TProp>, p: TProp)
    ensures
        prop_models(*final(v)) == prop_models(*old(v)).push(p@),
        final(v)@ == old(v)@.push(p),
{
    let ghost before = *v;
    v.push(p);
    proof {
        lemma_prop_models_push(before, *v, p);
    }
}

/// An empty vector of types.
pub fn no_types() -> (v: Vec<Type>)
    ensures
        type_models(v) == Seq::<Ty>::empty(),
        v@.len() == 0,
{
    let v: Vec<Type> = Vec::new();
    proof {
        lemma_type_models_empty(v);
    }
    v
}

/// An empty vector of properties.
pub fn no_props() -> (v: Vec<TProp>)
    ensures
        prop_models(v) == Seq::<Prop>::empty(),
        v@.len() == 0,
{
    let v: Vec<TProp> = Vec::new();
    assert(prop_models(v) =~= Seq::<Prop>::empty());
    v
}

impl Type {
    /// The variable that the type is, where it is one.
    pub fn as_var(&self) -> (r: Option<VarType>)
        ensures
            r is Some <==> self@.kind is Var,
            r is Some ==> r->Some_0.id == self.id && r->Some_0.frozen == self.frozen,
    {
        match &self.variant {
            Variant::Var => Some(VarType { id: self.id, frozen: self.frozen }),
            _ => None,
        }
    }
}

/// Whether two types have the same model: equal in every part, ids and
/// marks included.
pub fn identical_type(a: &Type, b: &Type) -> (r: bool)
    ensures
        r == (a@ == b@),
    decreases a,
{
    if a.id != b.id || a.frozen != b.frozen {
        return false;
    }
    match (&a.variant, &b.variant) {
        (Variant::Var, Variant::Var) => true,
        (Variant::Lam(x), Variant::Lam(y)) => {
            let r = x.is_call == y.is_call && identical_types(&x.params, &y.params)
                && identical_type(&x.ret, &y.ret);
            r
        },
        (Variant::Prim(p), Variant::Prim(q)) => *p == *q,
        (Variant::Lit(l), Variant::Lit(m)) => l.same_as(m),
        (Variant::Union(x), Variant::Union(y)) => identical_types(x, y),
        (Variant::Intersection(x), Variant::Intersection(y)) => identical_types(x, y),
        (Variant::Object(x), Variant::Object(y)) => identical_props(x, y),
        (Variant::Alias(x), Variant::Alias(y)) => {
            if x.name != y.name {
                false
            } else {
                match (&x.type_params, &y.type_params) {
                    (Some(xs), Some(ys)) => identical_types(xs, ys),
                    (None, None) => true,
                    _ => false,
                }
            }
        },
        (Variant::Tuple(x), Variant::Tuple(y)) => identical_types(x, y),
        (Variant::Array(x), Variant::Array(y)) => identical_type(x, y),
        (Variant::Rest(x), Variant::Rest(y)) => identical_type(x, y),
        (Variant::Member(x), Variant::Member(y)) => {
            let r = identical_type(&x.obj, &y.obj) && x.prop == y.prop;
            r
        },
        _ => false,
    }
}

/// Whether two vectors of types have the same models.
pub fn identical_types(xs: &Vec<Type>, ys: &Vec<Type>) -> (r: bool)
    ensures
        r == (type_models(*xs) == type_models(*ys)),
    decreases xs,
{
    if xs.len() != ys.len() {
        assert(type_models(*xs).len() != type_models(*ys).len());
        return false;
    }
    let mut i: usize = 0;
    while i < xs.len()
        invariant
            i <= xs.len(),
            xs.len() == ys.len(),
            forall|j: int| 0 <= j < i ==> type_model(#[trigger] xs[j]) == type_model(ys[j]),
        decreases xs.len() - i,
    {
        if !identical_type(&xs[i], &ys[i]) {
            assert(type_models(*xs)[i as int] != type_models(*ys)[i as int]);
            return false;
        }
        i += 1;
    }
    assert(type_models(*xs) =~= type_models(*ys));
    true
}

/// Whether two vectors of properties have the same models.
pub fn identical_props(xs: &Vec<TProp>, ys: &Vec<TProp>) -> (r: bool)
    ensures
        r == (prop_models(*xs) == prop_models(*ys)),
    decreases xs,
{
    if xs.len() != ys.len() {
        assert(prop_models(*xs).len() != prop_models(*ys).len());
        return false;
    }
    let mut i: usize = 0;
    while i < xs.len()
        invariant
            i <= xs.len(),
            xs.len() == ys.len(),
            forall|j: int| 0 <= j < i ==> prop_model(#[trigger] xs[j]) == prop_model(ys[j]),
        decreases xs.len() - i,
    {
        let x = &xs[i];
        let y = &ys[i];
        let eq = x.name == y.name && x.optional == y.optional && identical_type(&x.ty, &y.ty);
        if !eq {
            assert(prop_models(*xs)[i as int] != prop_models(*ys)[i as int]);
            return false;
        }
        i += 1;
    }
    assert(prop_models(*xs) =~= prop_models(*ys));
    true
}

/// Whether two vectors of ids hold the same ids in the same order.
pub fn identical_ids(xs: &Vec<i32>, ys: &Vec<i32>) -> (r: bool)
    ensures
        r == (ids_model(*xs) == ids_model(*ys)),
{
    if xs.len() != ys.len() {
        assert(ids_model(*xs).len() != ids_model(*ys).len());
        return false;
    }
    let mut i: usize = 0;
    while i < xs.len()
        invariant
            i <= xs.len(),
            xs.len() == ys.len(),
            forall|j: int| 0 <= j < i ==> xs[j] == ys[j],
        decreases xs.len() - i,
    {
        if xs[i] != ys[i] {
            assert(ids_model(*xs)[i as int] != ids_model(*ys)[i as int]);
            return false;
        }
        i += 1;
    }
    assert(ids_model(*xs) =~= ids_model(*ys));
    true
}

} // verus!
