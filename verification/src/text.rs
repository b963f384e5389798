//! How types, schemes and errors are written out.
use vstd::prelude::*;
use vstd::string::StringExecFns;
use crate::error::{ErrorModel, InferError};
use crate::types::{
    ids_model, prop_models, type_models, Kind, Lit, LitModel, Primitive, Prop, Scheme, SchemeModel,
    TProp, Ty, Type, Variant,
};

verus! {

/// The decimal digit `d`.
pub open spec fn digit_text(d: int) -> Seq<char> {
    if d == 0 {
        "0"@
    } else if d == 1 {
        "1"@
    } else if d == 2 {
        "2"@
    } else if d == 3 {
        "3"@
    } else if d == 4 {
        "4"@
    } else if d == 5 {
        "5"@
    } else if d == 6 {
        "6"@
    } else if d == 7 {
        "7"@
    } else if d == 8 {
        "8"@
    } else {
        "9"@
    }
}

/// A natural number in decimal, without leading zeros.
pub open spec fn nat_text(n: nat) -> Seq<char>
    decreases n,
{
    if n < 10 {
        digit_text(n as int)
    } else {
        nat_text(n / 10) + digit_text((n % 10) as int)
    }
}

/// An integer in decimal, with a minus sign when it is negative.
pub open spec fn int_text(i: int) -> Seq<char> {
    if i < 0 {
        "-"@ + nat_text((-i) as nat)
    } else {
        nat_text(i as nat)
    }
}

/// The first `n` of `parts`, with `sep` between each two.
pub open spec fn join_text(parts: Seq<Seq<char>>, sep: Seq<char>, n: nat) -> Seq<char>
    decreases n,
{
    if n == 0 {
        Seq::empty()
    } else if n == 1 {
        parts[0]
    } else {
        join_text(parts, sep, (n - 1) as nat) + sep + parts[n - 1]
    }
}

/// The name of a primitive type.
pub open spec fn prim_text(p: Primitive) -> Seq<char> {
    match p {
        Primitive::Num => "number"@,
        Primitive::Bool => "boolean"@,
        Primitive::Str => "string"@,
        Primitive::Undefined => "undefined"@,
        Primitive::Null => "null"@,
    }
}

/// A literal type as written: a string between double quotes, the others
/// bare.
pub open spec fn lit_text(l: LitModel) -> Seq<char> {
    match l {
        LitModel::Num(n) => n,
        LitModel::Bool(b) => if b {
            "true"@
        } else {
            "false"@
        },
        LitModel::Str(s) => "\""@ + s + "\""@,
        LitModel::Null => "null"@,
        LitModel::Undefined => "undefined"@,
    }
}

/// A type as written.
pub open spec fn type_text(t: Ty) -> Seq<char>
    decreases t,
{
    match t.kind {
        Kind::Var => "t"@ + int_text(t.id),
        Kind::Lam { params, ret, .. } => "("@ + join_text(type_texts(params), ", "@, params.len())
            + ") => "@ + type_text(*ret),
        Kind::Prim(p) => prim_text(p),
        Kind::Lit(l) => lit_text(l),
        Kind::Union(ts) => join_text(type_texts(ts), " | "@, ts.len()),
        Kind::Intersection(ts) => join_text(type_texts(ts), " & "@, ts.len()),
        Kind::Object(ps) => "{"@ + join_text(prop_texts(ps), ", "@, ps.len()) + "}"@,
        Kind::Alias { name, args } => match args {
            Some(ts) => name + "<"@ + join_text(type_texts(ts), ", "@, ts.len()) + ">"@,
            None => name,
        },
        Kind::Tuple(ts) => "["@ + join_text(type_texts(ts), ", "@, ts.len()) + "]"@,
        Kind::Array(e) => type_text(*e) + "[]"@,
        Kind::Rest(e) => "..."@ + type_text(*e),
        Kind::Member { obj, prop } => type_text(*obj) + "[\""@ + prop + "\"]"@,
    }
}

/// Each type of a sequence as written.
pub open spec fn type_texts(ts: Seq<Ty>) -> Seq<Seq<char>>
    decreases ts,
{
    Seq::new(ts.len(), |i: int| if 0 <= i < ts.len() { type_text(ts[i]) } else { arbitrary() })
}

/// Each property of a sequence as written: the name, `?` when it is
/// optional, a colon and the type.
pub open spec fn prop_texts(ps: Seq<Prop>) -> Seq<Seq<char>>
    decreases ps,
{
    Seq::new(
        ps.len(),
        |i: int|
            if 0 <= i < ps.len() {
                ps[i].name + (if ps[i].optional {
                    "?: "@
                } else {
                    ": "@
                }) + type_text(ps[i].ty)
            } else {
                arbitrary()
            },
    )
}

/// A property as written.
pub open spec fn prop_text(p: Prop) -> Seq<char> {
    p.name + (if p.optional {
        "?: "@
    } else {
        ": "@
    }) + type_text(p.ty)
}

/// The names of the variables `ids`.
pub open spec fn var_texts(ids: Seq<int>) -> Seq<Seq<char>> {
    Seq::new(ids.len(), |i: int| "t"@ + int_text(ids[i]))
}

/// A scheme as written: the variables it quantifies over between angle
/// brackets, where there are any, and the type.
pub open spec fn scheme_text(sc: SchemeModel) -> Seq<char> {
    if sc.qualifiers.len() == 0 {
        type_text(sc.ty)
    } else {
        "<"@ + join_text(var_texts(sc.qualifiers), ", "@, sc.qualifiers.len()) + ">"@ + type_text(
            sc.ty,
        )
    }
}

/// What an error says.
pub open spec fn error_text(e: ErrorModel) -> Seq<char> {
    match e {
        ErrorModel::UnboundIdentifier(n) => "Can't find value '"@ + n + "'"@,
        ErrorModel::Mismatch(a, b) => "Unification failure: "@ + type_text(a) + " != "@ + type_text(
            b,
        ),
        ErrorModel::InfiniteType(id, t) => "Infinite type: t"@ + int_text(id) + " occurs in "@
            + type_text(t),
        ErrorModel::DuplicateIdentifier(_) => "Duplicate identifier in pattern"@,
        ErrorModel::MissingProperty(n, t) => "Property '"@ + n + "' missing in "@ + type_text(t),
        ErrorModel::NotInRecord(_) => "Record literal doesn't contain property"@,
        ErrorModel::TooManyElements => "too many elements to unpack"@,
        ErrorModel::IfWithoutElse => "Consequent for 'if' without 'else' must not return a value"@,
        ErrorModel::AwaitOutsideAsync => "Can't use `await` inside non-async lambda"@,
        ErrorModel::ComponentNotFunction => "Component must be a function"@,
        ErrorModel::ComponentNotInScope(n) => "Component '"@ + n + "' is not in scope"@,
        ErrorModel::MissingTypeAnnotation => "missing type annotation in declare statement"@,
        ErrorModel::MissingInitializer => "missing initial value in binding"@,
        ErrorModel::UnknownType(n) => "Can't find type '"@ + n + "'"@,
        ErrorModel::WrongTypeArguments(n) => "Wrong number of type arguments for '"@ + n + "'"@,
        ErrorModel::Unsupported => "unsupported pattern or expression"@,
        ErrorModel::TooDeep => "types are nested too deeply"@,
        ErrorModel::OutOfIds => "no fresh id is left"@,
        ErrorModel::NoNormalForm => "the scheme has no normal form"@,
    }
}

/// The views of a vector of strings, in order.
pub open spec fn strings_view(parts: Vec<String>) -> Seq<Seq<char>> {
    Seq::new(parts.len() as nat, |i: int| parts[i]@)
}

/// `itertools::join` on strings: the elements in order, with `sep` between
/// each two and nothing before the first or after the last.
#[verifier::external_body]
pub(crate) fn join_strings(parts: &Vec<String>, sep: &str) -> (r: String)
    ensures
        r@ == join_text(strings_view(*parts), sep@, parts.len() as nat),
{
    itertools::join(parts, sep)
}

fn digit_str(d: u64) -> (r: &'static str)
    requires
        d < 10,
    ensures
        r@ == digit_text(d as int),
{
    if d == 0 {
        "0"
    } else if d == 1 {
        "1"
    } else if d == 2 {
        "2"
    } else if d == 3 {
        "3"
    } else if d == 4 {
        "4"
    } else if d == 5 {
        "5"
    } else if d == 6 {
        "6"
    } else if d == 7 {
        "7"
    } else if d == 8 {
        "8"
    } else {
        "9"
    }
}

/// A natural number in decimal.
pub fn nat_string(n: u64) -> (r: String)
    ensures
        r@ == nat_text(n as nat),
    decreases n,
{
    if n < 10 {
        String::from_str(digit_str(n))
    } else {
        let mut s = nat_string(n / 10);
        s.append(digit_str(n % 10));
        s
    }
}

/// An integer in decimal.
pub fn int_string(i: i32) -> (r: String)
    ensures
        r@ == int_text(i as int),
{
    if i < 0 {
        let magnitude: u64 = (-(i as i64)) as u64;
        let mut s = String::from_str("-");
        let digits = nat_string(magnitude);
        s.append(digits.as_str());
        s
    } else {
        nat_string(i as u64)
    }
}

fn prim_str(p: Primitive) -> (r: &'static str)
    ensures
        r@ == prim_text(p),
{
    match p {
        Primitive::Num => "number",
        Primitive::Bool => "boolean",
        Primitive::Str => "string",
        Primitive::Undefined => "undefined",
        Primitive::Null => "null",
    }
}

pub(crate) fn lit_string(l: &Lit) -> (r: String)
    ensures
        r@ == lit_text(l@),
{
    match l {
        Lit::Num(n) => n.clone(),
        Lit::Bool(b) => {
            if *b {
                String::from_str("true")
            } else {
                String::from_str("false")
            }
        },
        Lit::Str(s) => {
            let mut out = String::from_str("\"");
            out.append(s.as_str());
            out.append("\"");
            out
        },
        Lit::Null => String::from_str("null"),
        Lit::Undefined => String::from_str("undefined"),
    }
}

/// A type as written.
pub fn type_string(t: &Type) -> (r: String)
    ensures
        r@ == type_text(t@),
    decreases t,
{
    match &t.variant {
        Variant::Var => {
            let mut out = String::from_str("t");
            out.append(int_string(t.id).as_str());
            out
        },
        Variant::Lam(lam) => {
            let parts = type_strings(&lam.params);
            let mut out = String::from_str("(");
            out.append(join_strings(&parts, ", ").as_str());
            out.append(") => ");
            out.append(type_string(&lam.ret).as_str());
            out
        },
        Variant::Prim(p) => String::from_str(prim_str(*p)),
        Variant::Lit(l) => lit_string(l),
        Variant::Union(ts) => {
            let parts = type_strings(ts);
            join_strings(&parts, " | ")
        },
        Variant::Intersection(ts) => {
            let parts = type_strings(ts);
            join_strings(&parts, " & ")
        },
        Variant::Object(ps) => {
            let parts = prop_strings(ps);
            let mut out = String::from_str("{");
            out.append(join_strings(&parts, ", ").as_str());
            out.append("}");
            out
        },
        Variant::Alias(a) => match &a.type_params {
            Some(ts) => {
                let parts = type_strings(ts);
                let mut out = a.name.clone();
                out.append("<");
                out.append(join_strings(&parts, ", ").as_str());
                out.append(">");
                out
            },
            None => a.name.clone(),
        },
        Variant::Tuple(ts) => {
            let parts = type_strings(ts);
            let mut out = String::from_str("[");
            out.append(join_strings(&parts, ", ").as_str());
            out.append("]");
            out
        },
        Variant::Array(e) => {
            let mut out = type_string(e);
            out.append("[]");
            out
        },
        Variant::Rest(e) => {
            let mut out = String::from_str("...");
            out.append(type_string(e).as_str());
            out
        },
        Variant::Member(m) => {
            let mut out = type_string(&m.obj);
            out.append("[\"");
            out.append(m.prop.as_str());
            out.append("\"]");
            out
        },
    }
}

fn type_strings(ts: &Vec<Type>) -> (r: Vec<String>)
    ensures
        strings_view(r) == type_texts(type_models(*ts)),
        r.len() == ts.len(),
        type_models(*ts).len() == ts.len(),
    decreases ts,
{
    let mut out: Vec<String> = Vec::new();
    let mut i: usize = 0;
    while i < ts.len()
        invariant
            i <= ts.len(),
            out.len() == i,
            forall|j: int| 0 <= j < i ==> (#[trigger] out[j])@ == type_text(ts[j]@),
        decreases ts.len() - i,
    {
        out.push(type_string(&ts[i]));
        i += 1;
    }
    assert(strings_view(out) =~= type_texts(type_models(*ts)));
    out
}

fn prop_strings(ps: &Vec<TProp>) -> (r: Vec<String>)
    ensures
        strings_view(r) == prop_texts(prop_models(*ps)),
        r.len() == ps.len(),
        prop_models(*ps).len() == ps.len(),
    decreases ps,
{
    let mut out: Vec<String> = Vec::new();
    let mut i: usize = 0;
    while i < ps.len()
        invariant
            i <= ps.len(),
            out.len() == i,
            forall|j: int| 0 <= j < i ==> (#[trigger] out[j])@ == prop_texts(prop_models(*ps))[j],
        decreases ps.len() - i,
    {
        let p = &ps[i];
        let mut s = p.name.clone();
        if p.optional {
            s.append("?: ");
        } else {
            s.append(": ");
        }
        s.append(type_string(&p.ty).as_str());
        out.push(s);
        i += 1;
    }
    assert(strings_view(out) =~= prop_texts(prop_models(*ps)));
    out
}

/// A scheme as written.
pub fn scheme_string(sc: &Scheme) -> (r: String)
    ensures
        r@ == scheme_text(sc@),
{
    if sc.qualifiers.len() == 0 {
        type_string(&sc.ty)
    } else {
        let mut names: Vec<String> = Vec::new();
        let mut i: usize = 0;
        while i < sc.qualifiers.len()
            invariant
                i <= sc.qualifiers.len(),
                names.len() == i,
                forall|j: int|
                    0 <= j < i ==> (#[trigger] names[j])@ == "t"@ + int_text(
                        sc.qualifiers[j] as int,
                    ),
            decreases sc.qualifiers.len() - i,
        {
            let mut s = String::from_str("t");
            s.append(int_string(sc.qualifiers[i]).as_str());
            names.push(s);
            i += 1;
        }
        assert(strings_view(names) =~= var_texts(ids_model(sc.qualifiers)));
        let mut out = String::from_str("<");
        out.append(join_strings(&names, ", ").as_str());
        out.append(">");
        out.append(type_string(&sc.ty).as_str());
        out
    }
}

impl Type {
    /// The type as written.
    pub fn to_text(&self) -> (r: String)
        ensures
            r@ == type_text(self@),
    {
        type_string(self)
    }
}

impl TProp {
    /// The property as written.
    pub fn to_text(&self) -> (r: String)
        ensures
            r@ == prop_text(self@),
    {
        let mut s = self.name.clone();
        if self.optional {
            s.append("?: ");
        } else {
            s.append(": ");
        }
        s.append(type_string(&self.ty).as_str());
        s
    }
}

impl Scheme {
    /// The scheme as written.
    pub fn to_text(&self) -> (r: String)
        ensures
            r@ == scheme_text(self@),
    {
        scheme_string(self)
    }
}

impl InferError {
    /// What the error says.
    pub fn message(&self) -> (r: String)
        ensures
            r@ == error_text(self@),
    {
        match self {
            InferError::UnboundIdentifier(n) => {
                let mut out = String::from_str("Can't find value '");
                out.append(n.as_str());
                out.append("'");
                out
            },
            InferError::Mismatch(a, b) => {
                let mut out = String::from_str("Unification failure: ");
                out.append(type_string(a).as_str());
                out.append(" != ");
                out.append(type_string(b).as_str());
                out
            },
            InferError::InfiniteType(id, t) => {
                let mut out = String::from_str("Infinite type: t");
                out.append(int_string(*id).as_str());
                out.append(" occurs in ");
                out.append(type_string(t).as_str());
                out
            },
            InferError::DuplicateIdentifier(_) => String::from_str("Duplicate identifier in pattern"),
            InferError::MissingProperty(n, t) => {
                let mut out = String::from_str("Property '");
                out.append(n.as_str());
                out.append("' missing in ");
                out.append(type_string(t).as_str());
                out
            },
            InferError::NotInRecord(_) => String::from_str("Record literal doesn't contain property"),
            InferError::TooManyElements => String::from_str("too many elements to unpack"),
            InferError::IfWithoutElse => String::from_str(
                "Consequent for 'if' without 'else' must not return a value",
            ),
            InferError::AwaitOutsideAsync => String::from_str(
                "Can't use `await` inside non-async lambda",
            ),
            InferError::ComponentNotFunction => String::from_str("Component must be a function"),
            InferError::ComponentNotInScope(n) => {
                let mut out = String::from_str("Component '");
                out.append(n.as_str());
                out.append("' is not in scope");
                out
            },
            InferError::MissingTypeAnnotation => String::from_str(
                "missing type annotation in declare statement",
            ),
            InferError::MissingInitializer => String::from_str("missing initial value in binding"),
            InferError::UnknownType(n) => {
                let mut out = String::from_str("Can't find type '");
                out.append(n.as_str());
                out.append("'");
                out
            },
            InferError::WrongTypeArguments(n) => {
                let mut out = String::from_str("Wrong number of type arguments for '");
                out.append(n.as_str());
                out.append("'");
                out
            },
            InferError::Unsupported => String::from_str("unsupported pattern or expression"),
            InferError::TooDeep => String::from_str("types are nested too deeply"),
            InferError::OutOfIds => String::from_str("no fresh id is left"),
            InferError::NoNormalForm => String::from_str("the scheme has no normal form"),
        }
    }
}

} // verus!
