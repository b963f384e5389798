//! From inferred types to the types of declaration files.
use vstd::prelude::*;
use vstd::string::{StrSliceExecFns, StringExecFns};
use crate::ast::{Expr, Pattern};
use crate::text::{nat_string, nat_text};
use crate::ts::ast::{param_models, ts_model, ts_models, Param, ParamModel, TsModel, TsQualifiedType, TsType};
use crate::types::{copy_ids, ids_model, type_models, Kind, Scheme, Ty, Type, Variant};

verus! {

/// The names of the type variables, by id.
pub open spec fn letters() -> Seq<char> {
    "ABCDEFGHIJKLMNOPQRSTUVWXYZabcdefghijklmnopqrstuvwxyz"@
}

/// The name of the type variable `id`: the letter at its place.
pub open spec fn letter(id: int) -> Seq<char> {
    letters().subrange(id, id + 1)
}

/// The name that a pattern gives to a parameter, where it gives one.
pub open spec fn pattern_name(pat: Pattern) -> Option<Seq<char>> {
    match pat {
        Pattern::Ident { name, .. } => Some(name@),
        Pattern::Rest { arg, .. } => match *arg {
            Pattern::Ident { name, .. } => Some(name@),
            _ => None,
        },
        _ => None,
    }
}

/// Whether `ty` can be exported without the expression that it was
/// inferred from: it is made of variables with one of the 52 names,
/// primitives, literals, functions and unions.
pub open spec fn plain_convertible(ty: Ty) -> bool
    decreases ty,
{
    match ty.kind {
        Kind::Var => 0 <= ty.id < 52,
        Kind::Prim(_) => true,
        Kind::Lit(_) => true,
        Kind::Lam { params, ret, .. } => plain_convertible(*ret) && all_convertible(params),
        Kind::Union(ts) => all_convertible(ts),
        _ => false,
    }
}

/// Whether each of `ts` can be exported without an expression.
pub open spec fn all_convertible(ts: Seq<Ty>) -> bool
    decreases ts,
{
    forall|i: int| 0 <= i < ts.len() ==> plain_convertible(#[trigger] ts[i])
}

/// Whether each of the patterns gives a name.
pub open spec fn all_have_names(pats: Vec<Pattern>) -> bool {
    forall|i: int| 0 <= i < pats.len() ==> pattern_name(#[trigger] pats[i]) is Some
}

/// Whether `ty` can be exported with the names of the parameters of `e`,
/// the expression that it was inferred from: where `ty` is a function, `e`
/// is a function of as many parameters, each with a name, or the fixed
/// point of a function whose body is such an expression.
pub open spec fn convertible_with(ty: Ty, e: Expr) -> bool
    decreases ty, e,
{
    match ty.kind {
        Kind::Lam { params, ret, .. } => match e {
            Expr::Lambda { params: pats, .. } => pats.len() == params.len() && plain_convertible(
                *ret,
            ) && all_convertible(params) && all_have_names(pats),
            Expr::Fix { expr } => match *expr {
                Expr::Lambda { body, .. } => convertible_with(ty, *body),
                _ => false,
            },
            _ => false,
        },
        _ => plain_convertible(ty),
    }
}

/// Whether `ty` can be exported, with or without the expression that it was
/// inferred from.
pub open spec fn convertible(ty: Ty, expr: Option<Expr>) -> bool {
    match expr {
        Some(e) => convertible_with(ty, e),
        None => plain_convertible(ty),
    }
}

/// The export of `ty` without an expression: the parameters of a function
/// are called `arg0`, `arg1` and so on.
pub open spec fn converted_plain(ty: Ty) -> TsModel
    decreases ty,
{
    match ty.kind {
        Kind::Var => TsModel::Var(letter(ty.id)),
        Kind::Prim(p) => TsModel::Prim(p),
        Kind::Lit(l) => TsModel::Lit(l),
        Kind::Lam { params, ret, .. } => TsModel::Func {
            params: Seq::new(
                params.len(),
                |i: int|
                    if 0 <= i < params.len() {
                        ParamModel { name: "arg"@ + nat_text(i as nat), ty: converted_plain(params[i]) }
                    } else {
                        arbitrary()
                    },
            ),
            ret: Box::new(converted_plain(*ret)),
        },
        Kind::Union(ts) => TsModel::Union(converted_all(ts)),
        _ => arbitrary(),
    }
}

/// [`converted_plain`] on each type of a sequence.
pub open spec fn converted_all(ts: Seq<Ty>) -> Seq<TsModel>
    decreases ts,
{
    Seq::new(ts.len(), |i: int| if 0 <= i < ts.len() { converted_plain(ts[i]) } else { arbitrary() })
}

/// The export of `ty` with the names of the parameters of `e`.
pub open spec fn converted_with(ty: Ty, e: Expr) -> TsModel
    decreases ty, e,
{
    match ty.kind {
        Kind::Lam { params, ret, .. } => match e {
            Expr::Lambda { params: pats, .. } => TsModel::Func {
                params: Seq::new(
                    params.len(),
                    |i: int|
                        if 0 <= i < params.len() {
                            ParamModel {
                                name: pattern_name(pats[i])->Some_0,
                                ty: converted_plain(params[i]),
                            }
                        } else {
                            arbitrary()
                        },
                ),
                ret: Box::new(converted_plain(*ret)),
            },
            Expr::Fix { expr } => match *expr {
                Expr::Lambda { body, .. } => converted_with(ty, *body),
                _ => arbitrary(),
            },
            _ => arbitrary(),
        },
        _ => converted_plain(ty),
    }
}

/// The export of `ty`, with or without the expression that it was inferred
/// from.
pub open spec fn converted(ty: Ty, expr: Option<Expr>) -> TsModel {
    match expr {
        Some(e) => converted_with(ty, e),
        None => converted_plain(ty),
    }
}

fn name_of(pat: &Pattern) -> (r: Option<String>)
    ensures
        match r {
            Some(n) => pattern_name(*pat) == Some(n@),
            None => pattern_name(*pat) is None,
        },
{
    match pat {
        Pattern::Ident { name, .. } => Some(name.clone()),
        Pattern::Rest { arg, .. } => match &**arg {
            Pattern::Ident { name, .. } => Some(name.clone()),
            _ => None,
        },
        _ => None,
    }
}

fn can_convert_plain(ty: &Type) -> (r: bool)
    ensures
        r == plain_convertible(ty@),
    decreases ty, 0nat,
{
    match &ty.variant {
        Variant::Prim(_) => true,
        Variant::Lit(_) => true,
        Variant::Lam(lam) => {
            assert(type_models(lam.params).len() == lam.params.len());
            let r = can_convert_all(&lam.params) && can_convert_plain(&lam.ret);
            r
        },
        Variant::Union(ts) => {
            assert(type_models(*ts).len() == ts.len());
            can_convert_all(ts)
        },
        Variant::Var => 0 <= ty.id && ty.id < 52,
        _ => false,
    }
}

fn can_convert_all(ts: &Vec<Type>) -> (r: bool)
    ensures
        r == all_convertible(type_models(*ts)),
    decreases ts, 1nat,
{
    let mut i: usize = 0;
    assert(type_models(*ts).len() == ts.len());
    while i < ts.len()
        invariant
            i <= ts.len(),
            type_models(*ts).len() == ts.len(),
            forall|j: int| 0 <= j < i ==> plain_convertible(#[trigger] type_models(*ts)[j]),
        decreases ts.len() - i,
    {
        assert(type_models(*ts)[i as int] == ts[i as int]@);
        if !can_convert_plain(&ts[i]) {
            return false;
        }
        i += 1;
    }
    true
}

fn all_named(pats: &Vec<Pattern>) -> (r: bool)
    ensures
        r == all_have_names(*pats),
{
    let mut i: usize = 0;
    while i < pats.len()
        invariant
            i <= pats.len(),
            forall|j: int| 0 <= j < i ==> pattern_name(#[trigger] pats[j]) is Some,
        decreases pats.len() - i,
    {
        if name_of(&pats[i]).is_none() {
            return false;
        }
        i += 1;
    }
    true
}

fn can_convert_with(ty: &Type, e: &Expr) -> (r: bool)
    ensures
        r == convertible_with(ty@, *e),
    decreases ty, e,
{
    match &ty.variant {
        Variant::Lam(lam) => {
            assert(type_models(lam.params).len() == lam.params.len());
            match e {
                Expr::Lambda { params: pats, .. } => {
                    let r = pats.len() == lam.params.len() && can_convert_plain(&lam.ret)
                        && can_convert_all(&lam.params) && all_named(pats);
                    r
                },
                Expr::Fix { expr } => match &**expr {
                    Expr::Lambda { body, .. } => can_convert_with(ty, body),
                    _ => false,
                },
                _ => false,
            }
        },
        _ => can_convert_plain(ty),
    }
}

/// Whether `ty` can be exported, with or without the expression that it was
/// inferred from.
pub fn can_convert(ty: &Type, expr: Option<&Expr>) -> (r: bool)
    ensures
        r == convertible(
            ty@,
            match expr {
                Some(e) => Some(*e),
                None => None,
            },
        ),
{
    match expr {
        Some(e) => can_convert_with(ty, e),
        None => can_convert_plain(ty),
    }
}

fn letter_of(id: i32) -> (r: String)
    requires
        0 <= id < 52,
    ensures
        r@ == letter(id as int),
{
    let all = "ABCDEFGHIJKLMNOPQRSTUVWXYZabcdefghijklmnopqrstuvwxyz";
    proof {
        reveal_strlit("ABCDEFGHIJKLMNOPQRSTUVWXYZabcdefghijklmnopqrstuvwxyz");
    }
    let from = id as usize;
    String::from_str(all.substring_char(from, from + 1))
}

fn convert_plain(ty: &Type) -> (r: TsType)
    requires
        plain_convertible(ty@),
    ensures
        ts_model(r) == converted_plain(ty@),
    decreases ty, 0nat,
{
    match &ty.variant {
        Variant::Var => TsType::Var(letter_of(ty.id)),
        Variant::Prim(p) => TsType::Prim(*p),
        Variant::Lit(l) => TsType::Lit(l.clone()),
        Variant::Lam(lam) => {
            assert(type_models(lam.params).len() == lam.params.len());
            let params = plain_params(&lam.params);
            let ret = convert_plain(&lam.ret);
            let out = TsType::Func { params, ret: Box::new(ret) };
            assert(param_models(params) =~= converted_plain(ty@)->Func_params);
            out
        },
        Variant::Union(ts) => {
            assert(type_models(*ts).len() == ts.len());
            TsType::Union(convert_all(ts))
        },
        _ => TsType::Union(Vec::new()),
    }
}

fn plain_params(ts: &Vec<Type>) -> (r: Vec<Param>)
    requires
        all_convertible(type_models(*ts)),
    ensures
        r.len() == ts.len(),
        forall|j: int|
            0 <= j < r.len() ==> (#[trigger] r[j]).name@ == "arg"@ + nat_text(j as nat) && ts_model(
                r[j].ty,
            ) == converted_plain(type_models(*ts)[j]),
    decreases ts, 1nat,
{
    let mut params: Vec<Param> = Vec::new();
    let mut i: usize = 0;
    assert(type_models(*ts).len() == ts.len());
    while i < ts.len()
        invariant
            i <= ts.len(),
            params.len() == i,
            type_models(*ts).len() == ts.len(),
            forall|j: int|
                0 <= j < ts.len() ==> plain_convertible(#[trigger] type_models(*ts)[j]),
            forall|j: int|
                0 <= j < i ==> (#[trigger] params[j]).name@ == "arg"@ + nat_text(j as nat)
                    && ts_model(params[j].ty) == converted_plain(type_models(*ts)[j]),
        decreases ts.len() - i,
    {
        assert(type_models(*ts)[i as int] == ts[i as int]@);
        let mut name = String::from_str("arg");
        name.append(nat_string(i as u64).as_str());
        params.push(Param { name, ty: convert_plain(&ts[i]) });
        i += 1;
    }
    params
}

fn convert_all(ts: &Vec<Type>) -> (r: Vec<TsType>)
    requires
        all_convertible(type_models(*ts)),
    ensures
        ts_models(r) == converted_all(type_models(*ts)),
    decreases ts, 1nat,
{
    let mut out: Vec<TsType> = Vec::new();
    let mut i: usize = 0;
    assert(type_models(*ts).len() == ts.len());
    while i < ts.len()
        invariant
            i <= ts.len(),
            out.len() == i,
            type_models(*ts).len() == ts.len(),
            forall|j: int|
                0 <= j < ts.len() ==> plain_convertible(#[trigger] type_models(*ts)[j]),
            forall|j: int|
                0 <= j < i ==> ts_model(#[trigger] out[j]) == converted_plain(type_models(*ts)[j]),
        decreases ts.len() - i,
    {
        assert(type_models(*ts)[i as int] == ts[i as int]@);
        out.push(convert_plain(&ts[i]));
        i += 1;
    }
    assert(ts_models(out) =~= converted_all(type_models(*ts)));
    out
}

fn convert_with(ty: &Type, e: &Expr) -> (r: TsType)
    requires
        convertible_with(ty@, *e),
    ensures
        ts_model(r) == converted_with(ty@, *e),
    decreases ty, e,
{
    match &ty.variant {
        Variant::Lam(lam) => {
            assert(type_models(lam.params).len() == lam.params.len());
            match e {
                Expr::Lambda { params: pats, .. } => {
                    let mut params: Vec<Param> = Vec::new();
                    let mut i: usize = 0;
                    while i < lam.params.len()
                        invariant
                            i <= lam.params.len(),
                            params.len() == i,
                            pats.len() == lam.params.len(),
                            type_models(lam.params).len() == lam.params.len(),
                            forall|j: int|
                                0 <= j < lam.params.len() ==> plain_convertible(
                                    #[trigger] type_models(lam.params)[j],
                                ),
                            forall|j: int|
                                0 <= j < pats.len() ==> pattern_name(#[trigger] pats[j]) is Some,
                            forall|j: int|
                                0 <= j < i ==> Some((#[trigger] params[j]).name@) == pattern_name(
                                    pats[j],
                                ) && ts_model(params[j].ty) == converted_plain(
                                    type_models(lam.params)[j],
                                ),
                        decreases lam.params.len() - i,
                    {
                        assert(type_models(lam.params)[i as int] == lam.params[i as int]@);
                        let name = match name_of(&pats[i]) {
                            Some(n) => n,
                            None => String::from_str(""),
                        };
                        params.push(Param { name, ty: convert_plain(&lam.params[i]) });
                        i += 1;
                    }
                    let ret = convert_plain(&lam.ret);
                    let out = TsType::Func { params, ret: Box::new(ret) };
                    assert(param_models(params) =~= converted_with(ty@, *e)->Func_params);
                    out
                },
                Expr::Fix { expr } => match &**expr {
                    Expr::Lambda { body, .. } => convert_with(ty, body),
                    _ => TsType::Union(Vec::new()),
                },
                _ => TsType::Union(Vec::new()),
            }
        },
        _ => convert_plain(ty),
    }
}

/// The type of a declaration file that `ty` is exported as. `expr` is the
/// expression that `ty` was inferred from, where there is one: it gives the
/// parameters of a function their names.
pub fn convert_type(ty: &Type, expr: Option<&Expr>) -> (r: TsType)
    requires
        convertible(
            ty@,
            match expr {
                Some(e) => Some(*e),
                None => None,
            },
        ),
    ensures
        ts_model(r) == converted(
            ty@,
            match expr {
                Some(e) => Some(*e),
                None => None,
            },
        ),
{
    match expr {
        Some(e) => convert_with(ty, e),
        None => convert_plain(ty),
    }
}

/// The qualified type that a scheme is exported as: its type, generic in
/// the variables that the scheme quantifies over.
pub fn convert_scheme(scheme: &Scheme, expr: Option<&Expr>) -> (r: TsQualifiedType)
    requires
        convertible(
            scheme@.ty,
            match expr {
                Some(e) => Some(*e),
                None => None,
            },
        ),
    ensures
        ts_model(r.ty) == converted(
            scheme@.ty,
            match expr {
                Some(e) => Some(*e),
                None => None,
            },
        ),
        ids_model(r.type_params) == scheme@.qualifiers,
{
    let r = TsQualifiedType {
        ty: convert_type(&scheme.ty, expr),
        type_params: copy_ids(&scheme.qualifiers),
    };
    assert(ids_model(r.type_params) =~= ids_model(scheme.qualifiers));
    r
}

} // verus!
