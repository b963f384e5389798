//! Types as declaration files write them.
use vstd::prelude::*;
use crate::types::{Lit, LitModel, Primitive};

verus! {

/// A parameter of a function type: its name and its type.
#[derive(Debug)]
pub struct Param {
    pub name: String,
    pub ty: TsType,
}

/// A type of a declaration file.
#[derive(Debug)]
pub enum TsType {
    /// A type variable, by its name.
    Var(String),
    Prim(Primitive),
    Lit(Lit),
    Func { params: Vec<Param>, ret: Box<TsType> },
    Union(Vec<TsType>),
}

/// A type with the variables that it is generic in.
#[derive(Debug)]
pub struct TsQualifiedType {
    pub ty: TsType,
    pub type_params: Vec<i32>,
}

/// Model of a [`Param`].
pub struct ParamModel {
    pub name: Seq<char>,
    pub ty: TsModel,
}

/// Model of a [`TsType`].
pub enum TsModel {
    Var(Seq<char>),
    Prim(Primitive),
    Lit(LitModel),
    Func { params: Seq<ParamModel>, ret: Box<TsModel> },
    Union(Seq<TsModel>),
}

/// The model of a type.
pub open spec fn ts_model(t: TsType) -> TsModel
    decreases t,
{
    match t {
        TsType::Var(name) => TsModel::Var(name@),
        TsType::Prim(p) => TsModel::Prim(p),
        TsType::Lit(l) => TsModel::Lit(l@),
        TsType::Func { params, ret } => TsModel::Func {
            params: param_models(params),
            ret: Box::new(ts_model(*ret)),
        },
        TsType::Union(ts) => TsModel::Union(ts_models(ts)),
    }
}

/// The models of a vector of types, in order.
pub open spec fn ts_models(ts: Vec<TsType>) -> Seq<TsModel>
    decreases ts,
{
    Seq::new(ts.len() as nat, |i: int| if 0 <= i < ts.len() { ts_model(ts[i]) } else { arbitrary() })
}

/// The models of a vector of parameters, in order.
pub open spec fn param_models(ps: Vec<Param>) -> Seq<ParamModel>
    decreases ps,
{
    Seq::new(
        ps.len() as nat,
        |i: int|
            if 0 <= i < ps.len() {
                ParamModel { name: ps[i].name@, ty: ts_model(ps[i].ty) }
            } else {
                arbitrary()
            },
    )
}

impl View for TsType {
    type V = TsModel;

    open spec fn view(&self) -> TsModel {
        ts_model(*self)
    }
}

} // verus!
