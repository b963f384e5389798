//! The programs that inference works on.
use vstd::prelude::*;
use crate::types::{LitModel, Primitive};

verus! {

/// A literal of the program.
#[derive(Debug)]
pub enum Lit {
    /// A number, as written.
    Num(String),
    Bool(bool),
    Str(String),
    Null,
    Undefined,
}

/// The literal type of a literal.
pub open spec fn lit_model(lit: Lit) -> LitModel {
    match lit {
        Lit::Num(n) => LitModel::Num(n@),
        Lit::Bool(b) => LitModel::Bool(b),
        Lit::Str(s) => LitModel::Str(s@),
        Lit::Null => LitModel::Null,
        Lit::Undefined => LitModel::Undefined,
    }
}

impl Clone for Lit {
    fn clone(&self) -> (r: Lit)
        ensures
            lit_model(r) == lit_model(*self),
    {
        match self {
            Lit::Num(n) => Lit::Num(n.clone()),
            Lit::Bool(b) => Lit::Bool(*b),
            Lit::Str(s) => Lit::Str(s.clone()),
            Lit::Null => Lit::Null,
            Lit::Undefined => Lit::Undefined,
        }
    }
}

impl Lit {
    /// The literal type of the literal.
    pub fn to_type(&self) -> (r: crate::types::Lit)
        ensures
            r@ == lit_model(*self),
    {
        match self {
            Lit::Num(n) => crate::types::Lit::Num(n.clone()),
            Lit::Bool(b) => crate::types::Lit::Bool(*b),
            Lit::Str(s) => crate::types::Lit::Str(s.clone()),
            Lit::Null => crate::types::Lit::Null,
            Lit::Undefined => crate::types::Lit::Undefined,
        }
    }
}

/// A type as the program writes it.
#[derive(Debug)]
pub enum TypeAnn {
    /// A function type.
    Lam { params: Vec<TypeAnn>, ret: Box<TypeAnn> },
    Lit(Lit),
    Prim(Primitive),
    Object(Vec<TPropAnn>),
    /// A type referred to by name, with its arguments if it has any.
    TypeRef { name: String, type_params: Option<Vec<TypeAnn>> },
    Union(Vec<TypeAnn>),
    Intersection(Vec<TypeAnn>),
    Tuple(Vec<TypeAnn>),
    Array(Box<TypeAnn>),
}

/// A property of an object type as the program writes it.
#[derive(Debug)]
pub struct TPropAnn {
    pub name: String,
    pub optional: bool,
    pub type_ann: TypeAnn,
}

/// A pattern: what a value is taken apart by, and the names that it binds.
#[derive(Debug)]
pub enum Pattern {
    /// Binds the whole value to a name.
    Ident { name: String, type_ann: Option<TypeAnn> },
    /// Binds what is left of a sequence or an object.
    Rest { arg: Box<Pattern>, type_ann: Option<TypeAnn> },
    Object { props: Vec<ObjectPatProp>, type_ann: Option<TypeAnn> },
    /// The elements of a tuple or array; `None` stands for a gap.
    Array { elems: Vec<Option<Pattern>>, type_ann: Option<TypeAnn> },
    /// Matches one literal value.
    Lit { lit: Lit },
    /// Binds `id` where the value is of the type named `is_id`.
    Is { id: String, is_id: String },
}

/// One entry of an object pattern.
#[derive(Debug)]
pub enum ObjectPatProp {
    /// `key: value`: the property `key` is taken apart by `value`.
    KeyValue { key: String, value: Pattern },
    /// `key`: the property `key` is bound to the name `key`.
    Assign { key: String },
    /// `...arg`: the properties not named are taken apart by `arg`.
    Rest { arg: Pattern },
}

/// The binary operators.
#[derive(Clone, Copy, Debug, PartialEq, Eq, Structural)]
pub enum BinOp {
    Add,
    Sub,
    Mul,
    Div,
    EqEq,
    NotEq,
    Gt,
    GtEq,
    Lt,
    LtEq,
}

/// An expression.
#[derive(Debug)]
pub enum Expr {
    /// The application of `lam` to `args`.
    App { lam: Box<Expr>, args: Vec<Expr> },
    /// The fixed point of `expr`, for recursive definitions.
    Fix { expr: Box<Expr> },
    Ident { name: String },
    IfElse { cond: Box<Expr>, consequent: Box<Expr>, alternate: Option<Box<Expr>> },
    JSXElement { name: String, attrs: Vec<JSXAttr> },
    Lambda {
        params: Vec<Pattern>,
        body: Box<Expr>,
        is_async: bool,
        return_type: Option<TypeAnn>,
        type_params: Option<Vec<String>>,
    },
    /// `let pattern = init; body`; without a pattern `init` is evaluated for
    /// its effect alone.
    Let { pattern: Option<Pattern>, init: Box<Expr>, body: Box<Expr> },
    /// `let pat = expr` as the condition of an `if`.
    LetExpr { pat: Pattern, expr: Box<Expr> },
    Lit(Lit),
    Op { op: BinOp, left: Box<Expr>, right: Box<Expr> },
    Obj { props: Vec<PropOrSpread> },
    Await { expr: Box<Expr> },
    Tuple { elems: Vec<Expr> },
    Member { obj: Box<Expr>, prop: String },
    Empty,
}

/// An attribute of an element.
#[derive(Debug)]
pub struct JSXAttr {
    pub ident: String,
    pub value: JSXAttrValue,
}

/// The value of an attribute.
#[derive(Debug)]
pub enum JSXAttrValue {
    Lit(Lit),
    Expr(Box<Expr>),
}

/// One entry of an object literal.
#[derive(Debug)]
pub enum PropOrSpread {
    /// `name`: the property `name` with the value of the identifier `name`.
    Shorthand { name: String },
    /// `name: value`.
    KeyValue { name: String, value: Box<Expr> },
    /// `...expr`: the properties of `expr`.
    Spread { expr: Box<Expr> },
}

/// A statement of a program.
#[derive(Debug)]
pub enum Statement {
    /// The declaration of values. With `declare` the pattern is a name with
    /// its type and there is no initial value; without it there is one.
    VarDecl { pattern: Pattern, init: Option<Expr>, declare: bool },
    /// The declaration of a named type.
    TypeDecl { name: String, type_ann: TypeAnn, type_params: Option<Vec<String>> },
    /// An expression evaluated for its effect.
    Expr { expr: Expr },
}

/// A program.
#[derive(Debug)]
pub struct Program {
    pub body: Vec<Statement>,
}

} // verus!
