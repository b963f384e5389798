//! Hindley-Milner type inference for a small expression language, with
//! literal-to-primitive subsumption, structural object types and union and
//! intersection simplification.
//!
//! Every type of the engine has a mathematical model, and every function
//! says in terms of these models what it returns and what it does to the
//! context of the run. The laws of the substitution algebra, of unification
//! and of normalization are proved over the same models.
pub mod annot;
pub mod ast;
pub mod context;
pub mod env;
pub mod equality;
pub mod error;
pub mod infer;
pub mod intersection;
pub mod js_ast;
pub mod js_printer;
pub mod member;
pub mod names;
pub mod normal;
pub mod pattern;
pub mod sorting;
pub mod subst;
pub mod text;
pub mod ts;
pub mod types;
pub mod unify;
pub mod util;
