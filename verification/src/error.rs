//! The ways in which inference fails.
use vstd::prelude::*;
use crate::types::{copy_type, Ty, Type};

verus! {

/// Why inference failed.
#[derive(Debug)]
pub enum InferError {
    /// An identifier is used that is not in scope.
    UnboundIdentifier(String),
    /// The first type cannot be used where the second is expected.
    Mismatch(Type, Type),
    /// The variable would have to stand for a type that contains it.
    InfiniteType(i32, Type),
    /// A pattern binds the same name twice.
    DuplicateIdentifier(String),
    /// The type lacks the property named.
    MissingProperty(String, Type),
    /// A property is read that the object type does not have.
    NotInRecord(String),
    /// A tuple pattern asks for more elements than the value has.
    TooManyElements,
    /// An `if` without `else` whose consequent yields a value.
    IfWithoutElse,
    /// `await` is used outside an async function.
    AwaitOutsideAsync,
    /// A component element names a value that is not a function.
    ComponentNotFunction,
    /// A component element names a value that is not in scope.
    ComponentNotInScope(String),
    /// A `declare` statement without a type annotation.
    MissingTypeAnnotation,
    /// A binding without an initial value.
    MissingInitializer,
    /// A type is referred to by a name that is not declared.
    UnknownType(String),
    /// A named type is given another number of arguments than it declares.
    WrongTypeArguments(String),
    /// The pattern or expression has a shape that is not handled.
    Unsupported,
    /// The types are nested more deeply than the engine follows them: a limit
    /// of this implementation, which keeps its recursion bounded.
    TooDeep,
    /// No fresh id is left.
    OutOfIds,
    /// Renumbering and simplifying a scheme did not come to rest within the
    /// rounds that normalization makes.
    NoNormalForm,
}

/// Model of an [`InferError`].
pub enum ErrorModel {
    UnboundIdentifier(Seq<char>),
    Mismatch(Ty, Ty),
    InfiniteType(int, Ty),
    DuplicateIdentifier(Seq<char>),
    MissingProperty(Seq<char>, Ty),
    NotInRecord(Seq<char>),
    TooManyElements,
    IfWithoutElse,
    AwaitOutsideAsync,
    ComponentNotFunction,
    ComponentNotInScope(Seq<char>),
    MissingTypeAnnotation,
    MissingInitializer,
    UnknownType(Seq<char>),
    WrongTypeArguments(Seq<char>),
    Unsupported,
    TooDeep,
    OutOfIds,
    NoNormalForm,
}

impl View for InferError {
    type V = ErrorModel;

    open spec fn view(&self) -> ErrorModel {
        match self {
            InferError::UnboundIdentifier(n) => ErrorModel::UnboundIdentifier(n@),
            InferError::Mismatch(a, b) => ErrorModel::Mismatch(a@, b@),
            InferError::InfiniteType(id, t) => ErrorModel::InfiniteType(*id as int, t@),
            InferError::DuplicateIdentifier(n) => ErrorModel::DuplicateIdentifier(n@),
            InferError::MissingProperty(n, t) => ErrorModel::MissingProperty(n@, t@),
            InferError::NotInRecord(n) => ErrorModel::NotInRecord(n@),
            InferError::TooManyElements => ErrorModel::TooManyElements,
            InferError::IfWithoutElse => ErrorModel::IfWithoutElse,
            InferError::AwaitOutsideAsync => ErrorModel::AwaitOutsideAsync,
            InferError::ComponentNotFunction => ErrorModel::ComponentNotFunction,
            InferError::ComponentNotInScope(n) => ErrorModel::ComponentNotInScope(n@),
            InferError::MissingTypeAnnotation => ErrorModel::MissingTypeAnnotation,
            InferError::MissingInitializer => ErrorModel::MissingInitializer,
            InferError::UnknownType(n) => ErrorModel::UnknownType(n@),
            InferError::WrongTypeArguments(n) => ErrorModel::WrongTypeArguments(n@),
            InferError::Unsupported => ErrorModel::Unsupported,
            InferError::TooDeep => ErrorModel::TooDeep,
            InferError::OutOfIds => ErrorModel::OutOfIds,
            InferError::NoNormalForm => ErrorModel::NoNormalForm,
        }
    }
}

impl Clone for InferError {
    fn clone(&self) -> (r: InferError)
        ensures
            r@ == self@,
    {
        match self {
            InferError::UnboundIdentifier(n) => InferError::UnboundIdentifier(n.clone()),
            InferError::Mismatch(a, b) => InferError::Mismatch(copy_type(a), copy_type(b)),
            InferError::InfiniteType(id, t) => InferError::InfiniteType(*id, copy_type(t)),
            InferError::DuplicateIdentifier(n) => InferError::DuplicateIdentifier(n.clone()),
            InferError::MissingProperty(n, t) => InferError::MissingProperty(n.clone(), copy_type(t)),
            InferError::NotInRecord(n) => InferError::NotInRecord(n.clone()),
            InferError::TooManyElements => InferError::TooManyElements,
            InferError::IfWithoutElse => InferError::IfWithoutElse,
            InferError::AwaitOutsideAsync => InferError::AwaitOutsideAsync,
            InferError::ComponentNotFunction => InferError::ComponentNotFunction,
            InferError::ComponentNotInScope(n) => InferError::ComponentNotInScope(n.clone()),
            InferError::MissingTypeAnnotation => InferError::MissingTypeAnnotation,
            InferError::MissingInitializer => InferError::MissingInitializer,
            InferError::UnknownType(n) => InferError::UnknownType(n.clone()),
            InferError::WrongTypeArguments(n) => InferError::WrongTypeArguments(n.clone()),
            InferError::Unsupported => InferError::Unsupported,
            InferError::TooDeep => InferError::TooDeep,
            InferError::OutOfIds => InferError::OutOfIds,
            InferError::NoNormalForm => InferError::NoNormalForm,
        }
    }
}

/// The model of a result: that of its value, or that of its error.
pub open spec fn result_model<T: View>(r: Result<T, InferError>) -> Result<T::V, ErrorModel> {
    match r {
        Ok(v) => Ok(v@),
        Err(e) => Err(e@),
    }
}

} // verus!
