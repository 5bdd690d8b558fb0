//! What can go wrong when a schema is built.

use vstd::prelude::*;
use vstd::string::*;

verus! {

/// Why a schema could not be built.
#[derive(Clone, Debug, PartialEq, Eq)]
pub enum DynamicError {
    /// The type name is not of the form `package/kind/Name`.
    InvalidTypeName(String),
    /// No schema is known for the type name.
    SchemaNotFound(String),
}

/// The model of a [`DynamicError`].
pub enum ErrorModel {
    InvalidTypeName(Seq<char>),
    SchemaNotFound(Seq<char>),
}

impl View for DynamicError {
    type V = ErrorModel;

    open spec fn view(&self) -> ErrorModel {
        match self {
            DynamicError::InvalidTypeName(name) => ErrorModel::InvalidTypeName(name@),
            DynamicError::SchemaNotFound(name) => ErrorModel::SchemaNotFound(name@),
        }
    }
}

/// The model of a result.
pub open spec fn outcome<T: DeepView>(result: Result<T, DynamicError>) -> Result<T::V, ErrorModel> {
    match result {
        Ok(value) => Ok(value.deep_view()),
        Err(error) => Err(error@),
    }
}

/// The model of a result says what the result says.
pub proof fn law_outcomes_are_results<T: DeepView>(value: T, name: String)
    ensures
        outcome(Ok::<T, DynamicError>(value)) == Ok::<T::V, ErrorModel>(value.deep_view()),
        outcome(Err::<T, DynamicError>(DynamicError::InvalidTypeName(name))) == Err::<
            T::V,
            ErrorModel,
        >(ErrorModel::InvalidTypeName(name@)),
        outcome(Err::<T, DynamicError>(DynamicError::SchemaNotFound(name))) == Err::<
            T::V,
            ErrorModel,
        >(ErrorModel::SchemaNotFound(name@)),
{
}

} // verus!
