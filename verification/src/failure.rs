//! Why a message type could not be loaded.

use crate::error::{DynamicError, ErrorModel};
use crate::load::{MsgSource, SourceModel};
use crate::schema::{MessageSchema, SchemaModel};
use std::sync::Arc;
use vstd::prelude::*;
use vstd::string::*;

verus! {

/// Why the load of a message type failed.
///
/// The load of a message fails with that of the first nested message that fails, so a
/// failed load has a chain of failures: the first is where it began, and each of the others
/// is of the message that holds the one before.
#[derive(Clone, Debug, PartialEq, Eq)]
pub enum LoadFailure {
    /// The name is none of a message type.
    NotAMessage(String),
    /// There is no definition of the type, neither on disk nor built in.
    NotFound(String),
    /// The type is being loaded already: its definition contains itself.
    Cyclic(String),
    /// The definition of the type cannot be read.
    Unreadable { full_name: String, source: MsgSource, reason: String },
    /// The definition of the type was read, and no schema can be built from it.
    Unbuildable { full_name: String, error: DynamicError },
}

/// The model of a [`LoadFailure`].
pub enum FailureModel {
    NotAMessage(Seq<char>),
    NotFound(Seq<char>),
    Cyclic(Seq<char>),
    Unreadable { full_name: Seq<char>, source: SourceModel, reason: Seq<char> },
    Unbuildable { full_name: Seq<char>, error: ErrorModel },
}

impl View for LoadFailure {
    type V = FailureModel;

    open spec fn view(&self) -> FailureModel {
        match self {
            LoadFailure::NotAMessage(full_name) => FailureModel::NotAMessage(full_name@),
            LoadFailure::NotFound(full_name) => FailureModel::NotFound(full_name@),
            LoadFailure::Cyclic(full_name) => FailureModel::Cyclic(full_name@),
            LoadFailure::Unreadable { full_name, source, reason } => FailureModel::Unreadable {
                full_name: full_name@,
                source: source@,
                reason: reason@,
            },
            LoadFailure::Unbuildable { full_name, error } => FailureModel::Unbuildable {
                full_name: full_name@,
                error: error@,
            },
        }
    }
}

impl DeepView for LoadFailure {
    type V = FailureModel;

    open spec fn deep_view(&self) -> FailureModel {
        self@
    }
}

/// The type whose load failed.
pub open spec fn failed_name(failure: FailureModel) -> Seq<char> {
    match failure {
        FailureModel::NotAMessage(full_name) => full_name,
        FailureModel::NotFound(full_name) => full_name,
        FailureModel::Cyclic(full_name) => full_name,
        FailureModel::Unreadable { full_name, source, reason } => full_name,
        FailureModel::Unbuildable { full_name, error } => full_name,
    }
}

/// The model of the result of a load.
pub open spec fn load_result(
    result: Result<Arc<MessageSchema>, Vec<LoadFailure>>,
) -> Result<SchemaModel, Seq<FailureModel>> {
    match result {
        Ok(schema) => Ok(schema@),
        Err(failures) => Err(failures.deep_view()),
    }
}

/// A failure that comes first.
pub(crate) fn first_failure(failure: LoadFailure) -> (failures: Vec<LoadFailure>)
    ensures
        failures.deep_view() == seq![failure@],
{
    let mut failures: Vec<LoadFailure> = Vec::new();
    failures.push(failure);
    assert(failures.deep_view() =~= seq![failure@]);
    failures
}

/// The model of what comes of a load says what the load says, failure by failure.
pub proof fn law_load_results(schema: Arc<MessageSchema>, failures: Vec<LoadFailure>)
    ensures
        load_result(Ok(schema)) == Ok::<SchemaModel, Seq<FailureModel>>(schema@),
        load_result(Err(failures)) is Err,
        load_result(Err(failures))->Err_0.len() == failures@.len(),
        forall|i: int|
            0 <= i < failures@.len() ==> #[trigger] load_result(Err(failures))->Err_0[i]
                == failures@[i]@,
{
}

/// The model of a failure has its kind, its type name, and what is said of it.
pub proof fn law_failure_model(
    full_name: String,
    source: MsgSource,
    reason: String,
    error: DynamicError,
)
    ensures
        LoadFailure::NotAMessage(full_name)@ == FailureModel::NotAMessage(full_name@),
        LoadFailure::NotFound(full_name)@ == FailureModel::NotFound(full_name@),
        LoadFailure::Cyclic(full_name)@ == FailureModel::Cyclic(full_name@),
        ({
            let failure = LoadFailure::Unreadable { full_name, source, reason }@;
            &&& failure is Unreadable
            &&& failure->Unreadable_full_name == full_name@
            &&& failure->source == source@
            &&& failure->reason == reason@
            &&& failed_name(failure) == full_name@
        }),
        ({
            let failure = LoadFailure::Unbuildable { full_name, error }@;
            &&& failure is Unbuildable
            &&& failure->Unbuildable_full_name == full_name@
            &&& failure->error == error@
            &&& failed_name(failure) == full_name@
        }),
        failed_name(FailureModel::NotAMessage(full_name@)) == full_name@,
        failed_name(FailureModel::NotFound(full_name@)) == full_name@,
        failed_name(FailureModel::Cyclic(full_name@)) == full_name@,
{
}

} // verus!
