//! The user's session-local capacity.

use vstd::prelude::*;
use vstd::string::StringExecFns;

use crate::directory::Failure;
use crate::directory::FailureKind;
use crate::directory::FailureModel;
use crate::ledger::model::Ledger;
use crate::ledger::model::LedgerModel;

verus! {

/// Why the capacity of a session cannot be read or changed.
#[derive(Clone, Copy, Debug, PartialEq, Eq, Structural)]
pub enum ControlError {
    /// The session keeps no ledger, or it is switched off.
    Unavailable,
    /// Only the root session's capacity can be changed.
    NotRoot,
}

/// What the error says.
pub open spec fn control_message(error: ControlError) -> Seq<char> {
    match error {
        ControlError::Unavailable => "The task ledger is unavailable for this session."@,
        ControlError::NotRoot =>
            "Change /parallelism in the root session. Subagents use one slot when enabled, or zero when off."@,
    }
}

impl ControlError {
    /// What the error says.
    pub fn message(self) -> (text: &'static str)
        ensures
            text@ == control_message(self),
    {
        match self {
            ControlError::Unavailable => "The task ledger is unavailable for this session.",
            ControlError::NotRoot =>
                "Change /parallelism in the root session. Subagents use one slot when enabled, or zero when off.",
        }
    }
}

/// Whether a session's capacity can be read, or changed.
pub fn control_access(available: bool, child: bool, changing: bool) -> (r: Result<(), ControlError>)
    ensures
        r is Ok <==> available && !(child && changing),
        r matches Err(error) ==> error == if !available {
            ControlError::Unavailable
        } else {
            ControlError::NotRoot
        },
{
    if !available {
        return Err(ControlError::Unavailable);
    }
    if changing && child {
        return Err(ControlError::NotRoot);
    }
    Ok(())
}

/// What a request for the unfinished tasks is answered when the ledger cannot be read.
pub fn tasks_read_failure(error: &str) -> (failure: Failure)
    ensures
        failure@ == (FailureModel {
            kind: FailureKind::Internal,
            message: "could not read task ledger: "@ + error@,
        }),
{
    let mut message = "could not read task ledger: ".to_string();
    message.append(error);
    Failure { kind: FailureKind::Internal, message }
}

/// What a request for the capacity is answered when it is refused: only the user's own mistake is
/// an invalid request.
pub open spec fn refusal_of(error: ControlError) -> FailureModel {
    match error {
        ControlError::NotRoot => FailureModel {
            kind: FailureKind::InvalidRequest,
            message: control_message(error),
        },
        ControlError::Unavailable => FailureModel {
            kind: FailureKind::Internal,
            message: "could not access task parallelism: "@ + control_message(error),
        },
    }
}

/// What a request for the capacity is answered when it is refused.
pub fn access_failure(error: ControlError) -> (failure: Failure)
    ensures
        failure@ == refusal_of(error),
{
    match error {
        ControlError::NotRoot => Failure {
            kind: FailureKind::InvalidRequest,
            message: error.message().to_string(),
        },
        ControlError::Unavailable => parallelism_failure(error.message()),
    }
}

/// What a request for the capacity is answered when the ledger cannot be read or written.
pub fn parallelism_failure(error: &str) -> (failure: Failure)
    ensures
        failure@ == (FailureModel {
            kind: FailureKind::Internal,
            message: "could not access task parallelism: "@ + error@,
        }),
{
    let mut message = "could not access task parallelism: ".to_string();
    message.append(error);
    Failure { kind: FailureKind::Internal, message }
}

/// Reads or changes the capacity, and nothing else. Gives the capacity and whether it changed.
pub fn parallelism(ledger: &mut Ledger, update: Option<usize>) -> (r: (usize, bool))
    ensures
        final(ledger).model() == (LedgerModel {
            parallelism: match update {
                Some(capacity) => capacity,
                None => old(ledger).model().parallelism,
            },
            ..old(ledger).model()
        }),
        r.0 == final(ledger).model().parallelism,
        r.1 == (final(ledger).model().parallelism != old(ledger).model().parallelism),
{
    let before: usize = ledger.parallelism;
    if let Some(capacity) = update {
        ledger.parallelism = capacity;
    }
    (ledger.parallelism, ledger.parallelism != before)
}

/// Only that the capacity is changed elsewhere than in the root session is the user's own mistake: it is
/// an invalid request. That a session keeps no ledger is an internal failure, which says so.
pub proof fn refusals_say_whose_fault_it_is(error: ControlError)
    ensures
        refusal_of(error).kind == FailureKind::InvalidRequest <==> error == ControlError::NotRoot,
        refusal_of(error).kind == FailureKind::Internal <==> error == ControlError::Unavailable,
        error == ControlError::NotRoot ==> refusal_of(error).message == control_message(error),
        error == ControlError::Unavailable ==> refusal_of(error).message
            == "could not access task parallelism: "@ + control_message(error),
{
}

} // verus!
