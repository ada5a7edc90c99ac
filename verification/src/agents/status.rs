//! What an agent is doing, as its events tell it.

use vstd::prelude::*;

use crate::agents::message::SubAgentRouting;
use crate::text::copy_maybe;
use crate::text::maybe;

verus! {

/// What an agent is doing.
#[derive(Debug, PartialEq, Eq)]
pub enum AgentStatus {
    PendingInit,
    Running,
    Interrupted,
    /// With the last message of the agent, where there is one.
    Completed(Option<String>),
    Errored(String),
    Shutdown,
    /// Any other state that an agent can be in.
    Other,
}

/// What an agent is doing, with its texts as sequences of characters.
pub enum StatusModel {
    PendingInit,
    Running,
    Interrupted,
    Completed(Option<Seq<char>>),
    Errored(Seq<char>),
    Shutdown,
    Other,
}

impl View for AgentStatus {
    type V = StatusModel;

    open spec fn view(&self) -> StatusModel {
        match *self {
            AgentStatus::PendingInit => StatusModel::PendingInit,
            AgentStatus::Running => StatusModel::Running,
            AgentStatus::Interrupted => StatusModel::Interrupted,
            AgentStatus::Completed(message) => StatusModel::Completed(maybe(message)),
            AgentStatus::Errored(error) => StatusModel::Errored(error@),
            AgentStatus::Shutdown => StatusModel::Shutdown,
            AgentStatus::Other => StatusModel::Other,
        }
    }
}

/// Status and the routing of the execution that produced it, published together.
#[derive(Debug, PartialEq, Eq)]
pub struct AgentStatusSnapshot {
    pub status: AgentStatus,
    pub routing: Option<SubAgentRouting>,
}

impl AgentStatusSnapshot {
    /// A status that no known execution produced.
    pub fn from_status(status: AgentStatus) -> (snapshot: Self)
        ensures
            snapshot.status@ == status@,
            snapshot.routing is None,
    {
        AgentStatusSnapshot { status, routing: None }
    }
}

/// Why a turn was aborted.
#[derive(Debug, PartialEq, Eq)]
pub enum TurnAbortReason {
    Interrupted,
    BudgetLimited,
    /// Any other reason, by its name.
    Other(String),
}

/// What an agent's session emits, as far as its status depends on it.
#[derive(Debug, PartialEq, Eq)]
pub enum AgentEvent {
    TurnStarted,
    TurnComplete { error: Option<String>, last_agent_message: Option<String> },
    TurnAborted(TurnAbortReason),
    Error(String),
    ShutdownComplete,
    /// Any other event.
    Other,
}

/// The status that an event leads to; none where it does not affect status.
pub open spec fn status_of(event: AgentEvent) -> Option<StatusModel> {
    match event {
        AgentEvent::TurnStarted => Some(StatusModel::Running),
        AgentEvent::TurnComplete { error: Some(error), .. } => Some(StatusModel::Errored(error@)),
        AgentEvent::TurnComplete { error: None, last_agent_message } => Some(
            StatusModel::Completed(maybe(last_agent_message)),
        ),
        AgentEvent::TurnAborted(TurnAbortReason::Other(name)) => Some(StatusModel::Errored(name@)),
        AgentEvent::TurnAborted(_) => Some(StatusModel::Interrupted),
        AgentEvent::Error(message) => Some(StatusModel::Errored(message@)),
        AgentEvent::ShutdownComplete => Some(StatusModel::Shutdown),
        AgentEvent::Other => None,
    }
}

/// The status that one emitted event leads to; none where it does not affect status.
pub fn agent_status_from_event(event: &AgentEvent) -> (r: Option<AgentStatus>)
    ensures
        (match r {
            Some(status) => Some(status@),
            None => None,
        }) == status_of(*event),
{
    match event {
        AgentEvent::TurnStarted => Some(AgentStatus::Running),
        AgentEvent::TurnComplete { error, last_agent_message } => match error {
            Some(error) => Some(AgentStatus::Errored(error.clone())),
            None => Some(AgentStatus::Completed(copy_maybe(last_agent_message))),
        },
        AgentEvent::TurnAborted(reason) => match reason {
            TurnAbortReason::Interrupted => Some(AgentStatus::Interrupted),
            TurnAbortReason::BudgetLimited => Some(AgentStatus::Interrupted),
            TurnAbortReason::Other(name) => Some(AgentStatus::Errored(name.clone())),
        },
        AgentEvent::Error(message) => Some(AgentStatus::Errored(message.clone())),
        AgentEvent::ShutdownComplete => Some(AgentStatus::Shutdown),
        AgentEvent::Other => None,
    }
}

/// The agent has ended what it was doing.
pub open spec fn ended(status: StatusModel) -> bool {
    !(status is PendingInit || status is Running || status is Interrupted)
}

/// Whether an agent has ended what it was doing.
pub fn is_final(status: &AgentStatus) -> (r: bool)
    ensures
        r == ended(status@),
{
    match status {
        AgentStatus::PendingInit => false,
        AgentStatus::Running => false,
        AgentStatus::Interrupted => false,
        _ => true,
    }
}

/// An interrupted agent is not final: an abort ends its work only for a reason other than an
/// interruption or a budget.
pub proof fn interruption_is_not_final(reason: TurnAbortReason)
    ensures
        ended(status_of(AgentEvent::TurnAborted(reason))->0) <==> reason is Other,
{
}

/// What an event makes of an agent: a started turn runs it; a turn that ends with an error, an error, and
/// an abort for a reason of its own leave it errored with that text; a turn that ends without one
/// completes it with its last message; an interruption and a spent budget leave it interrupted; and a
/// shutdown shuts it down. Other events do not affect it.
pub proof fn events_settle_the_status(text: String, last: Option<String>)
    ensures
        status_of(AgentEvent::TurnStarted) == Some(StatusModel::Running),
        status_of(AgentEvent::TurnComplete { error: Some(text), last_agent_message: last }) == Some(
            StatusModel::Errored(text@),
        ),
        status_of(AgentEvent::TurnComplete { error: None, last_agent_message: last }) == Some(
            StatusModel::Completed(maybe(last)),
        ),
        status_of(AgentEvent::TurnAborted(TurnAbortReason::Interrupted)) == Some(
            StatusModel::Interrupted,
        ),
        status_of(AgentEvent::TurnAborted(TurnAbortReason::BudgetLimited)) == Some(
            StatusModel::Interrupted,
        ),
        status_of(AgentEvent::TurnAborted(TurnAbortReason::Other(text))) == Some(
            StatusModel::Errored(text@),
        ),
        status_of(AgentEvent::Error(text)) == Some(StatusModel::Errored(text@)),
        status_of(AgentEvent::ShutdownComplete) == Some(StatusModel::Shutdown),
        status_of(AgentEvent::Other) is None,
{
}

/// An agent has ended unless it is starting, running or interrupted.
pub proof fn ended_agents_do_nothing(status: StatusModel)
    ensures
        ended(status) <==> status != StatusModel::PendingInit && status != StatusModel::Running
            && status != StatusModel::Interrupted,
{
}

} // verus!
