//! Interrupting an agent, and giving it another routing: what its control does, and what its
//! session does in turn.

use vstd::prelude::*;

use crate::agents::message::RoutingModel;
use crate::agents::message::SubAgentRouting;
use crate::agents::message::routed;
use crate::text::maybe;

verus! {

/// What is asked of an agent.
#[derive(Clone, Copy, Debug, PartialEq, Eq, Structural)]
pub enum Transition {
    /// To stop what it is doing.
    Interrupt,
    /// To take a message with another routing.
    Reroute,
}

/// The outside steps of a transition, in the order of one that goes through.
#[derive(Clone, Copy, Debug, PartialEq, Eq, Structural)]
pub enum TransitionWork {
    /// Get hold of the threads.
    Attach,
    FindThread,
    EnsureCapacity,
    Submit,
    AwaitReply,
    Log,
    /// The transition is answered.
    Finish,
}

/// How an outside step ended.
#[derive(Debug, PartialEq, Eq)]
pub enum TransitionEvent {
    Done,
    Failed(String),
    /// The agent went away without a reply.
    Lost,
}

/// A transition on its way: the step being taken, and what it will be answered when it failed.
#[derive(Debug, PartialEq, Eq)]
pub struct TransitionState {
    pub doing: TransitionWork,
    pub failure: Option<String>,
}

/// A transition on its way, with its texts as sequences of characters.
#[verifier::ext_equal]
pub struct TransitionModel {
    pub doing: TransitionWork,
    pub failure: Option<Seq<char>>,
}

impl View for TransitionState {
    type V = TransitionModel;

    open spec fn view(&self) -> TransitionModel {
        TransitionModel { doing: self.doing, failure: maybe(self.failure) }
    }
}

/// What a lost reply is reported as.
pub open spec fn lost_reply(transition: Transition) -> Seq<char> {
    match transition {
        Transition::Interrupt => "agent interruption reply was lost"@,
        Transition::Reroute => "agent routing reply was lost"@,
    }
}

/// What a transition does next; `logging` says whether messages between agents are logged. An
/// event that does not answer the step being taken changes nothing.
pub open spec fn transition_stepped(
    transition: Transition,
    logging: bool,
    state: TransitionModel,
    event: TransitionEvent,
) -> TransitionModel {
    let rerouting = transition == Transition::Reroute;
    match (state.doing, event) {
        (TransitionWork::Finish, _) => state,
        (TransitionWork::Log, TransitionEvent::Done) => TransitionModel {
            doing: TransitionWork::Finish,
            failure: None,
        },
        (TransitionWork::Log, _) => state,
        (_, TransitionEvent::Failed(error)) => TransitionModel {
            doing: TransitionWork::Finish,
            failure: Some(error@),
        },
        (TransitionWork::AwaitReply, TransitionEvent::Lost) => TransitionModel {
            doing: TransitionWork::Finish,
            failure: Some(lost_reply(transition)),
        },
        (doing, TransitionEvent::Done) => TransitionModel {
            doing: match doing {
                TransitionWork::Attach => if rerouting {
                    TransitionWork::FindThread
                } else {
                    TransitionWork::Submit
                },
                TransitionWork::FindThread => TransitionWork::EnsureCapacity,
                TransitionWork::EnsureCapacity => TransitionWork::Submit,
                TransitionWork::Submit => TransitionWork::AwaitReply,
                _ => if rerouting && logging {
                    TransitionWork::Log
                } else {
                    TransitionWork::Finish
                },
            },
            failure: None,
        },
        _ => state,
    }
}

impl TransitionState {
    /// A transition that starts with its first step.
    pub fn start() -> (state: Self)
        ensures
            state@ == (TransitionModel { doing: TransitionWork::Attach, failure: None }),
    {
        TransitionState { doing: TransitionWork::Attach, failure: None }
    }

    /// What the transition does next, now that its step ended. An event that does not answer the
    /// step being taken changes nothing.
    pub fn next(self, transition: Transition, logging: bool, event: TransitionEvent) -> (state: Self)
        ensures
            state@ == transition_stepped(transition, logging, self@, event),
    {
        let rerouting = matches!(transition, Transition::Reroute);
        match (self.doing, event) {
            (TransitionWork::Finish, _) => self,
            (TransitionWork::Log, TransitionEvent::Done) => TransitionState {
                doing: TransitionWork::Finish,
                failure: None,
            },
            (TransitionWork::Log, _) => self,
            (_, TransitionEvent::Failed(error)) => TransitionState {
                doing: TransitionWork::Finish,
                failure: Some(error),
            },
            (TransitionWork::AwaitReply, TransitionEvent::Lost) => TransitionState {
                doing: TransitionWork::Finish,
                failure: Some(
                    match transition {
                        Transition::Interrupt => "agent interruption reply was lost".to_string(),
                        Transition::Reroute => "agent routing reply was lost".to_string(),
                    },
                ),
            },
            (doing, TransitionEvent::Done) => TransitionState {
                doing: match doing {
                    TransitionWork::Attach => if rerouting {
                        TransitionWork::FindThread
                    } else {
                        TransitionWork::Submit
                    },
                    TransitionWork::FindThread => TransitionWork::EnsureCapacity,
                    TransitionWork::EnsureCapacity => TransitionWork::Submit,
                    TransitionWork::Submit => TransitionWork::AwaitReply,
                    _ => if rerouting && logging {
                        TransitionWork::Log
                    } else {
                        TransitionWork::Finish
                    },
                },
                failure: None,
            },
            (_, _) => self,
        }
    }
}

/// An agent that is to be rerouted is asked only once there is capacity for the turn; one that is
/// to be interrupted needs none.
pub proof fn reroute_needs_capacity(logging: bool, state: TransitionModel, event: TransitionEvent)
    requires
        state.doing != TransitionWork::Submit,
        transition_stepped(Transition::Reroute, logging, state, event).doing
            == TransitionWork::Submit,
    ensures
        state.doing == TransitionWork::EnsureCapacity && event is Done,
{
}

/// The steps of a session that takes another routing, in the order of one that goes through.
#[derive(Clone, Copy, Debug, PartialEq, Eq, Structural)]
pub enum RerouteWork {
    /// See whether the settings can be applied.
    Preview,
    /// Abort what the session is doing.
    Abort,
    Apply,
    /// Take the message in.
    Deliver,
    ReadRouting,
    /// The reroute is answered.
    Finish,
}

/// How a step of a session ended.
#[derive(Debug, PartialEq, Eq)]
pub enum RerouteEvent {
    Done,
    Failed(String),
    /// Whether something was interrupted.
    Aborted(bool),
    /// The routing that the session has now.
    Routing(SubAgentRouting),
}

/// A reroute on its way.
#[derive(Debug, PartialEq, Eq)]
pub struct Reroute {
    pub doing: RerouteWork,
    pub interrupted: bool,
    pub routing: Option<SubAgentRouting>,
    pub failure: Option<String>,
}

/// A reroute on its way, with its texts as sequences of characters.
#[verifier::ext_equal]
pub struct RerouteModel {
    pub doing: RerouteWork,
    pub interrupted: bool,
    pub routing: Option<RoutingModel>,
    pub failure: Option<Seq<char>>,
}

impl View for Reroute {
    type V = RerouteModel;

    open spec fn view(&self) -> RerouteModel {
        RerouteModel {
            doing: self.doing,
            interrupted: self.interrupted,
            routing: routed(self.routing),
            failure: maybe(self.failure),
        }
    }
}

/// A reroute that starts with its first step.
pub open spec fn rerouting() -> RerouteModel {
    RerouteModel { doing: RerouteWork::Preview, interrupted: false, routing: None, failure: None }
}

/// What a reroute does next. An event that does not answer the step being taken changes nothing.
pub open spec fn reroute_stepped(state: RerouteModel, event: RerouteEvent) -> RerouteModel {
    match (state.doing, event) {
        (RerouteWork::Preview, RerouteEvent::Done) => RerouteModel {
            doing: RerouteWork::Abort,
            ..state
        },
        (RerouteWork::Preview, RerouteEvent::Failed(error)) => RerouteModel {
            doing: RerouteWork::Finish,
            failure: Some(error@),
            ..state
        },
        (RerouteWork::Abort, RerouteEvent::Aborted(interrupted)) => RerouteModel {
            doing: RerouteWork::Apply,
            interrupted,
            ..state
        },
        (RerouteWork::Apply, RerouteEvent::Done) => RerouteModel {
            doing: RerouteWork::Deliver,
            ..state
        },
        (RerouteWork::Apply, RerouteEvent::Failed(error)) => RerouteModel {
            doing: RerouteWork::Finish,
            failure: Some(error@),
            ..state
        },
        (RerouteWork::Deliver, RerouteEvent::Done) => RerouteModel {
            doing: RerouteWork::ReadRouting,
            ..state
        },
        (RerouteWork::ReadRouting, RerouteEvent::Routing(routing)) => RerouteModel {
            doing: RerouteWork::Finish,
            routing: Some(routing@),
            ..state
        },
        _ => state,
    }
}

impl Reroute {
    /// A reroute that starts with its first step.
    pub fn start() -> (state: Self)
        ensures
            state@ == rerouting(),
    {
        Reroute { doing: RerouteWork::Preview, interrupted: false, routing: None, failure: None }
    }

    /// What the reroute does next, now that its step ended. An event that does not answer the step
    /// being taken changes nothing.
    pub fn next(self, event: RerouteEvent) -> (state: Self)
        ensures
            state@ == reroute_stepped(self@, event),
    {
        let mut state = self;
        match (state.doing, event) {
            (RerouteWork::Preview, RerouteEvent::Done) => {
                state.doing = RerouteWork::Abort;
            },
            (RerouteWork::Preview, RerouteEvent::Failed(error)) => {
                state.doing = RerouteWork::Finish;
                state.failure = Some(error);
            },
            (RerouteWork::Abort, RerouteEvent::Aborted(interrupted)) => {
                state.doing = RerouteWork::Apply;
                state.interrupted = interrupted;
            },
            (RerouteWork::Apply, RerouteEvent::Done) => {
                state.doing = RerouteWork::Deliver;
            },
            (RerouteWork::Apply, RerouteEvent::Failed(error)) => {
                state.doing = RerouteWork::Finish;
                state.failure = Some(error);
            },
            (RerouteWork::Deliver, RerouteEvent::Done) => {
                state.doing = RerouteWork::ReadRouting;
            },
            (RerouteWork::ReadRouting, RerouteEvent::Routing(routing)) => {
                state.doing = RerouteWork::Finish;
                state.routing = Some(routing);
            },
            (_, _) => {},
        }
        state
    }
}

/// Where a reroute stands after a run of events.
pub open spec fn reroute_after(events: Seq<RerouteEvent>) -> RerouteModel
    decreases events.len(),
{
    if events.len() == 0 {
        rerouting()
    } else {
        reroute_stepped(reroute_after(events.drop_last()), events.last())
    }
}

/// Settings that cannot be applied interrupt nothing and deliver nothing: nothing is aborted before
/// a preview went well, and the message is taken in only after the settings were applied.
pub proof fn refused_settings_interrupt_nothing(events: Seq<RerouteEvent>)
    requires
        events.len() > 0,
    ensures
        ({
            let before = reroute_after(events.drop_last());
            let now = reroute_after(events);
            &&& before.doing == RerouteWork::Preview && events.last() is Failed ==> now.doing
                == RerouteWork::Finish && now.failure is Some && !now.interrupted
            &&& before.doing != now.doing && now.doing == RerouteWork::Abort ==> before.doing
                == RerouteWork::Preview && events.last() is Done
            &&& before.doing != now.doing && now.doing == RerouteWork::Deliver ==> before.doing
                == RerouteWork::Apply && events.last() is Done
        }),
{
    undisturbed(events.drop_last());
}

/// Before the abort nothing is interrupted.
proof fn undisturbed(events: Seq<RerouteEvent>)
    ensures
        ({
            let now = reroute_after(events);
            now.doing == RerouteWork::Preview || now.doing == RerouteWork::Abort
                ==> !now.interrupted
        }),
    decreases events.len(),
{
    if events.len() > 0 {
        undisturbed(events.drop_last());
    }
}

/// A reroute that succeeds is answered with the routing that the session has afterwards and with
/// what the abort interrupted.
pub proof fn reroute_reports(state: RerouteModel, event: RerouteEvent)
    requires
        state.doing != RerouteWork::Finish,
        reroute_stepped(state, event).doing == RerouteWork::Finish,
        state.failure is None,
    ensures
        reroute_stepped(state, event).interrupted == state.interrupted,
        reroute_stepped(state, event).failure is None ==> reroute_stepped(state, event).routing
            is Some,
{
}

/// A transition that goes through: an interruption attaches, submits and waits for the reply; a reroute
/// finds the thread and makes sure of capacity in between, and is logged where messages are.
pub proof fn transitions_go_through(logging: bool)
    ensures
        ({
            let start = TransitionModel { doing: TransitionWork::Attach, failure: None };
            let done = TransitionEvent::Done;
            let a = transition_stepped(Transition::Interrupt, logging, start, done);
            let b = transition_stepped(Transition::Interrupt, logging, a, done);
            let c = transition_stepped(Transition::Interrupt, logging, b, done);
            let p = transition_stepped(Transition::Reroute, logging, start, done);
            let q = transition_stepped(Transition::Reroute, logging, p, done);
            let r = transition_stepped(Transition::Reroute, logging, q, done);
            let s = transition_stepped(Transition::Reroute, logging, r, done);
            let t = transition_stepped(Transition::Reroute, logging, s, done);
            let u = transition_stepped(Transition::Reroute, logging, t, done);
            &&& a.doing == TransitionWork::Submit
            &&& b.doing == TransitionWork::AwaitReply
            &&& c == (TransitionModel { doing: TransitionWork::Finish, failure: None })
            &&& p.doing == TransitionWork::FindThread
            &&& q.doing == TransitionWork::EnsureCapacity
            &&& r.doing == TransitionWork::Submit
            &&& s.doing == TransitionWork::AwaitReply
            &&& t.doing == if logging {
                TransitionWork::Log
            } else {
                TransitionWork::Finish
            }
            &&& t.failure is None
            &&& u == (TransitionModel { doing: TransitionWork::Finish, failure: None })
        }),
{
}

/// A transition ends with what went wrong in its step, and with a word for a reply that was lost; what
/// was answered stays answered.
pub proof fn transitions_fail(
    transition: Transition,
    logging: bool,
    state: TransitionModel,
    error: String,
    event: TransitionEvent,
)
    ensures
        state.doing != TransitionWork::Finish && state.doing != TransitionWork::Log
            ==> transition_stepped(transition, logging, state, TransitionEvent::Failed(error)) == (
        TransitionModel { doing: TransitionWork::Finish, failure: Some(error@) }),
        state.doing == TransitionWork::AwaitReply ==> transition_stepped(
            transition,
            logging,
            state,
            TransitionEvent::Lost,
        ) == (TransitionModel {
            doing: TransitionWork::Finish,
            failure: Some(
                if transition == Transition::Interrupt {
                    "agent interruption reply was lost"@
                } else {
                    "agent routing reply was lost"@
                },
            ),
        }),
        state.doing == TransitionWork::Finish ==> transition_stepped(
            transition,
            logging,
            state,
            event,
        ) == state,
{
}

/// A reroute that goes through previews the settings, aborts what the session does, applies the
/// settings, takes the message in and reads the routing, in this order; it is answered that routing, and
/// whether the abort interrupted anything.
pub proof fn reroutes_go_through(interrupted: bool, routing: SubAgentRouting, error: String)
    ensures
        ({
            let start = RerouteModel {
                doing: RerouteWork::Preview,
                interrupted: false,
                routing: None,
                failure: None,
            };
            let a = reroute_stepped(start, RerouteEvent::Done);
            let b = reroute_stepped(a, RerouteEvent::Aborted(interrupted));
            let c = reroute_stepped(b, RerouteEvent::Done);
            let d = reroute_stepped(c, RerouteEvent::Done);
            let e = reroute_stepped(d, RerouteEvent::Routing(routing));
            &&& a.doing == RerouteWork::Abort
            &&& b.doing == RerouteWork::Apply
            &&& c.doing == RerouteWork::Deliver
            &&& d.doing == RerouteWork::ReadRouting
            &&& e == (RerouteModel {
                doing: RerouteWork::Finish,
                interrupted,
                routing: Some(routing@),
                failure: None,
            })
            &&& reroute_stepped(b, RerouteEvent::Failed(error)) == (RerouteModel {
                doing: RerouteWork::Finish,
                interrupted,
                routing: None,
                failure: Some(error@),
            })
            &&& reroute_stepped(start, RerouteEvent::Failed(error)) == (RerouteModel {
                doing: RerouteWork::Finish,
                interrupted: false,
                routing: None,
                failure: Some(error@),
            })
        }),
{
}

/// An event that does not answer the step that a transition is taking changes nothing.
pub proof fn stray_events_leave_a_transition(
    transition: Transition,
    logging: bool,
    state: TransitionModel,
    event: TransitionEvent,
)
    requires
        state.doing == TransitionWork::Finish || state.doing == TransitionWork::Log && !(event
            is Done) || event is Lost && state.doing != TransitionWork::AwaitReply,
    ensures
        transition_stepped(transition, logging, state, event) == state,
{
}

/// The event answers the step that a reroute is taking.
pub open spec fn answers(doing: RerouteWork, event: RerouteEvent) -> bool {
    match doing {
        RerouteWork::Preview => event is Done || event is Failed,
        RerouteWork::Abort => event is Aborted,
        RerouteWork::Apply => event is Done || event is Failed,
        RerouteWork::Deliver => event is Done,
        RerouteWork::ReadRouting => event is Routing,
        RerouteWork::Finish => false,
    }
}

/// An event that does not answer the step that a reroute is taking changes nothing.
pub proof fn stray_events_leave_a_reroute(state: RerouteModel, event: RerouteEvent)
    requires
        !answers(state.doing, event),
    ensures
        reroute_stepped(state, event) == state,
{
}

} // verus!
