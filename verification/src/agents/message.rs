//! Sending a message to an agent, or a task to follow up on, with another routing if one is asked
//! for: a run of outside steps, each decided by how the one before it ended.

use vstd::prelude::*;
use vstd::string::StringExecFns;

use crate::text::chars_of;
use crate::text::copy_maybe;
use crate::text::maybe;
use crate::text::same;
use crate::text::same_maybe;
use crate::text::text_of;
use crate::text::trim;
use crate::text::trimmed;

verus! {

/// Whether a message wakes its receiver.
#[derive(Clone, Copy, Debug, PartialEq, Eq, Structural)]
pub enum MessageDeliveryMode {
    QueueOnly,
    TriggerTurn,
}

impl MessageDeliveryMode {
    /// Whether the message starts a turn.
    pub fn trigger_turn(self) -> (r: bool)
        ensures
            r == (self == MessageDeliveryMode::TriggerTurn),
    {
        match self {
            MessageDeliveryMode::QueueOnly => false,
            MessageDeliveryMode::TriggerTurn => true,
        }
    }
}

/// The model an agent runs on, and how much it reasons.
#[derive(Debug, PartialEq, Eq)]
pub struct SubAgentRouting {
    pub model: String,
    pub reasoning_effort: Option<String>,
}

/// The model an agent runs on, with its texts as sequences of characters.
#[verifier::ext_equal]
pub struct RoutingModel {
    pub model: Seq<char>,
    pub reasoning_effort: Option<Seq<char>>,
}

impl View for SubAgentRouting {
    type V = RoutingModel;

    open spec fn view(&self) -> RoutingModel {
        RoutingModel { model: self.model@, reasoning_effort: maybe(self.reasoning_effort) }
    }
}

/// What an optional routing stands for.
pub open spec fn routed(routing: Option<SubAgentRouting>) -> Option<RoutingModel> {
    match routing {
        Some(routing) => Some(routing@),
        None => None,
    }
}

/// Whether two routings are the same.
pub fn same_routing(a: &SubAgentRouting, b: &SubAgentRouting) -> (r: bool)
    ensures
        r == (a@ == b@),
{
    same(a.model.as_str(), b.model.as_str()) && same_maybe(
        &a.reasoning_effort,
        &b.reasoning_effort,
    )
}

/// Routing requested for the receiver's next turn; both fields omitted means that it is kept.
#[derive(Debug, PartialEq, Eq)]
pub struct RequestedRouting {
    pub model: Option<String>,
    pub reasoning_effort: Option<String>,
}

impl Default for RequestedRouting {
    fn default() -> (requested: Self)
        ensures
            requested.model is None,
            requested.reasoning_effort is None,
    {
        RequestedRouting { model: None, reasoning_effort: None }
    }
}

/// No other routing is asked for.
pub open spec fn keeps_routing(requested: RequestedRouting) -> bool {
    requested.model is None && requested.reasoning_effort is None
}

impl RequestedRouting {
    /// Whether no other routing is asked for.
    pub fn is_empty(&self) -> (r: bool)
        ensures
            r == keeps_routing(*self),
    {
        self.model.is_none() && self.reasoning_effort.is_none()
    }
}

/// Routing at message delivery, including an interruption requested by a follow-up.
#[derive(Debug, PartialEq, Eq)]
pub struct AgentMessageResult {
    pub model: String,
    pub reasoning_effort: Option<String>,
    /// The receiver's active turn was interrupted so the new routing could take effect.
    pub interrupted: bool,
}

/// What a message that cannot be sent is answered, or the message.
pub fn message_content(message: String) -> (r: Result<String, String>)
    ensures
        r is Err <==> trimmed(message@).len() == 0,
        match r {
            Ok(content) => content@ == message@,
            Err(error) => error@ == "Empty message can't be sent to an agent"@,
        },
{
    let content = trim(message.as_str());
    let length: usize = chars_of(content.as_str()).len();
    if length == 0 {
        return Err("Empty message can't be sent to an agent".to_string());
    }
    Ok(message)
}

/// What comes before the last slash, where there is one.
pub open spec fn parent_path(path: Seq<char>) -> Option<Seq<char>>
    decreases path.len(),
{
    if path.len() == 0 {
        None
    } else if path.last() == '/' {
        Some(path.drop_last())
    } else {
        parent_path(path.drop_last())
    }
}

/// Where the last slash stands, counted from the front.
proof fn parent_found(path: Seq<char>, k: int)
    requires
        0 <= k < path.len(),
        path[k] == '/',
        forall|j: int| k < j < path.len() ==> path[j] != '/',
    ensures
        parent_path(path) == Some(path.take(k)),
    decreases path.len(),
{
    if k == path.len() - 1 {
        assert(path.drop_last() == path.take(k));
    } else {
        assert(path.drop_last().take(k) == path.take(k));
        parent_found(path.drop_last(), k);
    }
}

/// Without a slash there is no parent.
proof fn parent_missing(path: Seq<char>)
    requires
        forall|j: int| 0 <= j < path.len() ==> path[j] != '/',
    ensures
        parent_path(path) == None::<Seq<char>>,
    decreases path.len(),
{
    if path.len() > 0 {
        parent_missing(path.drop_last());
    }
}

/// What comes before the last slash of a path.
fn parent_of(path: &str) -> (r: Option<String>)
    ensures
        maybe(r) == parent_path(path@),
{
    let chars = chars_of(path);
    let mut i: usize = chars.len();
    while i > 0
        invariant
            i <= chars@.len(),
            chars@ == path@,
            forall|j: int| i <= j < chars@.len() ==> chars@[j] != '/',
        decreases i,
    {
        if chars[i - 1] == '/' {
            let parent = text_of(&chars, 0, i - 1);
            proof {
                parent_found(path@, i - 1);
                assert(parent@ == path@.take(i - 1));
            }
            return Some(parent);
        }
        i -= 1;
    }
    proof {
        parent_missing(path@);
    }
    None
}

/// What an agent that is not a direct child is answered.
pub open spec fn not_a_child(target: Seq<char>, parent: Seq<char>) -> Seq<char> {
    target + " is not a direct child of "@ + parent
}

/// Refuses a target that does not stand directly below `parent`.
pub fn require_direct_child(parent: &str, target: &str) -> (r: Result<(), String>)
    ensures
        r is Ok <==> parent_path(target@) == Some(parent@),
        r matches Err(error) ==> error@ == not_a_child(target@, parent@),
{
    if let Some(above) = parent_of(target) {
        if same(above.as_str(), parent) {
            return Ok(());
        }
    }
    let mut error = target.to_string();
    error.append(" is not a direct child of ");
    error.append(parent);
    Err(error)
}

/// The two kinds of message between agents.
#[derive(Clone, Copy, Debug, PartialEq, Eq, Structural)]
pub enum AgentCommunicationKind {
    Message,
    Followup,
}

/// How a message is handed over.
#[derive(Debug, PartialEq, Eq)]
pub struct Delivery {
    pub trigger_turn: bool,
    pub kind: AgentCommunicationKind,
    /// The turn that a follow-up belongs to.
    pub parent_turn_id: Option<String>,
}

/// How a message is handed over: a follow-up wakes its receiver and belongs to the sending turn.
pub fn delivery(mode: MessageDeliveryMode, turn_id: &str) -> (r: Delivery)
    ensures
        r.trigger_turn == (mode == MessageDeliveryMode::TriggerTurn),
        r.kind == (if mode == MessageDeliveryMode::TriggerTurn {
            AgentCommunicationKind::Followup
        } else {
            AgentCommunicationKind::Message
        }),
        maybe(r.parent_turn_id) == (if mode == MessageDeliveryMode::TriggerTurn {
            Some(turn_id@)
        } else {
            None
        }),
{
    match mode {
        MessageDeliveryMode::QueueOnly => Delivery {
            trigger_turn: mode.trigger_turn(),
            kind: AgentCommunicationKind::Message,
            parent_turn_id: None,
        },
        MessageDeliveryMode::TriggerTurn => Delivery {
            trigger_turn: mode.trigger_turn(),
            kind: AgentCommunicationKind::Followup,
            parent_turn_id: Some(turn_id.to_string()),
        },
    }
}

/// What is sent, and by whom.
#[derive(Debug, PartialEq, Eq)]
pub struct MessageRequest {
    pub mode: MessageDeliveryMode,
    pub message: String,
    pub requested: RequestedRouting,
    /// The path of the agent that sends.
    pub author: String,
}

/// The outside steps of sending a message, in the order of one that goes through.
#[derive(Clone, Copy, Debug, PartialEq, Eq, Structural)]
pub enum MessageWork {
    ResolveTarget,
    KnowTarget,
    LoadTarget,
    ReadRouting,
    /// Work out the routing that was asked for.
    ResolveRouting,
    /// Hand the message over with another routing.
    Reroute,
    /// Hand the message over.
    Send,
    Announce,
    /// The request is answered.
    Reply,
}

/// How an outside step ended.
#[derive(Debug, PartialEq, Eq)]
pub enum MessageEvent {
    Done,
    Failed(String),
    /// The receiver's thread.
    Target(String),
    /// The receiver's path, and whether it is the root's.
    Known { path: Option<String>, root: bool },
    /// The routing of the receiver, where it is there, or the one that was worked out.
    Routing(Option<SubAgentRouting>),
    /// The routing that the receiver took, and whether its turn was interrupted for it.
    Rerouted { routing: SubAgentRouting, interrupted: bool },
}

/// A message on its way: the step being taken, what is known so far, and what it will be answered
/// when it failed.
#[derive(Debug, PartialEq, Eq)]
pub struct MessageFlow {
    pub doing: MessageWork,
    pub receiver: Option<String>,
    pub path: Option<String>,
    pub routing: Option<SubAgentRouting>,
    pub interrupted: bool,
    pub failure: Option<String>,
}

/// A message on its way, with its texts as sequences of characters.
#[verifier::ext_equal]
pub struct MessageFlowModel {
    pub doing: MessageWork,
    pub receiver: Option<Seq<char>>,
    pub path: Option<Seq<char>>,
    pub routing: Option<RoutingModel>,
    pub interrupted: bool,
    pub failure: Option<Seq<char>>,
}

impl View for MessageFlow {
    type V = MessageFlowModel;

    open spec fn view(&self) -> MessageFlowModel {
        MessageFlowModel {
            doing: self.doing,
            receiver: maybe(self.receiver),
            path: maybe(self.path),
            routing: routed(self.routing),
            interrupted: self.interrupted,
            failure: maybe(self.failure),
        }
    }
}

/// A message that starts with its first step.
pub open spec fn sending() -> MessageFlowModel {
    MessageFlowModel {
        doing: MessageWork::ResolveTarget,
        receiver: None,
        path: None,
        routing: None,
        interrupted: false,
        failure: None,
    }
}

/// The message is answered with a failure.
pub open spec fn unsent(flow: MessageFlowModel, error: Seq<char>) -> MessageFlowModel {
    MessageFlowModel { doing: MessageWork::Reply, failure: Some(error), ..flow }
}

/// Why a receiver cannot be sent a message, if it cannot: a follow-up cannot go to the root agent,
/// a receiver has a path, and only a direct child can be given another routing.
pub open spec fn receiver_problem(
    request: MessageRequest,
    path: Option<Seq<char>>,
    root: bool,
) -> Option<Seq<char>> {
    let follows = request.mode == MessageDeliveryMode::TriggerTurn;
    match path {
        None => Some("target agent is missing an agent_path"@),
        Some(path) => if follows && root {
            Some("Follow-up tasks can't target the root agent"@)
        } else if follows && !keeps_routing(request.requested) && parent_path(path) != Some(
            request.author@,
        ) {
            Some(not_a_child(path, request.author@))
        } else {
            None
        },
    }
}

/// What a message does next. An event that does not answer the step being taken changes nothing.
pub open spec fn message_stepped(
    request: MessageRequest,
    flow: MessageFlowModel,
    event: MessageEvent,
) -> MessageFlowModel {
    match (flow.doing, event) {
        (MessageWork::Reply, _) => flow,
        (MessageWork::Announce, MessageEvent::Done) => MessageFlowModel {
            doing: MessageWork::Reply,
            ..flow
        },
        (MessageWork::Announce, _) => flow,
        (_, MessageEvent::Failed(error)) => unsent(flow, error@),
        (MessageWork::ResolveTarget, MessageEvent::Target(receiver)) => MessageFlowModel {
            doing: MessageWork::KnowTarget,
            receiver: Some(receiver@),
            ..flow
        },
        (MessageWork::KnowTarget, MessageEvent::Known { path, root }) => match receiver_problem(
            request,
            maybe(path),
            root,
        ) {
            Some(problem) => unsent(flow, problem),
            None => MessageFlowModel {
                doing: MessageWork::LoadTarget,
                path: maybe(path),
                ..flow
            },
        },
        (MessageWork::LoadTarget, MessageEvent::Done) => MessageFlowModel {
            doing: MessageWork::ReadRouting,
            ..flow
        },
        (MessageWork::ReadRouting, MessageEvent::Routing(routing)) => match routing {
            None => unsent(flow, "agent with id "@ + named(flow.receiver) + " not found"@),
            Some(routing) => MessageFlowModel {
                doing: if keeps_routing(request.requested) {
                    MessageWork::Send
                } else {
                    MessageWork::ResolveRouting
                },
                routing: Some(routing@),
                ..flow
            },
        },
        (MessageWork::ResolveRouting, MessageEvent::Routing(Some(routing))) => MessageFlowModel {
            doing: if flow.routing == Some(routing@) {
                MessageWork::Send
            } else {
                MessageWork::Reroute
            },
            routing: Some(routing@),
            ..flow
        },
        (MessageWork::Reroute, MessageEvent::Rerouted { routing, interrupted }) =>
            MessageFlowModel {
            doing: MessageWork::Announce,
            routing: Some(routing@),
            interrupted,
            ..flow
        },
        (MessageWork::Send, MessageEvent::Done) => MessageFlowModel {
            doing: MessageWork::Announce,
            ..flow
        },
        _ => flow,
    }
}

/// A text that is there, or nothing.
pub open spec fn named(text: Option<Seq<char>>) -> Seq<char> {
    match text {
        Some(text) => text,
        None => Seq::empty(),
    }
}

/// Why a receiver cannot be sent a message, if it cannot.
fn find_problem(request: &MessageRequest, path: &Option<String>, root: bool) -> (r: Option<String>)
    ensures
        maybe(r) == receiver_problem(*request, maybe(*path), root),
{
    let follows = request.mode.trigger_turn();
    match path {
        None => Some("target agent is missing an agent_path".to_string()),
        Some(path) => {
            if follows && root {
                return Some("Follow-up tasks can't target the root agent".to_string());
            }
            if follows && !request.requested.is_empty() {
                if let Err(error) = require_direct_child(request.author.as_str(), path.as_str()) {
                    return Some(error);
                }
            }
            None
        },
    }
}

impl MessageFlow {
    /// A message that starts with its first step, unless it is empty.
    pub fn start(request: &MessageRequest) -> (flow: Self)
        ensures
            flow@ == if trimmed(request.message@).len() == 0 {
                unsent(sending(), "Empty message can't be sent to an agent"@)
            } else {
                sending()
            },
    {
        let mut flow = MessageFlow {
            doing: MessageWork::ResolveTarget,
            receiver: None,
            path: None,
            routing: None,
            interrupted: false,
            failure: None,
        };
        if let Err(error) = message_content(request.message.clone()) {
            flow.doing = MessageWork::Reply;
            flow.failure = Some(error);
        }
        flow
    }

    /// The message is answered with a failure.
    fn fail(self, error: String) -> (flow: Self)
        ensures
            flow@ == unsent(self@, error@),
    {
        let mut flow = self;
        flow.doing = MessageWork::Reply;
        flow.failure = Some(error);
        flow
    }

    /// What the message does next, now that its step ended. An event that does not answer the step
    /// being taken changes nothing.
    pub fn next(self, request: &MessageRequest, event: MessageEvent) -> (flow: Self)
        ensures
            flow@ == message_stepped(*request, self@, event),
    {
        let mut flow = self;
        match (flow.doing, event) {
            (MessageWork::Reply, _) => {},
            (MessageWork::Announce, MessageEvent::Done) => {
                flow.doing = MessageWork::Reply;
            },
            (MessageWork::Announce, _) => {},
            (_, MessageEvent::Failed(error)) => {
                return flow.fail(error);
            },
            (MessageWork::ResolveTarget, MessageEvent::Target(receiver)) => {
                flow.doing = MessageWork::KnowTarget;
                flow.receiver = Some(receiver);
            },
            (MessageWork::KnowTarget, MessageEvent::Known { path, root }) => {
                if let Some(problem) = find_problem(request, &path, root) {
                    return flow.fail(problem);
                }
                flow.doing = MessageWork::LoadTarget;
                flow.path = path;
            },
            (MessageWork::LoadTarget, MessageEvent::Done) => {
                flow.doing = MessageWork::ReadRouting;
            },
            (MessageWork::ReadRouting, MessageEvent::Routing(routing)) => {
                match routing {
                    None => {
                        let mut error = "agent with id ".to_string();
                        if let Some(receiver) = &flow.receiver {
                            error.append(receiver.as_str());
                        } else {
                            assert(error@ + Seq::<char>::empty() == error@);
                        }
                        error.append(" not found");
                        return flow.fail(error);
                    },
                    Some(routing) => {
                        flow.doing = if request.requested.is_empty() {
                            MessageWork::Send
                        } else {
                            MessageWork::ResolveRouting
                        };
                        flow.routing = Some(routing);
                    },
                }
            },
            (MessageWork::ResolveRouting, MessageEvent::Routing(Some(routing))) => {
                let kept = match &flow.routing {
                    Some(before) => same_routing(before, &routing),
                    None => false,
                };
                flow.doing = if kept {
                    MessageWork::Send
                } else {
                    MessageWork::Reroute
                };
                flow.routing = Some(routing);
            },
            (MessageWork::Reroute, MessageEvent::Rerouted { routing, interrupted }) => {
                flow.doing = MessageWork::Announce;
                flow.routing = Some(routing);
                flow.interrupted = interrupted;
            },
            (MessageWork::Send, MessageEvent::Done) => {
                flow.doing = MessageWork::Announce;
            },
            (_, _) => {},
        }
        flow
    }

    /// What the sender is answered, once it is: the routing at delivery, or what went wrong.
    pub fn reply(&self) -> (r: Option<Result<AgentMessageResult, String>>)
        ensures
            r is Some <==> self.doing == MessageWork::Reply && (self.failure is Some
                || self.routing is Some),
            match r {
                Some(Ok(result)) => self.failure is None && self@.routing == Some(
                    RoutingModel {
                        model: result.model@,
                        reasoning_effort: maybe(result.reasoning_effort),
                    },
                ) && result.interrupted == self.interrupted,
                Some(Err(error)) => self@.failure == Some(error@),
                None => true,
            },
    {
        match self.doing {
            MessageWork::Reply => {
                if let Some(error) = &self.failure {
                    return Some(Err(error.clone()));
                }
                match &self.routing {
                    Some(routing) => Some(
                        Ok(
                            AgentMessageResult {
                                model: routing.model.clone(),
                                reasoning_effort: copy_maybe(&routing.reasoning_effort),
                                interrupted: self.interrupted,
                            },
                        ),
                    ),
                    None => None,
                }
            },
            _ => None,
        }
    }
}

/// Where a message stands after a run of events.
pub open spec fn message_after(
    request: MessageRequest,
    events: Seq<MessageEvent>,
) -> MessageFlowModel
    decreases events.len(),
{
    if events.len() == 0 {
        if trimmed(request.message@).len() == 0 {
            unsent(sending(), "Empty message can't be sent to an agent"@)
        } else {
            sending()
        }
    } else {
        message_stepped(request, message_after(request, events.drop_last()), events.last())
    }
}

/// The message has got past the test of its receiver.
pub open spec fn accepted(flow: MessageFlowModel) -> bool {
    match flow.doing {
        MessageWork::ResolveTarget | MessageWork::KnowTarget => false,
        MessageWork::Reply => flow.failure is None,
        _ => true,
    }
}

/// An empty message asks for no outside step, whatever happens.
pub proof fn empty_message_goes_nowhere(request: MessageRequest, events: Seq<MessageEvent>)
    requires
        trimmed(request.message@).len() == 0,
    ensures
        message_after(request, events).doing == MessageWork::Reply,
        message_after(request, events).failure == Some("Empty message can't be sent to an agent"@),
    decreases events.len(),
{
    if events.len() > 0 {
        empty_message_goes_nowhere(request, events.drop_last());
    }
}

/// Nothing is loaded, rerouted or sent for a receiver that was not accepted: a follow-up never
/// goes to the root agent, and only a direct child is given another routing.
pub proof fn only_accepted_receivers(request: MessageRequest, events: Seq<MessageEvent>)
    requires
        accepted(message_after(request, events)),
    ensures
        exists|i: int|
            0 <= i < events.len() && (#[trigger] events[i] matches MessageEvent::Known { path, root }
                && receiver_problem(request, maybe(path), root) is None),
    decreases events.len(),
{
    if events.len() > 0 {
        let before = events.drop_last();
        if accepted(message_after(request, before)) {
            only_accepted_receivers(request, before);
            let i = choose|i: int|
                0 <= i < before.len() && (#[trigger] before[i] matches MessageEvent::Known {
                    path,
                    root,
                } && receiver_problem(request, maybe(path), root) is None);
            assert(events[i] == before[i]);
        } else {
            assert(events[events.len() - 1] == events.last());
            if message_after(request, before).doing == MessageWork::Reply {
                assert(message_after(request, events) == message_after(request, before));
            }
        }
    }
}

/// A message is handed over with another routing only when the one that was worked out differs
/// from the receiver's own.
pub proof fn reroutes_only_changes(
    request: MessageRequest,
    flow: MessageFlowModel,
    event: MessageEvent,
)
    requires
        flow.doing != MessageWork::Reroute,
        message_stepped(request, flow, event).doing == MessageWork::Reroute,
    ensures
        flow.doing == MessageWork::ResolveRouting,
        message_stepped(request, flow, event).routing != flow.routing,
{
}

/// A message without a request for another routing is never handed over with one, and interrupts
/// nothing.
pub proof fn kept_routing_interrupts_nothing(request: MessageRequest, events: Seq<MessageEvent>)
    requires
        keeps_routing(request.requested),
    ensures
        !message_after(request, events).interrupted,
        message_after(request, events).doing != MessageWork::Reroute,
        message_after(request, events).doing != MessageWork::ResolveRouting,
    decreases events.len(),
{
    if events.len() > 0 {
        kept_routing_interrupts_nothing(request, events.drop_last());
    }
}

/// The agent stands directly below another: its path is that one's, a slash, and a name.
pub open spec fn directly_below(path: Seq<char>, parent: Seq<char>) -> bool {
    exists|name: Seq<char>| path == #[trigger] (parent + seq!['/'] + name) && !name.contains('/')
}

/// The parent of a path is what stands before its last slash.
proof fn parents_are_above(path: Seq<char>, parent: Seq<char>)
    ensures
        parent_path(path) == Some(parent) <==> directly_below(path, parent),
    decreases path.len(),
{
    if parent_path(path) == Some(parent) {
        parent_splits(path);
    }
    if directly_below(path, parent) {
        let name = choose|name: Seq<char>|
            path == #[trigger] (parent + seq!['/'] + name) && !name.contains('/');
        let k = parent.len() as int;
        assert(path[k] == '/');
        assert forall|j: int| k < j < path.len() implies path[j] != '/' by {
            assert(path[j] == name[j - k - 1]);
            assert(name.contains(name[j - k - 1]));
        }
        parent_found(path, k);
        assert(path.take(k) =~= parent);
    }
}

/// A path with a parent is the parent, a slash, and a name.
proof fn parent_splits(path: Seq<char>)
    requires
        parent_path(path) is Some,
    ensures
        directly_below(path, parent_path(path)->0),
    decreases path.len(),
{
    let parent = parent_path(path)->0;
    if path.last() == '/' {
        let name = Seq::<char>::empty();
        assert(path =~= parent + seq!['/'] + name);
        assert(!name.contains('/'));
    } else {
        parent_splits(path.drop_last());
        let name = choose|name: Seq<char>|
            path.drop_last() == #[trigger] (parent + seq!['/'] + name) && !name.contains('/');
        let longer = name.push(path.last());
        assert(path =~= path.drop_last().push(path.last()));
        assert((parent + seq!['/'] + name).push(path.last()) =~= parent + seq!['/'] + longer);
        assert(!longer.contains('/')) by {
            if longer.contains('/') {
                let j = choose|j: int| 0 <= j < longer.len() && longer[j] == '/';
                assert(j < name.len());
                assert(name[j] == '/');
            }
        }
    }
}

/// A message that is no follow-up is never refused for its receiver, the root agent included, as long
/// as the receiver has a path: it is loaded next.
pub proof fn messages_go_to_any_agent(
    request: MessageRequest,
    flow: MessageFlowModel,
    path: String,
    root: bool,
)
    requires
        flow.doing == MessageWork::KnowTarget,
        request.mode == MessageDeliveryMode::QueueOnly,
    ensures
        message_stepped(request, flow, MessageEvent::Known { path: Some(path), root })
            == (MessageFlowModel { doing: MessageWork::LoadTarget, path: Some(path@), ..flow }),
{
}

/// A follow-up goes to every agent but the root, and with another routing only to a direct child of
/// its author; whoever is refused gets nothing, and an agent without a path is always refused.
pub proof fn followups_go_to_agents_below(
    request: MessageRequest,
    flow: MessageFlowModel,
    path: Option<String>,
    root: bool,
)
    requires
        flow.doing == MessageWork::KnowTarget,
        request.mode == MessageDeliveryMode::TriggerTurn,
    ensures
        ({
            let next = message_stepped(request, flow, MessageEvent::Known { path, root });
            let rerouted = request.requested.model is Some || request.requested.reasoning_effort
                is Some;
            if path is Some && !root && (rerouted ==> directly_below(
                path->0@,
                request.author@,
            )) {
                next == (MessageFlowModel {
                    doing: MessageWork::LoadTarget,
                    path: Some(path->0@),
                    ..flow
                })
            } else {
                &&& next.doing == MessageWork::Reply
                &&& next.failure is Some
                &&& path is None ==> next.failure == Some("target agent is missing an agent_path"@)
                &&& path is Some && root ==> next.failure == Some(
                    "Follow-up tasks can't target the root agent"@,
                )
                &&& path is Some && !root ==> next.failure == Some(
                    path->0@ + " is not a direct child of "@ + request.author@,
                )
            }
        }),
{
    if path is Some {
        parents_are_above(path->0@, request.author@);
    }
}

/// Without a path no agent gets a message.
pub proof fn agents_without_a_path_get_nothing(
    request: MessageRequest,
    flow: MessageFlowModel,
    root: bool,
)
    requires
        flow.doing == MessageWork::KnowTarget,
    ensures
        ({
            let next = message_stepped(request, flow, MessageEvent::Known { path: None, root });
            &&& next.doing == MessageWork::Reply
            &&& next.failure == Some("target agent is missing an agent_path"@)
        }),
{
}

/// A message that keeps the routing of its receiver goes through its steps in this order: the
/// receiver is resolved, known, loaded and its routing read; the message is sent and announced; and
/// the sender is answered the routing that was read, without an interruption.
pub proof fn plain_messages_are_sent(
    request: MessageRequest,
    receiver: String,
    path: String,
    root: bool,
    routing: SubAgentRouting,
)
    requires
        trimmed(request.message@).len() > 0,
        request.requested.model is None,
        request.requested.reasoning_effort is None,
        request.mode == MessageDeliveryMode::TriggerTurn ==> !root,
    ensures
        ({
            let events = seq![
                MessageEvent::Target(receiver),
                MessageEvent::Known { path: Some(path), root },
                MessageEvent::Done,
                MessageEvent::Routing(Some(routing)),
                MessageEvent::Done,
                MessageEvent::Done,
            ];
            let works = seq![
                MessageWork::ResolveTarget,
                MessageWork::KnowTarget,
                MessageWork::LoadTarget,
                MessageWork::ReadRouting,
                MessageWork::Send,
                MessageWork::Announce,
                MessageWork::Reply,
            ];
            let end = message_after(request, events);
            &&& forall|k: int|
                0 <= k <= 6 ==> (#[trigger] message_after(request, events.take(k))).doing
                    == works[k]
            &&& end.doing == MessageWork::Reply
            &&& end.failure is None
            &&& end.receiver == Some(receiver@)
            &&& end.path == Some(path@)
            &&& end.routing == Some(routing@)
            &&& !end.interrupted
        }),
{
    let events = seq![
        MessageEvent::Target(receiver),
        MessageEvent::Known { path: Some(path), root },
        MessageEvent::Done,
        MessageEvent::Routing(Some(routing)),
        MessageEvent::Done,
        MessageEvent::Done,
    ];
    assert(events.take(0) =~= Seq::<MessageEvent>::empty());
    message_goes_on(request, events, 1);
    message_goes_on(request, events, 2);
    message_goes_on(request, events, 3);
    message_goes_on(request, events, 4);
    message_goes_on(request, events, 5);
    message_goes_on(request, events, 6);
    assert(events.take(6) =~= events);
}

/// One event more.
proof fn message_goes_on(request: MessageRequest, events: Seq<MessageEvent>, k: int)
    requires
        0 < k <= events.len(),
    ensures
        message_after(request, events.take(k)) == message_stepped(
            request,
            message_after(request, events.take(k - 1)),
            events[k - 1],
        ),
{
    assert(events.take(k).drop_last() =~= events.take(k - 1));
    assert(events.take(k).last() == events[k - 1]);
}

/// A message with a request for another routing has it worked out once the receiver's own is read; it
/// is handed over with it where it differs, and plainly where it does not; and the routing that the
/// receiver took is the one that is announced and answered.
pub proof fn requested_routing_is_worked_out(
    request: MessageRequest,
    flow: MessageFlowModel,
    own: SubAgentRouting,
    wanted: SubAgentRouting,
    taken: SubAgentRouting,
    interrupted: bool,
)
    requires
        flow.doing == MessageWork::ReadRouting,
        request.requested.model is Some || request.requested.reasoning_effort is Some,
    ensures
        ({
            let asked = message_stepped(request, flow, MessageEvent::Routing(Some(own)));
            let decided = message_stepped(request, asked, MessageEvent::Routing(Some(wanted)));
            let handed = message_stepped(
                request,
                decided,
                MessageEvent::Rerouted { routing: taken, interrupted },
            );
            &&& asked.doing == MessageWork::ResolveRouting && asked.routing == Some(own@)
            &&& decided.routing == Some(wanted@)
            &&& own@ == wanted@ ==> decided.doing == MessageWork::Send
            &&& own@ != wanted@ ==> decided.doing == MessageWork::Reroute && handed.doing
                == MessageWork::Announce && handed.routing == Some(taken@) && handed.interrupted
                == interrupted && handed.failure == flow.failure
        }),
{
}

/// A step that fails ends the message with what went wrong, and so does a receiver without a routing;
/// only that the announcement fails does not.
pub proof fn failures_end_a_message(request: MessageRequest, flow: MessageFlowModel, error: String)
    requires
        flow.doing != MessageWork::Reply,
        flow.doing != MessageWork::Announce,
    ensures
        message_stepped(request, flow, MessageEvent::Failed(error)) == (MessageFlowModel {
            doing: MessageWork::Reply,
            failure: Some(error@),
            ..flow
        }),
        flow.doing == MessageWork::ReadRouting && flow.receiver is Some ==> ({
            let next = message_stepped(request, flow, MessageEvent::Routing(None));
            &&& next.doing == MessageWork::Reply
            &&& next.failure == Some("agent with id "@ + flow.receiver->0 + " not found"@)
        }),
{
}

/// The event answers the step that a message is taking.
pub open spec fn answers(doing: MessageWork, event: MessageEvent) -> bool {
    match doing {
        MessageWork::ResolveTarget => event is Target || event is Failed,
        MessageWork::KnowTarget => event is Known || event is Failed,
        MessageWork::LoadTarget => event is Done || event is Failed,
        MessageWork::ReadRouting => event is Routing || event is Failed,
        MessageWork::ResolveRouting => event is Failed || (event matches MessageEvent::Routing(
            routing,
        ) && routing is Some),
        MessageWork::Reroute => event is Rerouted || event is Failed,
        MessageWork::Send => event is Done || event is Failed,
        MessageWork::Announce => event is Done,
        MessageWork::Reply => false,
    }
}

/// An event that does not answer the step that a message is taking changes nothing.
pub proof fn stray_events_leave_a_message(
    request: MessageRequest,
    flow: MessageFlowModel,
    event: MessageEvent,
)
    requires
        !answers(flow.doing, event),
    ensures
        message_stepped(request, flow, event) == flow,
{
}

} // verus!
