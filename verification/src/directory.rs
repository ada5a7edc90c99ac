//! Changing the working directory of a thread: a run of outside steps, each decided by how the one
//! before it ended, with the original runtime put back when the new one does not come up.

use vstd::prelude::*;
use vstd::string::StringExecFns;

use crate::text::copy_maybe;
use crate::text::copy_texts;
use crate::text::maybe;
use crate::text::texts;

verus! {

/// Whose fault a failed request is.
#[derive(Clone, Copy, Debug, PartialEq, Eq, Structural)]
pub enum FailureKind {
    InvalidParams,
    InvalidRequest,
    Internal,
    /// A kind that the host gave the failure, by its code.
    Other(i64),
}

/// What a failed request is answered.
#[derive(Debug, PartialEq, Eq)]
pub struct Failure {
    pub kind: FailureKind,
    pub message: String,
}

/// What a failed request is answered, with its text as a sequence of characters.
#[verifier::ext_equal]
pub struct FailureModel {
    pub kind: FailureKind,
    pub message: Seq<char>,
}

impl View for Failure {
    type V = FailureModel;

    open spec fn view(&self) -> FailureModel {
        FailureModel { kind: self.kind, message: self.message@ }
    }
}

/// What an optional failure says.
pub open spec fn failed(failure: Option<Failure>) -> Option<FailureModel> {
    match failure {
        Some(failure) => Some(failure@),
        None => None,
    }
}

/// What a thread is known to be when its directory is to change.
#[derive(Clone, Copy, Debug, PartialEq, Eq, Structural)]
pub struct ThreadFacts {
    /// How many environments it works in.
    pub environments: usize,
    pub ephemeral: bool,
    pub has_parent: bool,
    /// Its first environment is the local one.
    pub local: bool,
    /// That environment takes its config from the thread.
    pub from_thread: bool,
}

/// What an agent below a thread is doing.
#[derive(Clone, Copy, Debug, PartialEq, Eq, Structural)]
pub struct AgentActivity {
    /// Its thread is at hand.
    pub loaded: bool,
    pub running: bool,
    /// How many terminals it keeps in the background.
    pub terminals: usize,
}

/// The outside steps of a directory change, in the order of a change that goes through.
#[derive(Clone, Copy, Debug, PartialEq, Eq, Structural)]
pub enum Work {
    ParsePath,
    TestDirectory,
    LoadThread,
    CheckInput,
    ReadThread,
    ParsePrevious,
    LoadConfig,
    AcquirePermit,
    LoadCurrent,
    ListAgents,
    Preview,
    ApplySettings,
    Checkpoint,
    Persist,
    Stop,
    Reload,
    Reconcile,
    Notify,
    /// The new runtime failed: see whether one stands under the thread's identity.
    FindReplacement,
    StopReplacement,
    Restore,
    /// The request is answered.
    Reply,
}

/// How an outside step ended.
#[derive(Debug, PartialEq, Eq)]
pub enum Event {
    Done,
    Failed(Failure),
    /// Whether the path is a directory, and the path as it is shown.
    Directory { exists: bool, shown: String },
    Thread(ThreadFacts),
    /// The config was loaded; whether it trusts the directory.
    Config { trusted: bool },
    /// The thread was loaded again; whether it is the same one, in the same directory.
    Current { same_thread: bool, same_directory: bool },
    Agents(Vec<AgentActivity>),
    /// Whether a runtime stands under the thread's identity.
    Replacement(bool),
}

/// How an outside step ended, with its texts as sequences of characters.
pub enum EventModel {
    Done,
    Failed(FailureModel),
    Directory { exists: bool, shown: Seq<char> },
    Thread(ThreadFacts),
    Config { trusted: bool },
    Current { same_thread: bool, same_directory: bool },
    Agents(Seq<AgentActivity>),
    Replacement(bool),
}

impl View for Event {
    type V = EventModel;

    open spec fn view(&self) -> EventModel {
        match *self {
            Event::Done => EventModel::Done,
            Event::Failed(failure) => EventModel::Failed(failure@),
            Event::Directory { exists, shown } => EventModel::Directory { exists, shown: shown@ },
            Event::Thread(facts) => EventModel::Thread(facts),
            Event::Config { trusted } => EventModel::Config { trusted },
            Event::Current { same_thread, same_directory } => EventModel::Current {
                same_thread,
                same_directory,
            },
            Event::Agents(agents) => EventModel::Agents(agents@),
            Event::Replacement(there) => EventModel::Replacement(there),
        }
    }
}

/// A directory change on its way: the step being taken, and what it will be answered when it
/// failed.
#[derive(Debug, PartialEq, Eq)]
pub struct DirectoryChange {
    pub doing: Work,
    pub failure: Option<Failure>,
}

/// A directory change on its way, with its texts as sequences of characters.
#[verifier::ext_equal]
pub struct ChangeModel {
    pub doing: Work,
    pub failure: Option<FailureModel>,
}

impl View for DirectoryChange {
    type V = ChangeModel;

    open spec fn view(&self) -> ChangeModel {
        ChangeModel { doing: self.doing, failure: failed(self.failure) }
    }
}

/// A change that goes on with a step.
pub open spec fn going(doing: Work) -> ChangeModel {
    ChangeModel { doing, failure: None }
}

/// A change that is answered with a failure.
pub open spec fn refused(kind: FailureKind, message: Seq<char>) -> ChangeModel {
    ChangeModel { doing: Work::Reply, failure: Some(FailureModel { kind, message }) }
}

/// A change that is answered with the failure of a step.
pub open spec fn passed_on(failure: FailureModel) -> ChangeModel {
    ChangeModel { doing: Work::Reply, failure: Some(failure) }
}

/// The thread is a persistent root thread that works in the local environment.
pub open spec fn eligible(facts: ThreadFacts) -> bool {
    !facts.ephemeral && !facts.has_parent && facts.local && facts.from_thread
}

/// The agent keeps a directory change waiting.
pub open spec fn busy(agent: AgentActivity) -> bool {
    agent.loaded && (agent.running || agent.terminals > 0)
}

/// Some agent keeps a directory change waiting.
pub open spec fn any_busy(agents: Seq<AgentActivity>) -> bool {
    exists|i: int| 0 <= i < agents.len() && busy(#[trigger] agents[i])
}

/// What a directory change does next. An event that does not answer the step being taken changes
/// nothing.
pub open spec fn stepped(change: ChangeModel, event: EventModel) -> ChangeModel {
    match (change.doing, event) {
        (Work::ParsePath, EventModel::Done) => going(Work::TestDirectory),
        (Work::ParsePath, EventModel::Failed(failure)) => refused(
            FailureKind::InvalidParams,
            "invalid working directory: "@ + failure.message,
        ),
        (Work::TestDirectory, EventModel::Directory { exists, shown }) => if exists {
            going(Work::LoadThread)
        } else {
            refused(FailureKind::InvalidParams, "not a directory: "@ + shown)
        },
        (Work::LoadThread, EventModel::Done) => going(Work::CheckInput),
        (Work::LoadThread, EventModel::Failed(failure)) => passed_on(failure),
        (Work::CheckInput, EventModel::Done) => going(Work::ReadThread),
        (Work::CheckInput, EventModel::Failed(failure)) => passed_on(failure),
        (Work::ReadThread, EventModel::Thread(facts)) => if facts.environments != 1 {
            refused(
                FailureKind::InvalidRequest,
                "directory changes require one local environment"@,
            )
        } else if !eligible(facts) {
            refused(
                FailureKind::InvalidRequest,
                "directory changes require a persistent local root thread"@,
            )
        } else {
            going(Work::ParsePrevious)
        },
        (Work::ParsePrevious, EventModel::Done) => going(Work::LoadConfig),
        (Work::ParsePrevious, EventModel::Failed(failure)) => refused(
            FailureKind::InvalidRequest,
            failure.message,
        ),
        (Work::LoadConfig, EventModel::Config { trusted }) => if trusted {
            going(Work::AcquirePermit)
        } else {
            refused(
                FailureKind::InvalidRequest,
                "directory is not trusted; start Codex there first"@,
            )
        },
        (Work::LoadConfig, EventModel::Failed(failure)) => passed_on(failure),
        (Work::AcquirePermit, EventModel::Done) => going(Work::LoadCurrent),
        (Work::AcquirePermit, EventModel::Failed(failure)) => passed_on(failure),
        (Work::LoadCurrent, EventModel::Current { same_thread, same_directory }) => if same_thread
            && same_directory {
            going(Work::ListAgents)
        } else {
            refused(
                FailureKind::InvalidRequest,
                "thread changed while loading the working directory; retry"@,
            )
        },
        (Work::LoadCurrent, EventModel::Failed(failure)) => passed_on(failure),
        (Work::ListAgents, EventModel::Agents(agents)) => if any_busy(agents) {
            refused(
                FailureKind::InvalidRequest,
                "wait for the thread, its agents, and background terminals to finish before changing directories"@,
            )
        } else {
            going(Work::Preview)
        },
        (Work::ListAgents, EventModel::Failed(failure)) => refused(
            FailureKind::Internal,
            failure.message,
        ),
        (Work::Preview, EventModel::Done) => going(Work::ApplySettings),
        (Work::Preview, EventModel::Failed(failure)) => refused(
            FailureKind::InvalidRequest,
            failure.message,
        ),
        (Work::ApplySettings, EventModel::Done) => going(Work::Checkpoint),
        (Work::ApplySettings, EventModel::Failed(failure)) => refused(
            FailureKind::InvalidRequest,
            failure.message,
        ),
        (Work::Checkpoint, EventModel::Done) => going(Work::Persist),
        (Work::Checkpoint, EventModel::Failed(failure)) => refused(
            FailureKind::Internal,
            "failed to save thread before directory change: "@ + failure.message,
        ),
        (Work::Persist, EventModel::Done) => going(Work::Stop),
        (Work::Persist, EventModel::Failed(failure)) => passed_on(failure),
        (Work::Stop, EventModel::Done) => going(Work::Reload),
        (Work::Stop, EventModel::Failed(failure)) => passed_on(failure),
        (Work::Reload, EventModel::Done) => going(Work::Reconcile),
        (Work::Reload, EventModel::Failed(failure)) => ChangeModel {
            doing: Work::FindReplacement,
            failure: Some(failure),
        },
        (Work::Reconcile, EventModel::Done) => going(Work::Notify),
        (Work::Reconcile, EventModel::Failed(failure)) => ChangeModel {
            doing: Work::FindReplacement,
            failure: Some(
                FailureModel { kind: FailureKind::Internal, message: failure.message },
            ),
        },
        (Work::Notify, EventModel::Done) => going(Work::Reply),
        (Work::FindReplacement, EventModel::Replacement(there)) => ChangeModel {
            doing: if there {
                Work::StopReplacement
            } else {
                Work::Restore
            },
            failure: change.failure,
        },
        (Work::StopReplacement, EventModel::Done) => ChangeModel {
            doing: Work::Restore,
            failure: change.failure,
        },
        (Work::StopReplacement, EventModel::Failed(failure)) => passed_on(failure),
        (Work::Restore, EventModel::Done) => ChangeModel {
            doing: Work::Reply,
            failure: change.failure,
        },
        (Work::Restore, EventModel::Failed(failure)) => refused(
            FailureKind::Internal,
            "directory change failed: "@ + said(change.failure)
                + "; restoring the original runtime failed: "@ + failure.message,
        ),
        _ => change,
    }
}

/// What an optional failure says; nothing where there is none.
pub open spec fn said(failure: Option<FailureModel>) -> Seq<char> {
    match failure {
        Some(failure) => failure.message,
        None => Seq::empty(),
    }
}

/// A text behind a prefix.
fn prefixed(prefix: &str, text: &str) -> (r: String)
    ensures
        r@ == prefix@ + text@,
{
    let mut out = prefix.to_string();
    out.append(text);
    out
}

/// A change that goes on with a step.
fn go_on(doing: Work) -> (change: DirectoryChange)
    ensures
        change@ == going(doing),
{
    DirectoryChange { doing, failure: None }
}

/// A change that is answered with a failure.
fn refuse(kind: FailureKind, message: String) -> (change: DirectoryChange)
    ensures
        change@ == refused(kind, message@),
{
    DirectoryChange { doing: Work::Reply, failure: Some(Failure { kind, message }) }
}

/// A change that is answered with the failure of a step.
fn pass_on(failure: Failure) -> (change: DirectoryChange)
    ensures
        change@ == passed_on(failure@),
{
    DirectoryChange { doing: Work::Reply, failure: Some(failure) }
}

/// Whether some agent keeps a directory change waiting.
pub fn is_any_busy(agents: &Vec<AgentActivity>) -> (r: bool)
    ensures
        r == any_busy(agents@),
{
    let mut i: usize = 0;
    while i < agents.len()
        invariant
            i <= agents@.len(),
            forall|j: int| 0 <= j < i ==> !busy(#[trigger] agents@[j]),
        decreases agents@.len() - i,
    {
        let agent = agents[i];
        if agent.loaded && (agent.running || agent.terminals > 0) {
            assert(busy(agents@[i as int]));
            return true;
        }
        i += 1;
    }
    false
}

impl DirectoryChange {
    /// A change that starts with its first step.
    pub fn start() -> (change: Self)
        ensures
            change@ == going(Work::ParsePath),
    {
        go_on(Work::ParsePath)
    }

    /// What the change does next, now that its step ended. An event that does not answer the step
    /// being taken changes nothing.
    pub fn next(self, event: Event) -> (change: Self)
        ensures
            change@ == stepped(self@, event@),
    {
        match (self.doing, event) {
            (Work::ParsePath, Event::Done) => go_on(Work::TestDirectory),
            (Work::ParsePath, Event::Failed(failure)) => refuse(
                FailureKind::InvalidParams,
                prefixed("invalid working directory: ", failure.message.as_str()),
            ),
            (Work::TestDirectory, Event::Directory { exists, shown }) => {
                if exists {
                    go_on(Work::LoadThread)
                } else {
                    refuse(
                        FailureKind::InvalidParams,
                        prefixed("not a directory: ", shown.as_str()),
                    )
                }
            },
            (Work::LoadThread, Event::Done) => go_on(Work::CheckInput),
            (Work::LoadThread, Event::Failed(failure)) => pass_on(failure),
            (Work::CheckInput, Event::Done) => go_on(Work::ReadThread),
            (Work::CheckInput, Event::Failed(failure)) => pass_on(failure),
            (Work::ReadThread, Event::Thread(facts)) => {
                if facts.environments != 1 {
                    refuse(
                        FailureKind::InvalidRequest,
                        "directory changes require one local environment".to_string(),
                    )
                } else if facts.ephemeral || facts.has_parent || !facts.local
                    || !facts.from_thread {
                    refuse(
                        FailureKind::InvalidRequest,
                        "directory changes require a persistent local root thread".to_string(),
                    )
                } else {
                    go_on(Work::ParsePrevious)
                }
            },
            (Work::ParsePrevious, Event::Done) => go_on(Work::LoadConfig),
            (Work::ParsePrevious, Event::Failed(failure)) => refuse(
                FailureKind::InvalidRequest,
                failure.message,
            ),
            (Work::LoadConfig, Event::Config { trusted }) => {
                if trusted {
                    go_on(Work::AcquirePermit)
                } else {
                    refuse(
                        FailureKind::InvalidRequest,
                        "directory is not trusted; start Codex there first".to_string(),
                    )
                }
            },
            (Work::LoadConfig, Event::Failed(failure)) => pass_on(failure),
            (Work::AcquirePermit, Event::Done) => go_on(Work::LoadCurrent),
            (Work::AcquirePermit, Event::Failed(failure)) => pass_on(failure),
            (Work::LoadCurrent, Event::Current { same_thread, same_directory }) => {
                if same_thread && same_directory {
                    go_on(Work::ListAgents)
                } else {
                    refuse(
                        FailureKind::InvalidRequest,
                        "thread changed while loading the working directory; retry".to_string(),
                    )
                }
            },
            (Work::LoadCurrent, Event::Failed(failure)) => pass_on(failure),
            (Work::ListAgents, Event::Agents(agents)) => {
                if is_any_busy(&agents) {
                    refuse(
                        FailureKind::InvalidRequest,
                        "wait for the thread, its agents, and background terminals to finish before changing directories".to_string(),
                    )
                } else {
                    go_on(Work::Preview)
                }
            },
            (Work::ListAgents, Event::Failed(failure)) => refuse(
                FailureKind::Internal,
                failure.message,
            ),
            (Work::Preview, Event::Done) => go_on(Work::ApplySettings),
            (Work::Preview, Event::Failed(failure)) => refuse(
                FailureKind::InvalidRequest,
                failure.message,
            ),
            (Work::ApplySettings, Event::Done) => go_on(Work::Checkpoint),
            (Work::ApplySettings, Event::Failed(failure)) => refuse(
                FailureKind::InvalidRequest,
                failure.message,
            ),
            (Work::Checkpoint, Event::Done) => go_on(Work::Persist),
            (Work::Checkpoint, Event::Failed(failure)) => refuse(
                FailureKind::Internal,
                prefixed(
                    "failed to save thread before directory change: ",
                    failure.message.as_str(),
                ),
            ),
            (Work::Persist, Event::Done) => go_on(Work::Stop),
            (Work::Persist, Event::Failed(failure)) => pass_on(failure),
            (Work::Stop, Event::Done) => go_on(Work::Reload),
            (Work::Stop, Event::Failed(failure)) => pass_on(failure),
            (Work::Reload, Event::Done) => go_on(Work::Reconcile),
            (Work::Reload, Event::Failed(failure)) => DirectoryChange {
                doing: Work::FindReplacement,
                failure: Some(failure),
            },
            (Work::Reconcile, Event::Done) => go_on(Work::Notify),
            (Work::Reconcile, Event::Failed(failure)) => DirectoryChange {
                doing: Work::FindReplacement,
                failure: Some(Failure { kind: FailureKind::Internal, message: failure.message }),
            },
            (Work::Notify, Event::Done) => go_on(Work::Reply),
            (Work::FindReplacement, Event::Replacement(there)) => DirectoryChange {
                doing: if there {
                    Work::StopReplacement
                } else {
                    Work::Restore
                },
                failure: self.failure,
            },
            (Work::StopReplacement, Event::Done) => DirectoryChange {
                doing: Work::Restore,
                failure: self.failure,
            },
            (Work::StopReplacement, Event::Failed(failure)) => pass_on(failure),
            (Work::Restore, Event::Done) => DirectoryChange {
                doing: Work::Reply,
                failure: self.failure,
            },
            (Work::Restore, Event::Failed(restore)) => {
                let mut message = "directory change failed: ".to_string();
                if let Some(failure) = &self.failure {
                    message.append(failure.message.as_str());
                } else {
                    assert(message@ + Seq::<char>::empty() == message@);
                }
                message.append("; restoring the original runtime failed: ");
                message.append(restore.message.as_str());
                refuse(FailureKind::Internal, message)
            },
            (_, _) => self,
        }
    }
}

/// Where a change stands after a run of events.
pub open spec fn after(events: Seq<EventModel>) -> ChangeModel
    decreases events.len(),
{
    if events.len() == 0 {
        going(Work::ParsePath)
    } else {
        stepped(after(events.drop_last()), events.last())
    }
}

/// The place of a step in a change that goes through; none for those that undo a failed one.
pub open spec fn place(work: Work) -> int {
    match work {
        Work::ParsePath => 0,
        Work::TestDirectory => 1,
        Work::LoadThread => 2,
        Work::CheckInput => 3,
        Work::ReadThread => 4,
        Work::ParsePrevious => 5,
        Work::LoadConfig => 6,
        Work::AcquirePermit => 7,
        Work::LoadCurrent => 8,
        Work::ListAgents => 9,
        Work::Preview => 10,
        Work::ApplySettings => 11,
        Work::Checkpoint => 12,
        Work::Persist => 13,
        Work::Stop => 14,
        Work::Reload => 15,
        Work::Reconcile => 16,
        Work::Notify => 17,
        _ => 18,
    }
}

/// How many steps a change has behind it that went well: those before the step being taken; those
/// up to the stop of the old runtime once it is being undone; all of them when it succeeded.
pub open spec fn behind(change: ChangeModel) -> int {
    match change.doing {
        Work::FindReplacement | Work::StopReplacement | Work::Restore => 15,
        Work::Reply => if change.failure is None {
            18
        } else {
            0
        },
        doing => place(doing),
    }
}

/// The event says that a step went well.
pub open spec fn went_well(work: Work, event: EventModel) -> bool {
    match work {
        Work::TestDirectory => event matches EventModel::Directory { exists, .. } && exists,
        Work::ReadThread => event matches EventModel::Thread(facts) && facts.environments == 1
            && eligible(facts),
        Work::LoadConfig => event matches EventModel::Config { trusted } && trusted,
        Work::LoadCurrent => event matches EventModel::Current { same_thread, same_directory }
            && same_thread && same_directory,
        Work::ListAgents => event matches EventModel::Agents(agents) && !any_busy(agents),
        _ => event is Done,
    }
}

/// A change that is being undone has a failure to report, and one that goes on has none.
proof fn failure_kept(events: Seq<EventModel>)
    ensures
        ({
            let change = after(events);
            match change.doing {
                Work::FindReplacement | Work::StopReplacement | Work::Restore =>
                    change.failure is Some,
                Work::Reply => true,
                _ => change.failure is None,
            }
        }),
    decreases events.len(),
{
    if events.len() > 0 {
        failure_kept(events.drop_last());
    }
}

/// No step is taken before every step in front of it went well. So the old runtime is stopped only
/// when the path is a directory, the thread is a persistent local root in one environment, the
/// directory is trusted, the thread did not change meanwhile and nothing under it is busy.
pub proof fn steps_in_front_went_well(events: Seq<EventModel>, work: Work)
    requires
        place(work) < behind(after(events)),
    ensures
        exists|i: int| 0 <= i < events.len() && went_well(work, #[trigger] events[i]),
    decreases events.len(),
{
    if events.len() > 0 {
        let before = events.drop_last();
        failure_kept(before);
        if place(work) < behind(after(before)) {
            steps_in_front_went_well(before, work);
            let i = choose|i: int|
                0 <= i < before.len() && went_well(work, #[trigger] before[i]);
            assert(went_well(work, events[i]));
        } else {
            assert(after(before).doing == work);
            assert(went_well(work, events[events.len() - 1]));
        }
    }
}

/// Once the old runtime is stopped, a failed change is answered only after the original runtime
/// was asked for again, unless what stood in its place could not be stopped. It is answered with
/// success only when the new runtime came up, took over its instructions and was announced.
pub proof fn failed_change_restores(events: Seq<EventModel>)
    requires
        events.len() > 0,
        after(events.drop_last()).doing != Work::Reply,
        behind(after(events.drop_last())) > place(Work::Stop),
        after(events).doing == Work::Reply,
    ensures
        ({
            let last = after(events.drop_last()).doing;
            if after(events).failure is Some {
                last == Work::Restore || last == Work::StopReplacement && events.last() is Failed
            } else {
                last == Work::Notify
            }
        }),
{
    failure_kept(events.drop_last());
}

/// What the destination decides for the runtime of a thread.
#[derive(Debug, PartialEq, Eq)]
pub struct Destination {
    pub approval_policy: String,
    pub active_permission_profile: Option<String>,
    pub permission_profile: String,
    pub profile_workspace_roots: Vec<String>,
    pub approvals_reviewer: String,
    pub model: String,
    pub reasoning_effort: Option<String>,
    pub reasoning_summary: Option<String>,
    pub service_tier: Option<String>,
    pub personality: Option<String>,
}

/// Where a runtime takes its permissions from.
#[derive(Debug, PartialEq, Eq)]
pub enum Permission {
    /// An active profile, with the workspace roots that belong to it.
    Active { profile: String, active: String, workspace_roots: Vec<String> },
    /// A profile alone.
    Legacy { profile: String },
}

/// What a directory change touches in the config of a runtime.
#[derive(Debug, PartialEq, Eq)]
pub struct RuntimeConfig {
    pub developer_instructions: Option<String>,
    pub bypass_hook_trust: bool,
    pub approval_policy: String,
    pub permission: Permission,
    pub approvals_reviewer: String,
    pub workspace_roots: Vec<String>,
    pub model: Option<String>,
    pub reasoning_effort: Option<String>,
    pub reasoning_summary: Option<String>,
    pub service_tier: Option<String>,
    pub personality: Option<String>,
}

/// The permissions that a destination asks for.
pub open spec fn permitted(permission: Permission, destination: Destination) -> bool {
    match (destination.active_permission_profile, permission) {
        (Some(wanted), Permission::Active { profile, active, workspace_roots }) => profile@
            == destination.permission_profile@ && active@ == wanted@ && texts(workspace_roots@)
            == texts(destination.profile_workspace_roots@),
        (None, Permission::Legacy { profile }) => profile@ == destination.permission_profile@,
        _ => false,
    }
}

/// The permissions that a destination asks for: its active profile with the roots of that profile,
/// or its profile alone where none is active.
pub fn permission(destination: &Destination) -> (r: Permission)
    ensures
        permitted(r, *destination),
{
    match &destination.active_permission_profile {
        Some(active) => Permission::Active {
            profile: destination.permission_profile.clone(),
            active: active.clone(),
            workspace_roots: copy_texts(&destination.profile_workspace_roots),
        },
        None => Permission::Legacy { profile: destination.permission_profile.clone() },
    }
}

/// Points a freshly loaded config at the destination. Instructions that the client gave go before
/// those of the config; whether hooks are trusted unseen stays as the original runtime had it.
pub fn retarget(
    config: &mut RuntimeConfig,
    instructions: &Option<String>,
    bypass_hook_trust: bool,
    destination: &Destination,
    roots: &Vec<String>,
)
    ensures
        maybe(final(config).developer_instructions) == (if instructions is Some {
            maybe(*instructions)
        } else {
            maybe(old(config).developer_instructions)
        }),
        final(config).bypass_hook_trust == bypass_hook_trust,
        final(config).approval_policy@ == destination.approval_policy@,
        permitted(final(config).permission, *destination),
        final(config).approvals_reviewer@ == destination.approvals_reviewer@,
        texts(final(config).workspace_roots@) == texts(roots@),
        maybe(final(config).model) == Some(destination.model@),
        maybe(final(config).reasoning_effort) == maybe(destination.reasoning_effort),
        maybe(final(config).reasoning_summary) == maybe(destination.reasoning_summary),
        maybe(final(config).service_tier) == maybe(destination.service_tier),
        maybe(final(config).personality) == maybe(destination.personality),
{
    if let Some(text) = instructions {
        config.developer_instructions = Some(text.clone());
    }
    config.bypass_hook_trust = bypass_hook_trust;
    config.approval_policy = destination.approval_policy.clone();
    config.permission = permission(destination);
    config.approvals_reviewer = destination.approvals_reviewer.clone();
    config.workspace_roots = copy_texts(roots);
    config.model = Some(destination.model.clone());
    config.reasoning_effort = copy_maybe(&destination.reasoning_effort);
    config.reasoning_summary = copy_maybe(&destination.reasoning_summary);
    config.service_tier = copy_maybe(&destination.service_tier);
    config.personality = copy_maybe(&destination.personality);
}

/// The outside steps of stopping a thread so that another runtime can take its place.
#[derive(Clone, Copy, Debug, PartialEq, Eq, Structural)]
pub enum StopWork {
    /// Listen to the thread, which keeps it from being unloaded while idle.
    Listen,
    /// Register for the end of its events, and shut it down.
    ShutDown,
    /// Wait for the end of its events.
    Drain,
    /// Give the registration back.
    Withdraw,
    Remove,
    CancelRequests,
    /// The stop is answered.
    Reply,
}

/// How an outside step of a stop ended.
#[derive(Debug, PartialEq, Eq)]
pub enum StopEvent {
    Done,
    Failed(Failure),
    ConnectionClosed,
    /// The shutdown could not be asked for, or took too long.
    NotShutDown,
    DrainTimedOut,
    ListenerStopped,
    /// Whether the thread was still the one to remove.
    Removed(bool),
}

/// A stop on its way: the step being taken, and what it will be answered when it failed.
#[derive(Debug, PartialEq, Eq)]
pub struct ThreadStop {
    pub doing: StopWork,
    pub failure: Option<Failure>,
}

/// A stop on its way, with its texts as sequences of characters.
#[verifier::ext_equal]
pub struct StopModel {
    pub doing: StopWork,
    pub failure: Option<FailureModel>,
}

impl View for ThreadStop {
    type V = StopModel;

    open spec fn view(&self) -> StopModel {
        StopModel { doing: self.doing, failure: failed(self.failure) }
    }
}

/// A stop that goes on with a step to answer an internal failure.
pub open spec fn halted(doing: StopWork, message: Seq<char>) -> StopModel {
    StopModel {
        doing,
        failure: Some(FailureModel { kind: FailureKind::Internal, message }),
    }
}

/// What a stop does next. An event that does not answer the step being taken changes nothing.
pub open spec fn stop_stepped(stop: StopModel, event: StopEvent, thread_id: Seq<char>) -> StopModel {
    match (stop.doing, event) {
        (StopWork::Listen, StopEvent::Done) => StopModel {
            doing: StopWork::ShutDown,
            failure: None,
        },
        (StopWork::Listen, StopEvent::Failed(failure)) => StopModel {
            doing: StopWork::Reply,
            failure: Some(failure@),
        },
        (StopWork::Listen, StopEvent::ConnectionClosed) => halted(
            StopWork::Reply,
            "connection closed before reloading thread "@ + thread_id,
        ),
        (StopWork::ShutDown, StopEvent::Done) => StopModel {
            doing: StopWork::Drain,
            failure: None,
        },
        (StopWork::ShutDown, StopEvent::NotShutDown) => halted(
            StopWork::Withdraw,
            "failed to shut down thread "@ + thread_id + " before reload"@,
        ),
        (StopWork::Drain, StopEvent::Done) => StopModel {
            doing: StopWork::Remove,
            failure: None,
        },
        (StopWork::Drain, StopEvent::DrainTimedOut) => halted(
            StopWork::Withdraw,
            "timed out draining thread "@ + thread_id + " before reload"@,
        ),
        (StopWork::Drain, StopEvent::ListenerStopped) => halted(
            StopWork::Withdraw,
            "listener stopped before draining thread "@ + thread_id,
        ),
        (StopWork::Withdraw, StopEvent::Done) => StopModel {
            doing: StopWork::Reply,
            failure: stop.failure,
        },
        (StopWork::Remove, StopEvent::Removed(removed)) => if removed {
            StopModel { doing: StopWork::CancelRequests, failure: None }
        } else {
            halted(StopWork::Reply, "thread "@ + thread_id + " changed before reload"@)
        },
        (StopWork::CancelRequests, StopEvent::Done) => StopModel {
            doing: StopWork::Reply,
            failure: None,
        },
        _ => stop,
    }
}

/// A stop that goes on with a step to answer an internal failure.
fn halt(doing: StopWork, message: String) -> (stop: ThreadStop)
    ensures
        stop@ == halted(doing, message@),
{
    ThreadStop { doing, failure: Some(Failure { kind: FailureKind::Internal, message }) }
}

/// The thread between a text and another.
fn around(lead: &str, thread_id: &str, tail: &str) -> (r: String)
    ensures
        r@ == lead@ + thread_id@ + tail@,
{
    let mut out = lead.to_string();
    out.append(thread_id);
    out.append(tail);
    out
}

impl ThreadStop {
    /// A stop that starts with its first step.
    pub fn start() -> (stop: Self)
        ensures
            stop@ == (StopModel { doing: StopWork::Listen, failure: None }),
    {
        ThreadStop { doing: StopWork::Listen, failure: None }
    }

    /// What the stop does next, now that its step ended. An event that does not answer the step
    /// being taken changes nothing.
    pub fn next(self, event: StopEvent, thread_id: &str) -> (stop: Self)
        ensures
            stop@ == stop_stepped(self@, event, thread_id@),
    {
        match (self.doing, event) {
            (StopWork::Listen, StopEvent::Done) => ThreadStop {
                doing: StopWork::ShutDown,
                failure: None,
            },
            (StopWork::Listen, StopEvent::Failed(failure)) => ThreadStop {
                doing: StopWork::Reply,
                failure: Some(failure),
            },
            (StopWork::Listen, StopEvent::ConnectionClosed) => halt(
                StopWork::Reply,
                prefixed("connection closed before reloading thread ", thread_id),
            ),
            (StopWork::ShutDown, StopEvent::Done) => ThreadStop {
                doing: StopWork::Drain,
                failure: None,
            },
            (StopWork::ShutDown, StopEvent::NotShutDown) => halt(
                StopWork::Withdraw,
                around("failed to shut down thread ", thread_id, " before reload"),
            ),
            (StopWork::Drain, StopEvent::Done) => ThreadStop {
                doing: StopWork::Remove,
                failure: None,
            },
            (StopWork::Drain, StopEvent::DrainTimedOut) => halt(
                StopWork::Withdraw,
                around("timed out draining thread ", thread_id, " before reload"),
            ),
            (StopWork::Drain, StopEvent::ListenerStopped) => halt(
                StopWork::Withdraw,
                prefixed("listener stopped before draining thread ", thread_id),
            ),
            (StopWork::Withdraw, StopEvent::Done) => ThreadStop {
                doing: StopWork::Reply,
                failure: self.failure,
            },
            (StopWork::Remove, StopEvent::Removed(removed)) => {
                if removed {
                    ThreadStop { doing: StopWork::CancelRequests, failure: None }
                } else {
                    halt(StopWork::Reply, around("thread ", thread_id, " changed before reload"))
                }
            },
            (StopWork::CancelRequests, StopEvent::Done) => ThreadStop {
                doing: StopWork::Reply,
                failure: None,
            },
            (_, _) => self,
        }
    }
}

/// Where a stop stands after a run of events.
pub open spec fn stop_after(events: Seq<StopEvent>, thread_id: Seq<char>) -> StopModel
    decreases events.len(),
{
    if events.len() == 0 {
        StopModel { doing: StopWork::Listen, failure: None }
    } else {
        stop_stepped(stop_after(events.drop_last(), thread_id), events.last(), thread_id)
    }
}

/// A stop that succeeds has removed the thread. One that registered for the end of the events does
/// not fail before it gave that registration back, unless the events had been drained.
pub proof fn stop_removes(events: Seq<StopEvent>, thread_id: Seq<char>)
    ensures
        ({
            let stop = stop_after(events, thread_id);
            &&& stop.doing == StopWork::Reply && stop.failure is None ==> events.contains(
                StopEvent::Removed(true),
            )
            &&& events.len() > 0 && stop.doing == StopWork::Reply && stop.failure is Some ==> {
                let before = stop_after(events.drop_last(), thread_id).doing;
                before != StopWork::ShutDown && before != StopWork::Drain
            }
        }),
{
    removed_before(events, thread_id);
}

/// Requests are cancelled, and success is answered, only once the thread is removed.
proof fn removed_before(events: Seq<StopEvent>, thread_id: Seq<char>)
    ensures
        ({
            let stop = stop_after(events, thread_id);
            &&& stop.doing == StopWork::Withdraw ==> stop.failure is Some
            &&& stop.doing == StopWork::CancelRequests || stop.doing == StopWork::Reply
                && stop.failure is None ==> events.contains(StopEvent::Removed(true))
        }),
    decreases events.len(),
{
    if events.len() > 0 {
        let before = events.drop_last();
        removed_before(before, thread_id);
        if before.contains(StopEvent::Removed(true)) {
            let i = before.index_of(StopEvent::Removed(true));
            assert(events[i] == StopEvent::Removed(true));
        }
        if stop_after(before, thread_id).doing == StopWork::Remove && events.last()
            == StopEvent::Removed(true) {
            assert(events[events.len() - 1] == StopEvent::Removed(true));
        }
    }
}

/// A change that is idle, trusted and unobstructed goes through its steps in this order, and is answered
/// without a failure.
pub proof fn changes_go_through(shown: Seq<char>, facts: ThreadFacts, agents: Seq<AgentActivity>)
    requires
        facts.environments == 1,
        !facts.ephemeral,
        !facts.has_parent,
        facts.local,
        facts.from_thread,
        forall|i: int|
            0 <= i < agents.len() ==> !(#[trigger] agents[i]).loaded || !agents[i].running
                && agents[i].terminals == 0,
    ensures
        ({
            let done = EventModel::Done;
            let a = stepped(ChangeModel { doing: Work::ParsePath, failure: None }, done);
            let b = stepped(a, EventModel::Directory { exists: true, shown });
            let c = stepped(b, done);
            let d = stepped(c, done);
            let e = stepped(d, EventModel::Thread(facts));
            let f = stepped(e, done);
            let g = stepped(f, EventModel::Config { trusted: true });
            let h = stepped(g, done);
            let i = stepped(h, EventModel::Current { same_thread: true, same_directory: true });
            let j = stepped(i, EventModel::Agents(agents));
            let k = stepped(j, done);
            let l = stepped(k, done);
            let m = stepped(l, done);
            let n = stepped(m, done);
            let o = stepped(n, done);
            let p = stepped(o, done);
            let q = stepped(p, done);
            let r = stepped(q, done);
            &&& a.doing == Work::TestDirectory
            &&& b.doing == Work::LoadThread
            &&& c.doing == Work::CheckInput
            &&& d.doing == Work::ReadThread
            &&& e.doing == Work::ParsePrevious
            &&& f.doing == Work::LoadConfig
            &&& g.doing == Work::AcquirePermit
            &&& h.doing == Work::LoadCurrent
            &&& i.doing == Work::ListAgents
            &&& j.doing == Work::Preview
            &&& k.doing == Work::ApplySettings
            &&& l.doing == Work::Checkpoint
            &&& m.doing == Work::Persist
            &&& n.doing == Work::Stop
            &&& o.doing == Work::Reload
            &&& p.doing == Work::Reconcile
            &&& q.doing == Work::Notify
            &&& r.doing == Work::Reply
            &&& r.failure is None
        }),
{
    assert(!any_busy(agents)) by {
        if any_busy(agents) {
            let i = choose|i: int| 0 <= i < agents.len() && busy(#[trigger] agents[i]);
            assert(!agents[i].loaded || !agents[i].running && agents[i].terminals == 0);
        }
    }
}

/// A change is refused, before anything is touched, where the path is no directory; where the thread
/// does not work in exactly one environment, is ephemeral, has a parent, or does not take its config
/// from itself in the local environment; where the directory is not trusted; where the thread or its
/// directory changed meanwhile; and where some agent at hand is running or keeps a terminal.
pub proof fn changes_are_refused(
    change: ChangeModel,
    exists_there: bool,
    shown: Seq<char>,
    facts: ThreadFacts,
    trusted: bool,
    same_thread: bool,
    same_directory: bool,
    agents: Seq<AgentActivity>,
)
    ensures
        change.doing == Work::TestDirectory && !exists_there ==> stepped(
            change,
            EventModel::Directory { exists: exists_there, shown },
        ) == (ChangeModel {
            doing: Work::Reply,
            failure: Some(
                FailureModel {
                    kind: FailureKind::InvalidParams,
                    message: "not a directory: "@ + shown,
                },
            ),
        }),
        change.doing == Work::ReadThread && facts.environments != 1 ==> stepped(
            change,
            EventModel::Thread(facts),
        ) == (ChangeModel {
            doing: Work::Reply,
            failure: Some(
                FailureModel {
                    kind: FailureKind::InvalidRequest,
                    message: "directory changes require one local environment"@,
                },
            ),
        }),
        change.doing == Work::ReadThread && facts.environments == 1 && (facts.ephemeral
            || facts.has_parent || !facts.local || !facts.from_thread) ==> stepped(
            change,
            EventModel::Thread(facts),
        ) == (ChangeModel {
            doing: Work::Reply,
            failure: Some(
                FailureModel {
                    kind: FailureKind::InvalidRequest,
                    message: "directory changes require a persistent local root thread"@,
                },
            ),
        }),
        change.doing == Work::LoadConfig && !trusted ==> stepped(
            change,
            EventModel::Config { trusted },
        ) == (ChangeModel {
            doing: Work::Reply,
            failure: Some(
                FailureModel {
                    kind: FailureKind::InvalidRequest,
                    message: "directory is not trusted; start Codex there first"@,
                },
            ),
        }),
        change.doing == Work::LoadCurrent && !(same_thread && same_directory) ==> stepped(
            change,
            EventModel::Current { same_thread, same_directory },
        ) == (ChangeModel {
            doing: Work::Reply,
            failure: Some(
                FailureModel {
                    kind: FailureKind::InvalidRequest,
                    message: "thread changed while loading the working directory; retry"@,
                },
            ),
        }),
        change.doing == Work::ListAgents && (exists|i: int|
            0 <= i < agents.len() && (#[trigger] agents[i]).loaded && (agents[i].running
                || agents[i].terminals > 0)) ==> stepped(change, EventModel::Agents(agents)) == (
        ChangeModel {
            doing: Work::Reply,
            failure: Some(
                FailureModel {
                    kind: FailureKind::InvalidRequest,
                    message:
                        "wait for the thread, its agents, and background terminals to finish before changing directories"@,
                },
            ),
        }),
{
    if exists|i: int|
        0 <= i < agents.len() && (#[trigger] agents[i]).loaded && (agents[i].running
            || agents[i].terminals > 0) {
        let i = choose|i: int|
            0 <= i < agents.len() && (#[trigger] agents[i]).loaded && (agents[i].running
                || agents[i].terminals > 0);
        assert(busy(agents[i]));
    }
}

/// A step that fails before the old runtime is stopped ends the change with that failure: as it is, or
/// under the kind and the words of its step.
pub proof fn failed_steps_end_the_change(change: ChangeModel, failure: FailureModel)
    ensures
        ({
            let next = stepped(change, EventModel::Failed(failure));
            let as_it_is = ChangeModel { doing: Work::Reply, failure: Some(failure) };
            let said = |kind: FailureKind, message: Seq<char>|
                ChangeModel { doing: Work::Reply, failure: Some(FailureModel { kind, message }) };
            &&& change.doing == Work::ParsePath ==> next == said(
                FailureKind::InvalidParams,
                "invalid working directory: "@ + failure.message,
            )
            &&& change.doing == Work::LoadThread || change.doing == Work::CheckInput || change.doing
                == Work::LoadConfig || change.doing == Work::AcquirePermit || change.doing
                == Work::LoadCurrent || change.doing == Work::Persist || change.doing == Work::Stop
                || change.doing == Work::StopReplacement ==> next == as_it_is
            &&& change.doing == Work::ParsePrevious || change.doing == Work::Preview || change.doing
                == Work::ApplySettings ==> next == said(
                FailureKind::InvalidRequest,
                failure.message,
            )
            &&& change.doing == Work::ListAgents ==> next == said(
                FailureKind::Internal,
                failure.message,
            )
            &&& change.doing == Work::Checkpoint ==> next == said(
                FailureKind::Internal,
                "failed to save thread before directory change: "@ + failure.message,
            )
        }),
{
}

/// Where the new runtime fails, one that stands under the thread's identity is stopped, the original is
/// restored, and the change is answered with what failed; that restoring fails is answered too.
pub proof fn failed_runtimes_are_undone(failure: FailureModel, there: bool, later: FailureModel)
    ensures
        ({
            let reload = ChangeModel { doing: Work::Reload, failure: None };
            let reconcile = ChangeModel { doing: Work::Reconcile, failure: None };
            let a = stepped(reload, EventModel::Failed(failure));
            let b = stepped(reconcile, EventModel::Failed(failure));
            let c = stepped(a, EventModel::Replacement(there));
            let d = if there {
                stepped(c, EventModel::Done)
            } else {
                c
            };
            &&& a.doing == Work::FindReplacement && a.failure == Some(failure)
            &&& b.doing == Work::FindReplacement && b.failure == Some(
                FailureModel { kind: FailureKind::Internal, message: failure.message },
            )
            &&& c.doing == if there {
                Work::StopReplacement
            } else {
                Work::Restore
            }
            &&& d.doing == Work::Restore && d.failure == Some(failure)
            &&& stepped(d, EventModel::Done) == (ChangeModel {
                doing: Work::Reply,
                failure: Some(failure),
            })
            &&& stepped(d, EventModel::Failed(later)) == (ChangeModel {
                doing: Work::Reply,
                failure: Some(
                    FailureModel {
                        kind: FailureKind::Internal,
                        message: "directory change failed: "@ + failure.message
                            + "; restoring the original runtime failed: "@ + later.message,
                    },
                ),
            })
        }),
{
}

/// A stop that goes through listens to the thread, shuts it down, drains it, removes it and cancels its
/// requests, in this order, and is answered without a failure.
pub proof fn stops_go_through(thread_id: Seq<char>)
    ensures
        ({
            let a = stop_stepped(
                StopModel { doing: StopWork::Listen, failure: None },
                StopEvent::Done,
                thread_id,
            );
            let b = stop_stepped(a, StopEvent::Done, thread_id);
            let c = stop_stepped(b, StopEvent::Done, thread_id);
            let d = stop_stepped(c, StopEvent::Removed(true), thread_id);
            let e = stop_stepped(d, StopEvent::Done, thread_id);
            &&& a.doing == StopWork::ShutDown
            &&& b.doing == StopWork::Drain
            &&& c.doing == StopWork::Remove
            &&& d.doing == StopWork::CancelRequests
            &&& e == (StopModel { doing: StopWork::Reply, failure: None })
        }),
{
}

/// What keeps a stop from going through: it is answered with what went wrong, and what was listened to
/// for it is given up first where the thread was not shut down or drained.
pub proof fn stops_fail(stop: StopModel, thread_id: Seq<char>, failure: Failure)
    ensures
        ({
            let said = |doing: StopWork, message: Seq<char>|
                StopModel {
                    doing,
                    failure: Some(FailureModel { kind: FailureKind::Internal, message }),
                };
            &&& stop.doing == StopWork::Listen ==> stop_stepped(
                stop,
                StopEvent::Failed(failure),
                thread_id,
            ) == (StopModel { doing: StopWork::Reply, failure: Some(failure@) })
            &&& stop.doing == StopWork::Listen ==> stop_stepped(
                stop,
                StopEvent::ConnectionClosed,
                thread_id,
            ) == said(StopWork::Reply, "connection closed before reloading thread "@ + thread_id)
            &&& stop.doing == StopWork::ShutDown ==> stop_stepped(
                stop,
                StopEvent::NotShutDown,
                thread_id,
            ) == said(
                StopWork::Withdraw,
                "failed to shut down thread "@ + thread_id + " before reload"@,
            )
            &&& stop.doing == StopWork::Drain ==> stop_stepped(
                stop,
                StopEvent::DrainTimedOut,
                thread_id,
            ) == said(
                StopWork::Withdraw,
                "timed out draining thread "@ + thread_id + " before reload"@,
            )
            &&& stop.doing == StopWork::Drain ==> stop_stepped(
                stop,
                StopEvent::ListenerStopped,
                thread_id,
            ) == said(
                StopWork::Withdraw,
                "listener stopped before draining thread "@ + thread_id,
            )
            &&& stop.doing == StopWork::Withdraw ==> stop_stepped(stop, StopEvent::Done, thread_id)
                == (StopModel { doing: StopWork::Reply, failure: stop.failure })
            &&& stop.doing == StopWork::Remove ==> stop_stepped(
                stop,
                StopEvent::Removed(false),
                thread_id,
            ) == said(StopWork::Reply, "thread "@ + thread_id + " changed before reload"@)
        }),
{
}

/// A permission suits a destination exactly when it is of the same kind and names the same profile, and,
/// where a profile is active, that profile and its workspace roots.
pub proof fn permissions_suit_their_destination(
    destination: Destination,
    profile: String,
    active: String,
    roots: Vec<String>,
)
    ensures
        permitted(Permission::Legacy { profile }, destination)
            <==> destination.active_permission_profile is None && profile@
            == destination.permission_profile@,
        permitted(
            Permission::Active { profile, active, workspace_roots: roots },
            destination,
        ) <==> (destination.active_permission_profile matches Some(wanted) && wanted@ == active@)
            && profile@ == destination.permission_profile@ && texts(roots@) == texts(
            destination.profile_workspace_roots@,
        ),
{
}

/// An agent is busy exactly when it is loaded and runs, or has a terminal open.
pub proof fn loaded_agents_are_busy(agent: AgentActivity)
    ensures
        !agent.loaded ==> !busy(agent),
        agent.loaded && agent.running ==> busy(agent),
        agent.loaded && agent.terminals > 0 ==> busy(agent),
        !agent.running && agent.terminals == 0 ==> !busy(agent),
{
}

} // verus!
