//! How a thread takes part: where its ledger stands, whose worker it is, and what is recorded of
//! it.

use vstd::prelude::*;

use crate::ledger::model::Execution;
use crate::ledger::model::ExecutionModel;
use crate::ledger::model::Ledger;
use crate::ledger::model::LedgerModel;
use crate::storage::ledger_dir;
use crate::storage::ledger_dir_of;
use crate::table::lookup;
use crate::table::placed;
use crate::text::copy_maybe;
use crate::text::maybe;
use crate::text::same;
use crate::text::same_maybe;

verus! {

/// What the host config says about the ledger.
#[derive(Debug, PartialEq, Eq)]
pub struct TasksExtensionConfig {
    pub enabled: bool,
    pub codex_home: String,
}

impl Default for TasksExtensionConfig {
    fn default() -> (config: Self)
        ensures
            config.enabled,
            config.codex_home@ == Seq::<char>::empty(),
    {
        TasksExtensionConfig { enabled: true, codex_home: String::new() }
    }
}

/// Where a session comes from.
#[derive(Debug, PartialEq, Eq)]
pub enum SessionSource {
    /// A thread that another thread spawned.
    Spawned { parent_thread_id: String, agent_path: Option<String> },
    /// Review, compaction, and other internal sessions: they keep no ledger.
    Internal,
    /// A session of its own.
    Root,
}

/// Per-thread ledger identity, settled at thread start.
#[derive(Debug, PartialEq, Eq)]
pub struct ThreadTasks {
    pub thread_id: String,
    pub dir: String,
    /// Present for a spawned agent: where its parent keeps the ledger this worker is recorded in.
    pub parent_dir: Option<String>,
    pub agent_path: Option<String>,
}

/// Per-thread ledger identity, with its texts as sequences of characters.
#[verifier::ext_equal]
pub struct ThreadTasksModel {
    pub thread_id: Seq<char>,
    pub dir: Seq<char>,
    pub parent_dir: Option<Seq<char>>,
    pub agent_path: Option<Seq<char>>,
}

impl View for ThreadTasks {
    type V = ThreadTasksModel;

    open spec fn view(&self) -> ThreadTasksModel {
        ThreadTasksModel {
            thread_id: self.thread_id@,
            dir: self.dir@,
            parent_dir: maybe(self.parent_dir),
            agent_path: maybe(self.agent_path),
        }
    }
}

/// The ledger identity of a thread, where it keeps a ledger.
pub open spec fn thread_tasks_of(
    source: SessionSource,
    home: Seq<char>,
    thread_id: Seq<char>,
) -> Option<ThreadTasksModel> {
    match source {
        SessionSource::Internal => None,
        SessionSource::Root => Some(
            ThreadTasksModel {
                thread_id,
                dir: ledger_dir_of(home, thread_id),
                parent_dir: None,
                agent_path: None,
            },
        ),
        SessionSource::Spawned { parent_thread_id, agent_path } => Some(
            ThreadTasksModel {
                thread_id,
                dir: ledger_dir_of(home, thread_id),
                parent_dir: Some(ledger_dir_of(home, parent_thread_id@)),
                agent_path: maybe(agent_path),
            },
        ),
    }
}

/// The ledger identity of a thread, where it keeps a ledger.
pub fn thread_tasks(source: &SessionSource, codex_home: &str, thread_id: &str) -> (r: Option<
    ThreadTasks,
>)
    ensures
        (match r {
            Some(thread) => Some(thread@),
            None => None,
        }) == thread_tasks_of(*source, codex_home@, thread_id@),
{
    match source {
        SessionSource::Internal => None,
        SessionSource::Root => Some(
            ThreadTasks {
                thread_id: thread_id.to_string(),
                dir: ledger_dir(codex_home, thread_id),
                parent_dir: None,
                agent_path: None,
            },
        ),
        SessionSource::Spawned { parent_thread_id, agent_path } => Some(
            ThreadTasks {
                thread_id: thread_id.to_string(),
                dir: ledger_dir(codex_home, thread_id),
                parent_dir: Some(ledger_dir(codex_home, parent_thread_id.as_str())),
                agent_path: copy_maybe(agent_path),
            },
        ),
    }
}

/// The root that a spawned thread follows: the one its parent follows, or the parent itself.
pub open spec fn root_of(parent: LedgerModel, parent_thread_id: Seq<char>) -> Seq<char> {
    match parent.capacity_root {
        Some(root) => root,
        None => parent_thread_id,
    }
}

/// The root that a spawned thread follows.
pub fn capacity_root(parent: &Ledger, parent_thread_id: &str) -> (root: String)
    ensures
        root@ == root_of(parent.model(), parent_thread_id@),
{
    match &parent.capacity_root {
        Some(root) => root.clone(),
        None => parent_thread_id.to_string(),
    }
}

/// Sets the root that a thread follows. Says whether that changed it.
pub fn set_capacity_root(ledger: &mut Ledger, root: &str) -> (changed: bool)
    ensures
        final(ledger).model() == (LedgerModel {
            capacity_root: Some(root@),
            ..old(ledger).model()
        }),
        changed == (old(ledger).model().capacity_root != Some(root@)),
{
    let next = Some(root.to_string());
    let changed = !same_maybe(&ledger.capacity_root, &next);
    ledger.capacity_root = next;
    changed
}

/// Why a thread went idle.
#[derive(Clone, Copy, Debug, PartialEq, Eq, Structural)]
pub enum IdleCause {
    Completed,
    Interrupted,
    Failed,
}

/// The word for an idle cause.
pub open spec fn cause_of(cause: IdleCause) -> Seq<char> {
    match cause {
        IdleCause::Completed => "completed"@,
        IdleCause::Interrupted => "interrupted"@,
        IdleCause::Failed => "failed"@,
    }
}

impl IdleCause {
    /// The word for the cause.
    pub fn word(self) -> (text: &'static str)
        ensures
            text@ == cause_of(self),
    {
        match self {
            IdleCause::Completed => "completed",
            IdleCause::Interrupted => "interrupted",
            IdleCause::Failed => "failed",
        }
    }
}

/// What is to be recorded of a worker, and where.
#[derive(Debug, PartialEq, Eq)]
pub struct ExecutionRecord {
    /// The directory of the parent's ledger.
    pub dir: String,
    /// The worker's path.
    pub owner: String,
    pub execution: Execution,
}

/// What is to be recorded of a thread: nothing with the ledger off, nor of a thread that is no
/// worker of another. A thread that went idle has the cause for an outcome.
pub fn execution_record(
    thread: &ThreadTasks,
    enabled: bool,
    idle: Option<IdleCause>,
    now: i64,
) -> (r: Option<ExecutionRecord>)
    ensures
        r is Some <==> enabled && thread.parent_dir is Some && thread.agent_path is Some,
        r matches Some(record) ==> record.dir@ == thread.parent_dir->0@ && record.owner@
            == thread.agent_path->0@ && record.execution@ == (ExecutionModel {
            thread_id: thread.thread_id@,
            running: idle is None,
            outcome: match idle {
                Some(cause) => Some(cause_of(cause)),
                None => None,
            },
            updated: now,
        }),
{
    if !enabled {
        return None;
    }
    match (&thread.parent_dir, &thread.agent_path) {
        (Some(dir), Some(owner)) => Some(
            ExecutionRecord {
                dir: dir.clone(),
                owner: owner.clone(),
                execution: Execution {
                    thread_id: thread.thread_id.clone(),
                    running: idle.is_none(),
                    outcome: match idle {
                        Some(cause) => Some(cause.word().to_string()),
                        None => None,
                    },
                    updated: now,
                },
            },
        ),
        _ => None,
    }
}

/// The record says the same, but for its time.
pub open spec fn same_record(a: ExecutionModel, b: ExecutionModel) -> bool {
    a.thread_id == b.thread_id && a.running == b.running && a.outcome == b.outcome
}

/// Records what a worker is doing, unless the record says so already. Says whether it changed.
pub fn record_execution(ledger: &mut Ledger, owner: &str, execution: Execution) -> (changed: bool)
    ensures
        changed == !(lookup(old(ledger).model().executions, owner@) is Some && same_record(
            lookup(old(ledger).model().executions, owner@)->0,
            execution@,
        )),
        final(ledger).model() == (LedgerModel {
            executions: if changed {
                placed(old(ledger).model().executions, owner@, execution@)
            } else {
                old(ledger).model().executions
            },
            ..old(ledger).model()
        }),
{
    if let Some(current) = ledger.executions.get(owner) {
        if same(current.thread_id.as_str(), execution.thread_id.as_str()) && current.running
            == execution.running && same_maybe(&current.outcome, &execution.outcome) {
            return false;
        }
    }
    let _ = ledger.executions.insert(owner.to_string(), execution);
    true
}

/// The outside steps of a thread that starts, in the order of one that goes through.
#[derive(Clone, Copy, Debug, PartialEq, Eq, Structural)]
pub enum StartWork {
    /// Read the ledger of the parent.
    ReadParent,
    /// Keep the root that is followed in the thread's own ledger.
    SetRoot,
    /// Record the thread as running.
    Record,
    /// The thread has started.
    Finish,
}

/// How an outside step of a start ended.
#[derive(Debug, PartialEq, Eq)]
pub enum StartEvent {
    /// The ledger of the parent.
    Parent(Ledger),
    Done,
    Failed,
}

/// A thread that starts: the step being taken, its parent, and the root that it follows once that
/// is known.
#[derive(Debug, PartialEq, Eq)]
pub struct ThreadStart {
    pub doing: StartWork,
    pub parent_thread_id: Option<String>,
    pub root: Option<String>,
}

/// A thread that starts, with its texts as sequences of characters.
#[verifier::ext_equal]
pub struct StartModel {
    pub doing: StartWork,
    pub parent_thread_id: Option<Seq<char>>,
    pub root: Option<Seq<char>>,
}

impl View for ThreadStart {
    type V = StartModel;

    open spec fn view(&self) -> StartModel {
        StartModel {
            doing: self.doing,
            parent_thread_id: maybe(self.parent_thread_id),
            root: maybe(self.root),
        }
    }
}

/// What a start begins with: a thread with the ledger off, or without a ledger, takes no step.
pub open spec fn start_of(source: SessionSource, enabled: bool) -> StartModel {
    match source {
        SessionSource::Spawned { parent_thread_id, .. } if enabled => StartModel {
            doing: StartWork::ReadParent,
            parent_thread_id: Some(parent_thread_id@),
            root: None,
        },
        SessionSource::Root if enabled => StartModel {
            doing: StartWork::Record,
            parent_thread_id: None,
            root: None,
        },
        _ => StartModel { doing: StartWork::Finish, parent_thread_id: None, root: None },
    }
}

/// What a start does next. A spawned thread whose parent cannot be read is not recorded; one that
/// cannot keep its root is. An event that does not answer the step being taken changes nothing.
pub open spec fn start_stepped(state: StartModel, event: StartEvent) -> StartModel {
    match (state.doing, event) {
        (StartWork::ReadParent, StartEvent::Parent(parent)) => StartModel {
            doing: StartWork::SetRoot,
            root: if parent.model().capacity_root is Some {
                parent.model().capacity_root
            } else {
                state.parent_thread_id
            },
            ..state
        },
        (StartWork::ReadParent, StartEvent::Failed) => StartModel {
            doing: StartWork::Finish,
            ..state
        },
        (StartWork::SetRoot, StartEvent::Done) => StartModel { doing: StartWork::Record, ..state },
        (StartWork::SetRoot, StartEvent::Failed) => StartModel {
            doing: StartWork::Record,
            ..state
        },
        (StartWork::Record, StartEvent::Done) => StartModel { doing: StartWork::Finish, ..state },
        (StartWork::Record, StartEvent::Failed) => StartModel {
            doing: StartWork::Finish,
            ..state
        },
        _ => state,
    }
}

impl ThreadStart {
    /// What the start of a thread begins with.
    pub fn start(source: &SessionSource, enabled: bool) -> (state: Self)
        ensures
            state@ == start_of(*source, enabled),
    {
        let (doing, parent_thread_id) = match source {
            SessionSource::Spawned { parent_thread_id, .. } if enabled => (
                StartWork::ReadParent,
                Some(parent_thread_id.clone()),
            ),
            SessionSource::Root if enabled => (StartWork::Record, None),
            _ => (StartWork::Finish, None),
        };
        ThreadStart { doing, parent_thread_id, root: None }
    }

    /// What the start does next, now that its step ended. An event that does not answer the step
    /// being taken changes nothing.
    pub fn next(self, event: StartEvent) -> (state: Self)
        ensures
            state@ == start_stepped(self@, event),
    {
        let mut state = self;
        match (state.doing, event) {
            (StartWork::ReadParent, StartEvent::Parent(parent)) => {
                state.doing = StartWork::SetRoot;
                state.root = match parent.capacity_root {
                    Some(root) => Some(root),
                    None => copy_maybe(&state.parent_thread_id),
                };
            },
            (StartWork::ReadParent, StartEvent::Failed) => {
                state.doing = StartWork::Finish;
            },
            (StartWork::SetRoot, StartEvent::Done) => {
                state.doing = StartWork::Record;
            },
            (StartWork::SetRoot, StartEvent::Failed) => {
                state.doing = StartWork::Record;
            },
            (StartWork::Record, StartEvent::Done) => {
                state.doing = StartWork::Finish;
            },
            (StartWork::Record, StartEvent::Failed) => {
                state.doing = StartWork::Finish;
            },
            (_, _) => {},
        }
        state
    }
}

/// Every thread below a root follows it: a child of a thread that follows a root follows the same
/// one, and a child of a thread that follows none follows that thread.
pub proof fn descendants_share_a_root(
    parent: Ledger,
    parent_thread_id: Seq<char>,
    child: LedgerModel,
    child_thread_id: Seq<char>,
)
    ensures
        ({
            let root = root_of(parent.model(), parent_thread_id);
            let kept = LedgerModel { capacity_root: Some(root), ..child };
            &&& start_stepped(
                StartModel {
                    doing: StartWork::ReadParent,
                    parent_thread_id: Some(parent_thread_id),
                    root: None,
                },
                StartEvent::Parent(parent),
            ).root == Some(root)
            &&& root_of(kept, child_thread_id) == root
        }),
{
}

/// A session of its own, and one that another thread spawned, keep a ledger in the directory of their
/// thread; internal sessions keep none. A spawned one knows the directory of its parent's ledger.
pub proof fn sessions_keep_ledgers(source: SessionSource, home: Seq<char>, thread_id: Seq<char>)
    ensures
        thread_tasks_of(source, home, thread_id) is None <==> source is Internal,
        thread_tasks_of(source, home, thread_id) matches Some(tasks) ==> {
            &&& tasks.thread_id == thread_id
            &&& tasks.dir == ledger_dir_of(home, thread_id)
            &&& source is Root ==> tasks.parent_dir is None && tasks.agent_path is None
            &&& source matches SessionSource::Spawned { parent_thread_id, agent_path }
                ==> tasks.parent_dir == Some(ledger_dir_of(home, parent_thread_id@))
                && tasks.agent_path == maybe(agent_path)
        },
{
}

/// A spawned thread reads its parent's ledger, keeps the root, and is recorded as running; it is not
/// recorded where the parent cannot be read. A session of its own is recorded at once. With the ledger
/// off, or for an internal session, nothing is done.
pub proof fn starts_go_through(
    parent_thread_id: String,
    agent_path: Option<String>,
    parent: Ledger,
    well: bool,
)
    ensures
        ({
            let spawned = SessionSource::Spawned { parent_thread_id, agent_path };
            let a = start_of(spawned, true);
            let b = start_stepped(a, StartEvent::Parent(parent));
            let c = start_stepped(b, if well { StartEvent::Done } else { StartEvent::Failed });
            let d = start_stepped(c, if well { StartEvent::Done } else { StartEvent::Failed });
            &&& a.doing == StartWork::ReadParent && a.parent_thread_id == Some(parent_thread_id@)
            &&& b.doing == StartWork::SetRoot
            &&& b.root == Some(
                if parent.model().capacity_root is Some {
                    parent.model().capacity_root->0
                } else {
                    parent_thread_id@
                },
            )
            &&& c.doing == StartWork::Record && c.root == b.root
            &&& d.doing == StartWork::Finish
            &&& start_stepped(a, StartEvent::Failed).doing == StartWork::Finish
            &&& start_of(SessionSource::Root, true).doing == StartWork::Record
            &&& start_of(SessionSource::Root, false).doing == StartWork::Finish
            &&& start_of(spawned, false).doing == StartWork::Finish
            &&& start_of(SessionSource::Internal, true).doing == StartWork::Finish
        }),
{
}

/// The words for why a thread went idle tell the causes apart.
pub proof fn causes_have_their_words(a: IdleCause, b: IdleCause)
    requires
        a != b,
    ensures
        cause_of(a) != cause_of(b),
{
    reveal_strlit("completed");
    reveal_strlit("interrupted");
    reveal_strlit("failed");
    assert("completed"@.len() == 9 && "interrupted"@.len() == 11 && "failed"@.len() == 6);
}

/// A record is the same exactly when the thread, whether it runs and what came of it are; its time does
/// not count.
pub proof fn records_differ_by_more_than_time(a: ExecutionModel, b: ExecutionModel)
    ensures
        a.thread_id != b.thread_id ==> !same_record(a, b),
        a.running != b.running ==> !same_record(a, b),
        a.outcome != b.outcome ==> !same_record(a, b),
        a.thread_id == b.thread_id && a.running == b.running && a.outcome == b.outcome
            ==> same_record(a, b),
{
}

/// An event that does not answer the step that a start is taking changes nothing.
pub proof fn stray_events_leave_a_start(state: StartModel, event: StartEvent)
    requires
        state.doing == StartWork::Finish || state.doing == StartWork::ReadParent && event is Done
            || state.doing != StartWork::ReadParent && event is Parent,
    ensures
        start_stepped(state, event) == state,
{
}

} // verus!
