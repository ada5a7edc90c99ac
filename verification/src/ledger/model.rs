//! The ledger's data, and what each value stands for.
//!
//! Tasks are the whole model. A task is one independently ownable outcome; `after` is the
//! prerequisite graph; a `cancelled` reason is how abandoned work stays visible; `owner` names the
//! agent path that is executing it.

use vstd::prelude::*;

use crate::table::Duplicate;
use crate::table::Table;
use crate::text::copy_maybe;
use crate::text::copy_texts;
use crate::text::maybe;
use crate::text::same;
use crate::text::texts;

verus! {

#[derive(Clone, Copy, Debug, PartialEq, Eq, Structural)]
pub enum Status {
    Pending,
    Active,
    Done,
}

/// The status that a word names.
pub open spec fn status_named(raw: Seq<char>) -> Option<Status> {
    if raw == "pending"@ {
        Some(Status::Pending)
    } else if raw == "active"@ {
        Some(Status::Active)
    } else if raw == "done"@ {
        Some(Status::Done)
    } else {
        None
    }
}

impl Status {
    /// The status that a word names.
    pub fn parse(raw: &str) -> (status: Option<Self>)
        ensures
            status == status_named(raw@),
    {
        if same(raw, "pending") {
            Some(Status::Pending)
        } else if same(raw, "active") {
            Some(Status::Active)
        } else if same(raw, "done") {
            Some(Status::Done)
        } else {
            None
        }
    }
}

/// Where a finding came from when it was carried across a merge.
#[derive(Debug, PartialEq, Eq)]
pub struct FindingOrigin {
    pub task: String,
    pub title: String,
}

#[derive(Debug, PartialEq, Eq)]
pub struct Finding {
    /// Unix milliseconds.
    pub at: i64,
    pub text: String,
    pub from: Option<FindingOrigin>,
}

#[derive(Debug, PartialEq, Eq)]
pub struct Task {
    pub id: String,
    pub title: String,
    pub status: Status,
    /// Stable ids of tasks that must settle before this one can run.
    pub after: Vec<String>,
    /// Why the task was abandoned. Its presence produces the cancelled view.
    pub cancelled: Option<String>,
    /// A named external condition or decision that is waited for; not a prerequisite.
    pub waiting: Option<String>,
    /// Canonical agent path of the worker that executes the outcome, when it is delegated.
    pub owner: Option<String>,
    pub body: String,
    pub findings: Vec<Finding>,
    pub created: i64,
    pub updated: i64,
}

/// What the runtime knows about one delegated worker, keyed by its agent path.
#[derive(Debug, PartialEq, Eq)]
pub struct Execution {
    pub thread_id: String,
    pub running: bool,
    /// The idle cause reported when the worker last stopped: completed, interrupted, or failed.
    pub outcome: Option<String>,
    pub updated: i64,
}

#[derive(Debug, PartialEq, Eq)]
pub struct Ledger {
    /// Spawned threads derive their capacity from this root session on every access.
    pub capacity_root: Option<String>,
    pub parallelism: usize,
    /// An explicit reason to yield with unfinished work.
    pub pause: Option<String>,
    pub tasks: Vec<Task>,
    pub executions: Table<Execution>,
}

/// The origin of a finding, as texts.
#[verifier::ext_equal]
pub struct OriginModel {
    pub task: Seq<char>,
    pub title: Seq<char>,
}

/// A finding, with its texts as sequences of characters.
#[verifier::ext_equal]
pub struct FindingModel {
    pub at: i64,
    pub text: Seq<char>,
    pub from: Option<OriginModel>,
}

/// A task, with its texts as sequences of characters.
#[verifier::ext_equal]
pub struct TaskModel {
    pub id: Seq<char>,
    pub title: Seq<char>,
    pub status: Status,
    pub after: Seq<Seq<char>>,
    pub cancelled: Option<Seq<char>>,
    pub waiting: Option<Seq<char>>,
    pub owner: Option<Seq<char>>,
    pub body: Seq<char>,
    pub findings: Seq<FindingModel>,
    pub created: i64,
    pub updated: i64,
}

/// A worker's execution, with its texts as sequences of characters.
#[verifier::ext_equal]
pub struct ExecutionModel {
    pub thread_id: Seq<char>,
    pub running: bool,
    pub outcome: Option<Seq<char>>,
    pub updated: i64,
}

/// A ledger, with its texts as sequences of characters; the executions are in the order of their
/// keys.
#[verifier::ext_equal]
pub struct LedgerModel {
    pub capacity_root: Option<Seq<char>>,
    pub parallelism: usize,
    pub pause: Option<Seq<char>>,
    pub tasks: Seq<TaskModel>,
    pub executions: Seq<(Seq<char>, ExecutionModel)>,
}

impl View for FindingOrigin {
    type V = OriginModel;

    open spec fn view(&self) -> OriginModel {
        OriginModel { task: self.task@, title: self.title@ }
    }
}

/// The origin that an optional origin stands for.
pub open spec fn origin_of(from: Option<FindingOrigin>) -> Option<OriginModel> {
    match from {
        Some(from) => Some(from@),
        None => None,
    }
}

impl View for Finding {
    type V = FindingModel;

    open spec fn view(&self) -> FindingModel {
        FindingModel { at: self.at, text: self.text@, from: origin_of(self.from) }
    }
}

/// The findings that a list stands for.
pub open spec fn findings_of(list: Seq<Finding>) -> Seq<FindingModel> {
    Seq::new(list.len(), |i: int| list[i]@)
}

impl View for Task {
    type V = TaskModel;

    open spec fn view(&self) -> TaskModel {
        TaskModel {
            id: self.id@,
            title: self.title@,
            status: self.status,
            after: texts(self.after@),
            cancelled: maybe(self.cancelled),
            waiting: maybe(self.waiting),
            owner: maybe(self.owner),
            body: self.body@,
            findings: findings_of(self.findings@),
            created: self.created,
            updated: self.updated,
        }
    }
}

/// The tasks that a list stands for.
pub open spec fn tasks_of(list: Seq<Task>) -> Seq<TaskModel> {
    Seq::new(list.len(), |i: int| list[i]@)
}

/// The tasks that a list of references stands for.
pub open spec fn referred(list: Seq<&Task>) -> Seq<TaskModel> {
    Seq::new(list.len(), |i: int| list[i]@)
}

/// The task that an optional reference stands for.
pub open spec fn seen(task: Option<&Task>) -> Option<TaskModel> {
    match task {
        Some(task) => Some(task@),
        None => None,
    }
}

impl View for Execution {
    type V = ExecutionModel;

    open spec fn view(&self) -> ExecutionModel {
        ExecutionModel {
            thread_id: self.thread_id@,
            running: self.running,
            outcome: maybe(self.outcome),
            updated: self.updated,
        }
    }
}

impl Ledger {
    /// What the ledger stands for.
    pub open spec fn model(&self) -> LedgerModel {
        LedgerModel {
            capacity_root: maybe(self.capacity_root),
            parallelism: self.parallelism,
            pause: maybe(self.pause),
            tasks: tasks_of(self.tasks@),
            executions: self.executions@,
        }
    }
}

impl Duplicate for FindingOrigin {
    fn duplicate(&self) -> (copy: Self) {
        FindingOrigin { task: self.task.clone(), title: self.title.clone() }
    }
}

impl Duplicate for Finding {
    fn duplicate(&self) -> (copy: Self) {
        let from = match &self.from {
            Some(from) => Some(from.duplicate()),
            None => None,
        };
        Finding { at: self.at, text: self.text.clone(), from }
    }
}

/// Findings with the same content.
pub fn copy_findings(list: &Vec<Finding>) -> (r: Vec<Finding>)
    ensures
        findings_of(r@) == findings_of(list@),
{
    let mut out: Vec<Finding> = Vec::new();
    let mut i: usize = 0;
    while i < list.len()
        invariant
            i <= list@.len(),
            out@.len() == i,
            forall|j: int| 0 <= j < i ==> (#[trigger] out@[j])@ == list@[j]@,
        decreases list@.len() - i,
    {
        out.push(list[i].duplicate());
        i += 1;
    }
    assert(findings_of(out@) =~= findings_of(list@));
    out
}

impl Duplicate for Task {
    fn duplicate(&self) -> (copy: Self) {
        Task {
            id: self.id.clone(),
            title: self.title.clone(),
            status: self.status,
            after: copy_texts(&self.after),
            cancelled: copy_maybe(&self.cancelled),
            waiting: copy_maybe(&self.waiting),
            owner: copy_maybe(&self.owner),
            body: self.body.clone(),
            findings: copy_findings(&self.findings),
            created: self.created,
            updated: self.updated,
        }
    }
}

/// Tasks with the same content.
pub fn copy_tasks(list: &Vec<Task>) -> (r: Vec<Task>)
    ensures
        tasks_of(r@) == tasks_of(list@),
{
    let mut out: Vec<Task> = Vec::new();
    let mut i: usize = 0;
    while i < list.len()
        invariant
            i <= list@.len(),
            out@.len() == i,
            forall|j: int| 0 <= j < i ==> (#[trigger] out@[j])@ == list@[j]@,
        decreases list@.len() - i,
    {
        out.push(list[i].duplicate());
        i += 1;
    }
    assert(tasks_of(out@) =~= tasks_of(list@));
    out
}

impl Duplicate for Execution {
    fn duplicate(&self) -> (copy: Self) {
        Execution {
            thread_id: self.thread_id.clone(),
            running: self.running,
            outcome: copy_maybe(&self.outcome),
            updated: self.updated,
        }
    }
}

impl Clone for Finding {
    fn clone(&self) -> (copy: Self)
        ensures
            copy@ == self@,
    {
        self.duplicate()
    }
}

impl Clone for FindingOrigin {
    fn clone(&self) -> (copy: Self)
        ensures
            copy@ == self@,
    {
        self.duplicate()
    }
}

impl Clone for Task {
    fn clone(&self) -> (copy: Self)
        ensures
            copy@ == self@,
    {
        self.duplicate()
    }
}

impl Clone for Execution {
    fn clone(&self) -> (copy: Self)
        ensures
            copy@ == self@,
    {
        self.duplicate()
    }
}

impl Clone for Ledger {
    fn clone(&self) -> (copy: Self)
        ensures
            copy.model() == self.model(),
    {
        Ledger {
            capacity_root: copy_maybe(&self.capacity_root),
            parallelism: self.parallelism,
            pause: copy_maybe(&self.pause),
            tasks: copy_tasks(&self.tasks),
            executions: self.executions.duplicate(),
        }
    }
}

/// A ledger without tasks, limits or workers.
pub open spec fn blank() -> LedgerModel {
    LedgerModel {
        capacity_root: None,
        parallelism: 0,
        pause: None,
        tasks: Seq::empty(),
        executions: Seq::empty(),
    }
}

impl Default for Ledger {
    fn default() -> (ledger: Self)
        ensures
            ledger.model() == blank(),
    {
        let ledger = Ledger {
            capacity_root: None,
            parallelism: 0,
            pause: None,
            tasks: Vec::new(),
            executions: Table::new(),
        };
        assert(ledger.model() =~= blank());
        ledger
    }
}

/// Finished or abandoned.
pub open spec fn terminal(task: TaskModel) -> bool {
    task.status == Status::Done || task.cancelled is Some
}

impl Task {
    /// Whether the task is finished or abandoned.
    pub fn terminal(&self) -> (r: bool)
        ensures
            r == terminal(self@),
    {
        self.status == Status::Done || self.cancelled.is_some()
    }
}

/// Each status has its word, and no other word is one.
pub proof fn statuses_have_their_words(raw: Seq<char>)
    ensures
        status_named(raw) == Some(Status::Pending) <==> raw == "pending"@,
        status_named(raw) == Some(Status::Active) <==> raw == "active"@,
        status_named(raw) == Some(Status::Done) <==> raw == "done"@,
{
    reveal_strlit("pending");
    reveal_strlit("active");
    reveal_strlit("done");
    assert("pending"@.len() != "active"@.len());
    assert("pending"@.len() != "done"@.len());
    assert("active"@.len() != "done"@.len());
}

} // verus!
