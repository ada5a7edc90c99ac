//! Reading the ledger: where a task stands, what it waits for, and what a reference names.

use vstd::prelude::*;
use vstd::string::StringExecFns;
use vstd::view::View as _;

use crate::ledger::model::referred;
use crate::ledger::model::seen;
use crate::ledger::model::terminal;
use crate::ledger::model::Ledger;
use crate::ledger::model::LedgerModel;
use crate::ledger::model::Status;
use crate::ledger::model::Task;
use crate::ledger::model::TaskModel;
use crate::text::all_digits;
use crate::text::chars_of;
use crate::text::decimal;
use crate::text::decimal_of;
use crate::text::fold;
use crate::text::folded;
use crate::text::is_all_digits;
use crate::text::is_space;
use crate::text::join;
use crate::text::joined;
use crate::text::maybe;
use crate::text::number_of;
use crate::text::parse_number;
use crate::text::same;
use crate::text::space;
use crate::text::text_of;
use crate::text::texts;
use crate::text::trim;
use crate::text::trimmed;

verus! {

#[derive(Clone, Copy, Debug, PartialEq, Eq, Structural, Hash, PartialOrd, Ord)]
pub enum View {
    Ready,
    Active,
    Blocked,
    Done,
    Cancelled,
}

/// The mark of a state.
pub open spec fn glyph_of(view: View) -> Seq<char> {
    match view {
        View::Ready => "○"@,
        View::Active => "●"@,
        View::Blocked => "◌"@,
        View::Done => "✓"@,
        View::Cancelled => "✗"@,
    }
}

/// The word for a state.
pub open spec fn label_of(view: View) -> Seq<char> {
    match view {
        View::Ready => "ready"@,
        View::Active => "active"@,
        View::Blocked => "blocked"@,
        View::Done => "done"@,
        View::Cancelled => "cancelled"@,
    }
}

impl View {
    /// The mark of the state.
    pub fn glyph(self) -> (mark: &'static str)
        ensures
            mark@ == glyph_of(self),
    {
        match self {
            View::Ready => "○",
            View::Active => "●",
            View::Blocked => "◌",
            View::Done => "✓",
            View::Cancelled => "✗",
        }
    }

    /// The word for the state.
    pub fn label(self) -> (word: &'static str)
        ensures
            word@ == label_of(self),
    {
        match self {
            View::Ready => "ready",
            View::Active => "active",
            View::Blocked => "blocked",
            View::Done => "done",
            View::Cancelled => "cancelled",
        }
    }
}

#[derive(Debug, PartialEq, Eq)]
pub struct Viewed {
    pub state: View,
    pub note: Option<String>,
}

/// A state and its note, as text.
#[verifier::ext_equal]
pub struct ViewedModel {
    pub state: View,
    pub note: Option<Seq<char>>,
}

impl vstd::view::View for Viewed {
    type V = ViewedModel;

    open spec fn view(&self) -> ViewedModel {
        ViewedModel { state: self.state, note: maybe(self.note) }
    }
}

/// Row `i` is the first with this id.
pub open spec fn first_at(tasks: Seq<TaskModel>, id: Seq<char>, i: int) -> bool {
    &&& 0 <= i < tasks.len()
    &&& tasks[i].id == id
    &&& forall|j: int| 0 <= j < i ==> (#[trigger] tasks[j]).id != id
}

/// The first row with this id.
pub open spec fn position(tasks: Seq<TaskModel>, id: Seq<char>) -> Option<int> {
    if exists|i: int| first_at(tasks, id, i) {
        Some(choose|i: int| first_at(tasks, id, i))
    } else {
        None
    }
}

/// The first task with this id.
pub open spec fn find(tasks: Seq<TaskModel>, id: Seq<char>) -> Option<TaskModel> {
    match position(tasks, id) {
        Some(i) => Some(tasks[i]),
        None => None,
    }
}

/// Whether some task has this id.
pub open spec fn has_id(tasks: Seq<TaskModel>, id: Seq<char>) -> bool {
    exists|i: int| 0 <= i < tasks.len() && (#[trigger] tasks[i]).id == id
}

/// The unfinished tasks among those that the ids name, in the order of the ids.
pub open spec fn unfinished(tasks: Seq<TaskModel>, after: Seq<Seq<char>>) -> Seq<TaskModel>
    decreases after.len(),
{
    if after.len() == 0 {
        Seq::empty()
    } else {
        let before = unfinished(tasks, after.drop_last());
        match find(tasks, after.last()) {
            Some(task) => if terminal(task) {
                before
            } else {
                before.push(task)
            },
            None => before,
        }
    }
}

/// A task's id and title.
pub open spec fn titled_id(task: TaskModel) -> Seq<char> {
    task.id + " "@ + task.title
}

/// The ids and titles of tasks.
pub open spec fn titled_ids(tasks: Seq<TaskModel>) -> Seq<Seq<char>> {
    Seq::new(tasks.len(), |i: int| titled_id(tasks[i]))
}

/// Where a task stands: what was abandoned or finished stays so; unfinished prerequisites block;
/// so does an external condition; the rest is active or ready.
pub open spec fn viewed(tasks: Seq<TaskModel>, task: TaskModel) -> ViewedModel {
    let blockers = unfinished(tasks, task.after);
    if task.cancelled is Some {
        ViewedModel { state: View::Cancelled, note: task.cancelled }
    } else if task.status == Status::Done {
        ViewedModel { state: View::Done, note: None }
    } else if blockers.len() > 0 {
        ViewedModel {
            state: View::Blocked,
            note: Some("waiting for "@ + joined(titled_ids(blockers), ", "@)),
        }
    } else if task.waiting is Some {
        ViewedModel { state: View::Blocked, note: Some("waiting: "@ + task.waiting->0) }
    } else if task.status == Status::Active {
        ViewedModel { state: View::Active, note: None }
    } else {
        ViewedModel { state: View::Ready, note: None }
    }
}

/// The state of a task.
pub open spec fn state_of(tasks: Seq<TaskModel>, task: TaskModel) -> View {
    viewed(tasks, task).state
}

/// The tasks in a state, in plan order.
pub open spec fn in_state(tasks: Seq<TaskModel>, state: View) -> Seq<TaskModel> {
    tasks.filter(|task: TaskModel| state_of(tasks, task) == state)
}

/// One more row adds to what a filter keeps exactly when it passes.
pub proof fn filter_step<A>(s: Seq<A>, keep: spec_fn(A) -> bool, i: int)
    requires
        0 <= i < s.len(),
    ensures
        s.take(i + 1).filter(keep) == if keep(s[i]) {
            s.take(i).filter(keep).push(s[i])
        } else {
            s.take(i).filter(keep)
        },
{
    reveal(Seq::filter);
    assert(s.take(i + 1).drop_last() == s.take(i));
    assert(s.take(i + 1).last() == s[i]);
}

/// The first row with an id is its position.
pub proof fn position_is(tasks: Seq<TaskModel>, id: Seq<char>, i: int)
    requires
        first_at(tasks, id, i),
    ensures
        position(tasks, id) == Some(i),
        find(tasks, id) == Some(tasks[i]),
{
    let k = choose|k: int| first_at(tasks, id, k);
    assert(first_at(tasks, id, k));
    if k < i {
        assert(tasks[k].id != id);
    } else if i < k {
        assert(tasks[i].id != id);
    }
}

/// An id has a position exactly when some task has it.
pub proof fn position_iff(tasks: Seq<TaskModel>, id: Seq<char>)
    ensures
        position(tasks, id) is Some == has_id(tasks, id),
        position(tasks, id) is Some ==> first_at(tasks, id, position(tasks, id)->0),
        find(tasks, id) is Some == has_id(tasks, id),
        find(tasks, id) is Some ==> find(tasks, id)->0.id == id,
{
    if has_id(tasks, id) {
        let i = choose|i: int| 0 <= i < tasks.len() && (#[trigger] tasks[i]).id == id;
        first_exists(tasks, id, i);
    }
}

/// Below any row with an id there is a first one.
proof fn first_exists(tasks: Seq<TaskModel>, id: Seq<char>, i: int)
    requires
        0 <= i < tasks.len(),
        tasks[i].id == id,
    ensures
        exists|k: int| first_at(tasks, id, k),
    decreases i,
{
    if forall|j: int| 0 <= j < i ==> (#[trigger] tasks[j]).id != id {
        assert(first_at(tasks, id, i));
    } else {
        let j = choose|j: int| 0 <= j < i && (#[trigger] tasks[j]).id == id;
        first_exists(tasks, id, j);
    }
}

impl Ledger {
    /// The row of the first task with this id.
    pub(crate) fn row_of(&self, id: &str) -> (row: Option<usize>)
        ensures
            (match row {
                Some(row) => Some(row as int),
                None => None,
            }) == position(self.model().tasks, id@),
            row is Some ==> row->0 < self.tasks@.len() && self.tasks@[row->0 as int].id@ == id@,
    {
        let mut i: usize = 0;
        while i < self.tasks.len()
            invariant
                i <= self.tasks@.len(),
                forall|j: int| 0 <= j < i ==> (#[trigger] self.model().tasks[j]).id != id@,
            decreases self.tasks@.len() - i,
        {
            if same(self.tasks[i].id.as_str(), id) {
                proof {
                    assert(self.model().tasks[i as int].id == id@);
                    position_is(self.model().tasks, id@, i as int);
                }
                return Some(i);
            }
            assert(self.model().tasks[i as int].id != id@);
            i += 1;
        }
        proof {
            position_iff(self.model().tasks, id@);
        }
        None
    }

    /// The first task with this id.
    pub fn find_by_id(&self, id: &str) -> (task: Option<&Task>)
        ensures
            seen(task) == find(self.model().tasks, id@),
    {
        match self.row_of(id) {
            Some(row) => Some(&self.tasks[row]),
            None => None,
        }
    }

    /// The unfinished prerequisites of a task.
    pub fn waiting_for(&self, task: &Task) -> (blockers: Vec<&Task>)
        ensures
            referred(blockers@) == unfinished(self.model().tasks, task@.after),
    {
        let mut blockers: Vec<&Task> = Vec::new();
        let mut i: usize = 0;
        let ghost after = task@.after;
        while i < task.after.len()
            invariant
                i <= task.after@.len(),
                after == texts(task.after@),
                referred(blockers@) == unfinished(self.model().tasks, after.take(i as int)),
            decreases task.after@.len() - i,
        {
            let found = self.find_by_id(task.after[i].as_str());
            let ghost before = blockers@;
            assert(after.take(i + 1).drop_last() == after.take(i as int));
            assert(after.take(i + 1).last() == task.after@[i as int]@);
            if let Some(found) = found {
                if !found.terminal() {
                    blockers.push(found);
                    assert(referred(blockers@) == referred(before).push(found@));
                }
            }
            i += 1;
        }
        assert(after.take(after.len() as int) == after);
        blockers
    }

    /// Where a task stands.
    pub fn view(&self, task: &Task) -> (r: Viewed)
        ensures
            r@ == viewed(self.model().tasks, task@),
    {
        if let Some(reason) = &task.cancelled {
            return Viewed { state: View::Cancelled, note: Some(reason.clone()) };
        }
        if task.status == Status::Done {
            return Viewed { state: View::Done, note: None };
        }
        let blockers = self.waiting_for(task);
        if blockers.len() > 0 {
            let names = titled_list(&blockers);
            let mut note = "waiting for ".to_string();
            note.append(join(&names, ", ").as_str());
            return Viewed { state: View::Blocked, note: Some(note) };
        }
        if let Some(condition) = &task.waiting {
            let mut note = "waiting: ".to_string();
            note.append(condition.as_str());
            return Viewed { state: View::Blocked, note: Some(note) };
        }
        if task.status == Status::Active {
            return Viewed { state: View::Active, note: None };
        }
        Viewed { state: View::Ready, note: None }
    }
}

/// The ids and titles of tasks.
pub(crate) fn titled_list(tasks: &Vec<&Task>) -> (names: Vec<String>)
    ensures
        texts(names@) == titled_ids(referred(tasks@)),
{
    let mut names: Vec<String> = Vec::new();
    let mut i: usize = 0;
    while i < tasks.len()
        invariant
            i <= tasks@.len(),
            names@.len() == i,
            forall|j: int| 0 <= j < i ==> (#[trigger] names@[j])@ == titled_id(tasks@[j]@),
        decreases tasks@.len() - i,
    {
        let mut line = tasks[i].id.clone();
        line.append(" ");
        line.append(tasks[i].title.as_str());
        names.push(line);
        i += 1;
    }
    assert(texts(names@) =~= titled_ids(referred(tasks@)));
    names
}

/// How many tasks stand in each state.
#[derive(Clone, Copy, Debug, PartialEq, Eq)]
pub struct Tally {
    ready: usize,
    active: usize,
    blocked: usize,
    done: usize,
    cancelled: usize,
}

impl Tally {
    /// The number of tasks in a state.
    pub closed spec fn count(self, view: View) -> nat {
        match view {
            View::Ready => self.ready as nat,
            View::Active => self.active as nat,
            View::Blocked => self.blocked as nat,
            View::Done => self.done as nat,
            View::Cancelled => self.cancelled as nat,
        }
    }

    /// The number of tasks in a state, where there are any.
    pub fn get(&self, view: &View) -> (count: Option<&usize>)
        ensures
            count is Some == (self.count(*view) > 0),
            count is Some ==> *count->0 == self.count(*view),
    {
        let count: &usize = match view {
            View::Ready => &self.ready,
            View::Active => &self.active,
            View::Blocked => &self.blocked,
            View::Done => &self.done,
            View::Cancelled => &self.cancelled,
        };
        if *count > 0 {
            Some(count)
        } else {
            None
        }
    }

    /// The number of tasks in a state.
    pub fn number(&self, view: View) -> (count: usize)
        ensures
            count == self.count(view),
    {
        match view {
            View::Ready => self.ready,
            View::Active => self.active,
            View::Blocked => self.blocked,
            View::Done => self.done,
            View::Cancelled => self.cancelled,
        }
    }
}

/// The tasks that are neither finished nor abandoned.
pub open spec fn open_tasks(tasks: Seq<TaskModel>) -> Seq<TaskModel> {
    tasks.filter(|task: TaskModel| !terminal(task))
}

/// The number of tasks in a state.
pub open spec fn counted(ledger: LedgerModel, state: View) -> nat {
    in_state(ledger.tasks, state).len()
}

/// The active slots that nobody holds.
pub open spec fn free_slots(ledger: LedgerModel) -> nat {
    let active = counted(ledger, View::Active);
    if active < ledger.parallelism {
        (ledger.parallelism - active) as nat
    } else {
        0
    }
}

/// A part of the summary that is left out when there is nothing to count.
pub open spec fn counted_part(count: nat, word: Seq<char>) -> Seq<Seq<char>> {
    if count > 0 {
        seq![decimal_of(count) + word]
    } else {
        Seq::empty()
    }
}

/// The parts of the summary.
pub open spec fn summary_parts(ledger: LedgerModel) -> Seq<Seq<char>> {
    let slots = if ledger.parallelism > 1 {
        seq![
            decimal_of(free_slots(ledger)) + " of "@ + decimal_of(ledger.parallelism as nat)
                + " slots free"@,
        ]
    } else {
        Seq::empty()
    };
    seq![decimal_of(counted(ledger, View::Active)) + " active"@] + slots + seq![
        decimal_of(counted(ledger, View::Ready)) + " ready"@,
    ] + counted_part(counted(ledger, View::Blocked), " blocked"@) + counted_part(
        counted(ledger, View::Done),
        " done"@,
    )
}

/// The summary shared by context snapshots and tool acknowledgements.
pub open spec fn summary_of(ledger: LedgerModel) -> Seq<char> {
    joined(summary_parts(ledger), " · "@)
}

/// The largest number among the ids that are numbers, or zero.
pub open spec fn highest(tasks: Seq<TaskModel>) -> nat
    decreases tasks.len(),
{
    if tasks.len() == 0 {
        0
    } else {
        let before = highest(tasks.drop_last());
        match number_of(tasks.last().id) {
            Some(n) => if n > before {
                n as nat
            } else {
                before
            },
            None => before,
        }
    }
}

/// The tasks whose titles match a text.
pub open spec fn titled(tasks: Seq<TaskModel>, reference: Seq<char>) -> Seq<TaskModel> {
    tasks.filter(|task: TaskModel| folded(task.title) == folded(reference))
}

/// The index of the first white space, or the length where there is none.
pub open spec fn space_at(s: Seq<char>) -> int
    decreases s.len(),
{
    if s.len() == 0 || space(s[0]) {
        0
    } else {
        1 + space_at(s.skip(1))
    }
}

/// The id or title that a reference means. Display labels may be stale: `12 Title` names task 12
/// only when 12 is an id here.
pub open spec fn normalized(tasks: Seq<TaskModel>, reference: Seq<char>) -> Seq<char> {
    let wanted = trimmed(reference);
    let k = space_at(wanted);
    if 0 <= k < wanted.len() && all_digits(wanted.take(k)) && trimmed(wanted.skip(k + 1)).len() > 0
        && has_id(tasks, wanted.take(k)) {
        wanted.take(k)
    } else {
        wanted
    }
}

/// The first open task, or else the first.
pub open spec fn preferred(named: Seq<TaskModel>) -> Option<TaskModel> {
    if open_tasks(named).len() > 0 {
        Some(open_tasks(named)[0])
    } else if named.len() > 0 {
        Some(named[0])
    } else {
        None
    }
}

/// The task that a reference names: by id, or by title. Id wins; among tasks sharing a title the
/// live one wins, so a reference written now points at the work still to do.
pub open spec fn resolved(tasks: Seq<TaskModel>, reference: Seq<char>) -> Option<TaskModel> {
    let wanted = normalized(tasks, reference);
    match find(tasks, wanted) {
        Some(task) => Some(task),
        None => preferred(titled(tasks, wanted)),
    }
}

/// The longest title, in characters.
pub const MAX_TITLE_LENGTH: usize = 80;

/// Why a text cannot be a title.
pub open spec fn problem_with(title: Seq<char>) -> Option<Seq<char>> {
    if title.len() == 0 {
        Some("a new task needs a title."@)
    } else if all_digits(title) {
        Some(
            title
                + " cannot be a title — ids look like that, so nothing could refer to it."@,
        )
    } else if title.len() > MAX_TITLE_LENGTH {
        Some(
            "the title is "@ + decimal_of(title.len()) + " characters; titles must be at most "@
                + decimal_of(MAX_TITLE_LENGTH as nat) + ". Put detail in body."@,
        )
    } else {
        None
    }
}

/// What makes a title impossible, or nothing.
pub fn title_problem(title: &str) -> (problem: Option<String>)
    ensures
        maybe(problem) == problem_with(title@),
{
    let chars = chars_of(title);
    let length: usize = chars.len();
    if length == 0 {
        return Some("a new task needs a title.".to_string());
    }
    if is_all_digits(title) {
        let mut problem = title.to_string();
        problem.append(
            " cannot be a title — ids look like that, so nothing could refer to it.",
        );
        return Some(problem);
    }
    if length > MAX_TITLE_LENGTH {
        let mut problem = "the title is ".to_string();
        problem.append(decimal(length as u64).as_str());
        problem.append(" characters; titles must be at most ");
        problem.append(decimal(MAX_TITLE_LENGTH as u64).as_str());
        problem.append(". Put detail in body.");
        return Some(problem);
    }
    None
}

/// The first white space is where no earlier character is white space.
proof fn space_found(s: Seq<char>, k: int)
    requires
        0 <= k <= s.len(),
        forall|j: int| 0 <= j < k ==> !space(#[trigger] s[j]),
        k == s.len() || space(s[k]),
    ensures
        space_at(s) == k,
    decreases s.len(),
{
    if k > 0 {
        assert(!space(s[0]));
        assert forall|j: int| 0 <= j < k - 1 implies !space(#[trigger] s.skip(1)[j]) by {
            assert(s.skip(1)[j] == s[j + 1]);
        }
        space_found(s.skip(1), k - 1);
    }
}

/// A number among the ids is at most the highest.
pub proof fn highest_bounds(tasks: Seq<TaskModel>, i: int)
    requires
        0 <= i < tasks.len(),
        number_of(tasks[i].id) is Some,
    ensures
        number_of(tasks[i].id)->0 <= highest(tasks),
    decreases tasks.len(),
{
    if i < tasks.len() - 1 {
        highest_bounds(tasks.drop_last(), i);
    }
}

impl Ledger {
    /// Open work is what arms the continuation check.
    pub fn outstanding(&self) -> (rows: Vec<&Task>)
        ensures
            referred(rows@) == open_tasks(self.model().tasks),
    {
        let mut rows: Vec<&Task> = Vec::new();
        let ghost tasks = self.model().tasks;
        let ghost keep = |task: TaskModel| !terminal(task);
        let mut i: usize = 0;
        assert(tasks.take(0) == Seq::<TaskModel>::empty());
        reveal(Seq::filter);
        while i < self.tasks.len()
            invariant
                i <= self.tasks@.len(),
                tasks == self.model().tasks,
                keep == (|task: TaskModel| !terminal(task)),
                referred(rows@) == tasks.take(i as int).filter(keep),
            decreases self.tasks@.len() - i,
        {
            proof {
                filter_step(tasks, keep, i as int);
            }
            let ghost before = rows@;
            if !self.tasks[i].terminal() {
                rows.push(&self.tasks[i]);
                assert(referred(rows@) == referred(before).push(tasks[i as int]));
            }
            i += 1;
        }
        assert(tasks.take(tasks.len() as int) == tasks);
        rows
    }

    /// How many tasks stand in each state.
    pub fn counts(&self) -> (tally: Tally)
        ensures
            forall|state: View| #[trigger] tally.count(state) == counted(self.model(), state),
    {
        let mut tally = Tally { ready: 0, active: 0, blocked: 0, done: 0, cancelled: 0 };
        let ghost tasks = self.model().tasks;
        let mut i: usize = 0;
        assert(tasks.take(0) == Seq::<TaskModel>::empty());
        reveal(Seq::filter);
        while i < self.tasks.len()
            invariant
                i <= self.tasks@.len(),
                tasks == self.model().tasks,
                forall|state: View| #[trigger]
                    tally.count(state) == tasks.take(i as int).filter(
                        |task: TaskModel| state_of(tasks, task) == state,
                    ).len(),
                forall|state: View| #[trigger] tally.count(state) <= i,
            decreases self.tasks@.len() - i,
        {
            proof {
                filter_step(tasks, |task: TaskModel| state_of(tasks, task) == View::Ready, i as int);
                filter_step(
                    tasks,
                    |task: TaskModel| state_of(tasks, task) == View::Active,
                    i as int,
                );
                filter_step(
                    tasks,
                    |task: TaskModel| state_of(tasks, task) == View::Blocked,
                    i as int,
                );
                filter_step(tasks, |task: TaskModel| state_of(tasks, task) == View::Done, i as int);
                filter_step(
                    tasks,
                    |task: TaskModel| state_of(tasks, task) == View::Cancelled,
                    i as int,
                );
                assert(tally.count(View::Ready) <= i && tally.count(View::Active) <= i
                    && tally.count(View::Blocked) <= i && tally.count(View::Done) <= i
                    && tally.count(View::Cancelled) <= i);
            }
            let ghost before = tally;
            let view = self.view(&self.tasks[i]);
            match view.state {
                View::Ready => {
                    tally.ready = tally.ready + 1;
                },
                View::Active => {
                    tally.active = tally.active + 1;
                },
                View::Blocked => {
                    tally.blocked = tally.blocked + 1;
                },
                View::Done => {
                    tally.done = tally.done + 1;
                },
                View::Cancelled => {
                    tally.cancelled = tally.cancelled + 1;
                },
            }
            proof {
                assert forall|state: View| #[trigger] tally.count(state) == tasks.take(
                    i + 1,
                ).filter(|task: TaskModel| state_of(tasks, task) == state).len() && tally.count(
                    state,
                ) <= i + 1 by {
                    assert(before.count(state) == tasks.take(i as int).filter(
                        |task: TaskModel| state_of(tasks, task) == state,
                    ).len());
                    filter_step(
                        tasks,
                        |task: TaskModel| state_of(tasks, task) == state,
                        i as int,
                    );
                }
            }
            i += 1;
        }
        assert(tasks.take(tasks.len() as int) == tasks);
        tally
    }

    /// The summary shared by context snapshots and tool acknowledgements.
    pub fn summary(&self) -> (line: String)
        ensures
            line@ == summary_of(self.model()),
    {
        let tally = self.counts();
        let active: usize = tally.number(View::Active);
        let free: usize = self.parallelism.saturating_sub(active);
        let mut parts: Vec<String> = Vec::new();
        let mut part = decimal(active as u64);
        part.append(" active");
        parts.push(part);
        if self.parallelism > 1 {
            let mut part = decimal(free as u64);
            part.append(" of ");
            part.append(decimal(self.parallelism as u64).as_str());
            part.append(" slots free");
            parts.push(part);
        }
        let mut part = decimal(tally.number(View::Ready) as u64);
        part.append(" ready");
        parts.push(part);
        if tally.number(View::Blocked) > 0 {
            let mut part = decimal(tally.number(View::Blocked) as u64);
            part.append(" blocked");
            parts.push(part);
        }
        if tally.number(View::Done) > 0 {
            let mut part = decimal(tally.number(View::Done) as u64);
            part.append(" done");
            parts.push(part);
        }
        assert(texts(parts@) =~= summary_parts(self.model()));
        join(&parts, " · ")
    }

    /// The largest number among the ids that are numbers, or zero.
    pub(crate) fn highest_id(&self) -> (n: u64)
        ensures
            n == highest(self.model().tasks),
    {
        let mut top: u64 = 0;
        let mut i: usize = 0;
        let ghost tasks = self.model().tasks;
        while i < self.tasks.len()
            invariant
                i <= self.tasks@.len(),
                tasks == self.model().tasks,
                top == highest(tasks.take(i as int)),
            decreases self.tasks@.len() - i,
        {
            assert(tasks.take(i + 1).drop_last() == tasks.take(i as int));
            assert(tasks.take(i + 1).last() == tasks[i as int]);
            if let Some(n) = parse_number(self.tasks[i].id.as_str()) {
                if n > top {
                    top = n;
                }
            }
            i += 1;
        }
        assert(tasks.take(tasks.len() as int) == tasks);
        top
    }

    /// The number of the next new task.
    pub(crate) fn next_id_number(&self) -> (n: u64)
        requires
            highest(self.model().tasks) < u64::MAX,
        ensures
            n == highest(self.model().tasks) + 1,
    {
        self.highest_id() + 1
    }

    /// The id of the next new task.
    pub(crate) fn next_id(&self) -> (id: String)
        requires
            highest(self.model().tasks) < u64::MAX,
        ensures
            id@ == decimal_of(highest(self.model().tasks) + 1),
    {
        decimal(self.next_id_number())
    }

    /// The tasks whose titles match a text.
    pub(crate) fn titled(&self, reference: &str) -> (rows: Vec<&Task>)
        ensures
            referred(rows@) == titled(self.model().tasks, reference@),
    {
        let wanted = fold(reference);
        let mut rows: Vec<&Task> = Vec::new();
        let ghost tasks = self.model().tasks;
        let ghost keep = |task: TaskModel| folded(task.title) == folded(reference@);
        let mut i: usize = 0;
        assert(tasks.take(0) == Seq::<TaskModel>::empty());
        reveal(Seq::filter);
        while i < self.tasks.len()
            invariant
                i <= self.tasks@.len(),
                tasks == self.model().tasks,
                wanted@ == folded(reference@),
                keep == (|task: TaskModel| folded(task.title) == folded(reference@)),
                referred(rows@) == tasks.take(i as int).filter(keep),
            decreases self.tasks@.len() - i,
        {
            proof {
                filter_step(tasks, keep, i as int);
            }
            let ghost before = rows@;
            let folded_title = fold(self.tasks[i].title.as_str());
            if same(folded_title.as_str(), wanted.as_str()) {
                rows.push(&self.tasks[i]);
                assert(referred(rows@) == referred(before).push(tasks[i as int]));
            }
            i += 1;
        }
        assert(tasks.take(tasks.len() as int) == tasks);
        rows
    }

    /// The task that a reference names: by id, or by title. Id wins; among tasks sharing a title
    /// the live one wins, so a reference written now points at the work still to do.
    pub fn resolve(&self, reference: &str) -> (task: Option<&Task>)
        ensures
            seen(task) == resolved(self.model().tasks, reference@),
    {
        let wanted = self.normalized_reference(reference);
        if let Some(task) = self.find_by_id(wanted.as_str()) {
            return Some(task);
        }
        let named = self.titled(wanted.as_str());
        preferred_of(&named)
    }

    /// The id or title that a reference means.
    pub(crate) fn normalized_reference(&self, reference: &str) -> (wanted: String)
        ensures
            wanted@ == normalized(self.model().tasks, reference@),
    {
        let wanted = trim(reference);
        let chars = chars_of(wanted.as_str());
        let mut k: usize = 0;
        while k < chars.len() && !is_space(chars[k])
            invariant
                k <= chars@.len(),
                forall|j: int| 0 <= j < k ==> !space(#[trigger] chars@[j]),
            decreases chars@.len() - k,
        {
            k += 1;
        }
        proof {
            space_found(wanted@, k as int);
        }
        if k < chars.len() {
            let head = text_of(&chars, 0, k);
            let rest = text_of(&chars, k + 1, chars.len());
            let rest = trim(rest.as_str());
            proof {
                position_iff(self.model().tasks, head@);
                assert(head@ == wanted@.take(k as int));
                assert(chars@.subrange(k + 1, chars@.len() as int) == wanted@.skip(k + 1));
            }
            if is_all_digits(head.as_str()) && !rest.as_str().is_empty() && self.find_by_id(
                head.as_str(),
            ).is_some() {
                return head;
            }
        }
        wanted
    }
}

/// The first open task, or else the first.
pub(crate) fn preferred_of<'a>(named: &Vec<&'a Task>) -> (task: Option<&'a Task>)
    ensures
        seen(task) == preferred(referred(named@)),
{
    let ghost tasks = referred(named@);
    let ghost keep = |task: TaskModel| !terminal(task);
    let mut i: usize = 0;
    assert(tasks.take(0) == Seq::<TaskModel>::empty());
    reveal(Seq::filter);
    while i < named.len()
        invariant
            i <= named@.len(),
            tasks == referred(named@),
            keep == (|task: TaskModel| !terminal(task)),
            tasks.take(i as int).filter(keep).len() == 0,
        decreases named@.len() - i,
    {
        proof {
            filter_step(tasks, keep, i as int);
        }
        if !named[i].terminal() {
            proof {
                Seq::filter_distributes_over_add(tasks.take(i + 1), tasks.skip(i + 1), keep);
                assert(tasks.take(i + 1) + tasks.skip(i + 1) == tasks);
            }
            return Some(named[i]);
        }
        i += 1;
    }
    assert(tasks.take(tasks.len() as int) == tasks);
    if named.len() > 0 {
        Some(named[0])
    } else {
        None
    }
}

} // verus!
