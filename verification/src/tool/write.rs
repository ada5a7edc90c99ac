//! A write: a batch of task changes and a pause, and what the caller is told of it.

use vstd::prelude::*;
use vstd::string::StringExecFns;
use vstd::view::View as _;

use crate::details;
use crate::details::ascii_bytes;
use crate::details::first_page_leaves_room;
use crate::details::fitting_close;
use crate::details::page_count;
use crate::details::page_text;
use crate::ledger::laws::batch_changes_tasks_only;
use crate::ledger::batch::entries_of;
use crate::ledger::batch::AbsorptionModel;
use crate::ledger::batch::Applied;
use crate::ledger::batch::AppliedModel;
use crate::ledger::batch::DivisionModel;
use crate::ledger::batch::Entry;
use crate::ledger::batch::EntryModel;
use crate::ledger::batch::Outcome;
use crate::ledger::batch::OutcomeModel;
use crate::ledger::model::referred;
use crate::ledger::model::Ledger;
use crate::ledger::model::LedgerModel;
use crate::ledger::model::Status;
use crate::ledger::model::Task;
use crate::ledger::model::TaskModel;
use crate::ledger::query::filter_step;
use crate::ledger::query::find;
use crate::ledger::query::open_tasks;
use crate::ledger::query::resolved;
use crate::ledger::query::state_of;
use crate::ledger::query::summary_of;
use crate::ledger::query::titled_id;
use crate::ledger::query::View;
use crate::ledger::render::fitting;
use crate::ledger::render::recall_of;
use crate::ledger::render::render_recall;
use crate::ledger::render::CONTEXT_BYTES;
use crate::ledger::write::draft_of;
use crate::ledger::write::has_room;
use crate::ledger::write::upserted;
use crate::presentation::plan;
use crate::presentation::plan_of;
use crate::presentation::same_plan;
use crate::presentation::Plan;
use crate::presentation::PlanModel;
use crate::table::listed;
use crate::table::placed;
use crate::table::Table;
use crate::text::byte_count;
use crate::text::bytes_concat;
use crate::text::bytes_of;
use crate::text::copy_maybe;
use crate::text::copy_texts;
use crate::text::holds;
use crate::text::join;
use crate::text::joined;
use crate::text::maybe;
use crate::text::same;
use crate::text::same_maybe;
use crate::text::texts;
use crate::tool::recall::values_in;
use crate::tool::recall::values_of;

verus! {

/// What a write came to, before the caller is told.
#[derive(Debug, PartialEq, Eq)]
pub struct Written {
    /// The plan to show, where it is another one than before.
    pub plan_update: Option<Plan>,
    pub errors: Vec<String>,
    pub summary_line: String,
    pub pause_line: Option<String>,
    /// The complete records of the tasks that were started, under their ids.
    pub activated: Table<String>,
    /// The ids of a refused batch that name nothing here, in a session that has a parent.
    pub attempted_unknown: Vec<String>,
}

/// What a write came to, with its texts as sequences of characters.
#[verifier::ext_equal]
pub struct WrittenModel {
    pub plan_update: Option<PlanModel>,
    pub errors: Seq<Seq<char>>,
    pub summary_line: Seq<char>,
    pub pause_line: Option<Seq<char>>,
    pub activated: Seq<(Seq<char>, Seq<char>)>,
    pub attempted_unknown: Seq<Seq<char>>,
}

impl vstd::view::View for Written {
    type V = WrittenModel;

    open spec fn view(&self) -> WrittenModel {
        WrittenModel {
            plan_update: match self.plan_update {
                Some(plan) => Some(plan@),
                None => None,
            },
            errors: texts(self.errors@),
            summary_line: self.summary_line@,
            pause_line: maybe(self.pause_line),
            activated: self.activated@,
            attempted_unknown: texts(self.attempted_unknown@),
        }
    }
}

/// How a task stood before a write.
#[derive(Clone, Copy, Debug, PartialEq, Eq)]
pub struct Prior {
    pub status: Status,
    pub state: View,
}

/// How the last task with this id stood.
pub open spec fn prior_of(plan: Seq<TaskModel>, rows: Seq<TaskModel>, id: Seq<char>) -> Option<
    Prior,
>
    decreases rows.len(),
{
    if rows.len() == 0 {
        None
    } else if rows.last().id == id {
        Some(Prior { status: rows.last().status, state: state_of(plan, rows.last()) })
    } else {
        prior_of(plan, rows.drop_last(), id)
    }
}

/// Why a pause is refused: there is nothing left to pause.
pub open spec fn pause_refused(applied: AppliedModel, tasks: Seq<TaskModel>, pause: Option<
    Seq<char>,
>) -> bool {
    applied.errors.len() == 0 && pause is Some && open_tasks(tasks).len() == 0
}

/// The pause after a write: the reason it gives; none where it resumes or changes a task.
pub open spec fn next_pause(
    before: Option<Seq<char>>,
    applied: AppliedModel,
    tasks: Seq<TaskModel>,
    pausing: bool,
    pause: Option<Seq<char>>,
) -> Option<Seq<char>> {
    if applied.errors.len() > 0 || pause_refused(applied, tasks, pause) {
        before
    } else if pausing && pause is Some {
        pause
    } else if pausing || applied.changed {
        None
    } else {
        before
    }
}

/// The ids that name nothing among those that entries give.
pub open spec fn unknown_ids(tasks: Seq<TaskModel>, entries: Seq<EntryModel>) -> Seq<Seq<char>>
    decreases entries.len(),
{
    if entries.len() == 0 {
        Seq::empty()
    } else {
        let before = unknown_ids(tasks, entries.drop_last());
        match entries.last().id {
            Some(id) => if resolved(tasks, id) is None {
                before.push(id)
            } else {
                before
            },
            None => before,
        }
    }
}

/// The task that an outcome stands for.
pub open spec fn taken_task(outcome: OutcomeModel) -> Option<Seq<char>> {
    if outcome.refused {
        None
    } else {
        outcome.task
    }
}

/// Some entry was taken.
pub open spec fn any_taken(outcomes: Seq<OutcomeModel>) -> bool {
    exists|i: int| 0 <= i < outcomes.len() && taken_task(#[trigger] outcomes[i]) is Some
}

/// What a write did to tasks.
#[verifier::ext_equal]
pub struct Changes {
    pub added: Seq<Seq<char>>,
    pub updated: Seq<Seq<char>>,
    pub finished: Seq<Seq<char>>,
    pub activated: Seq<(Seq<char>, Seq<char>)>,
}

/// A list with an id at the end, where it is to go there and is not there yet.
pub open spec fn with_new(list: Seq<Seq<char>>, id: Seq<char>, wanted: bool) -> Seq<Seq<char>> {
    if wanted && !list.contains(id) {
        list.push(id)
    } else {
        list
    }
}

/// What an outcome did to its task.
pub open spec fn changes_with(
    before: Changes,
    prior: Option<Prior>,
    tasks: Seq<TaskModel>,
    task: TaskModel,
    id: Seq<char>,
    outcome: OutcomeModel,
) -> Changes {
    let adds = outcome.created && !before.added.contains(id);
    let finishes = task.status == Status::Done && (match prior {
        Some(prior) => prior.status != Status::Done,
        None => true,
    });
    let starts = state_of(tasks, task) == View::Active && (match prior {
        Some(prior) => prior.state != View::Active,
        None => true,
    });
    Changes {
        added: with_new(before.added, id, outcome.created),
        updated: with_new(before.updated, id, !adds && outcome.changed),
        finished: with_new(before.finished, id, finishes),
        activated: if starts && !listed(before.activated, id) {
            placed(before.activated, id, recall_of(tasks, task, Seq::empty()))
        } else {
            before.activated
        },
    }
}

/// What the first `n` outcomes did to tasks.
pub open spec fn changes_of(
    prior: Seq<TaskModel>,
    tasks: Seq<TaskModel>,
    outcomes: Seq<OutcomeModel>,
    n: nat,
) -> Changes
    decreases n,
{
    if n == 0 {
        Changes {
            added: Seq::empty(),
            updated: Seq::empty(),
            finished: Seq::empty(),
            activated: Seq::empty(),
        }
    } else {
        let before = changes_of(prior, tasks, outcomes, (n - 1) as nat);
        match taken_task(outcomes[n - 1]) {
            None => before,
            Some(id) => match find(tasks, id) {
                None => before,
                Some(task) => changes_with(
                    before,
                    prior_of(prior, prior, id),
                    tasks,
                    task,
                    id,
                    outcomes[n - 1],
                ),
            },
        }
    }
}

/// The ids and titles of the tasks that ids name.
pub open spec fn names_of(tasks: Seq<TaskModel>, ids: Seq<Seq<char>>) -> Seq<Seq<char>>
    decreases ids.len(),
{
    if ids.len() == 0 {
        Seq::empty()
    } else {
        let before = names_of(tasks, ids.drop_last());
        match find(tasks, ids.last()) {
            Some(task) => before.push(titled_id(task)),
            None => before,
        }
    }
}

/// The ids and titles of the tasks that ids name, on one line.
pub open spec fn list_of(tasks: Seq<TaskModel>, ids: Seq<Seq<char>>) -> Seq<char> {
    joined(names_of(tasks, ids), ", "@)
}

/// A part that names tasks, where there are any to name.
pub open spec fn naming_part(lead: Seq<char>, tasks: Seq<TaskModel>, ids: Seq<Seq<char>>) -> Seq<
    Seq<char>,
> {
    if ids.len() > 0 {
        seq![lead + list_of(tasks, ids)]
    } else {
        Seq::empty()
    }
}

/// An id that another part of the summary names.
pub open spec fn detailed(applied: AppliedModel, changes: Changes, id: Seq<char>) -> bool {
    ||| changes.added.contains(id)
    ||| exists|k: int| 0 <= k < applied.divided.len() && (#[trigger] applied.divided[k]).task == id
    ||| exists|k: int|
        0 <= k < applied.merged.len() && (#[trigger] applied.merged[k]).survivor == id
    ||| changes.finished.contains(id)
    ||| exists|k: int|
        0 <= k < changes.activated.len() && (#[trigger] changes.activated[k]).0 == id
}

/// The updated tasks that no other part of the summary names.
pub open spec fn merely_updated(applied: AppliedModel, changes: Changes) -> Seq<Seq<char>> {
    changes.updated.filter(|id: Seq<char>| !detailed(applied, changes, id))
}

/// How the summary tells divisions.
pub open spec fn division_parts(tasks: Seq<TaskModel>, divided: Seq<DivisionModel>) -> Seq<
    Seq<char>,
> {
    Seq::new(
        divided.len(),
        |i: int| "split into "@ + list_of(tasks, seq![divided[i].task] + divided[i].into),
    )
}

/// How the summary tells merges.
pub open spec fn merge_parts(tasks: Seq<TaskModel>, merged: Seq<AbsorptionModel>) -> Seq<
    Seq<char>,
> {
    Seq::new(
        merged.len(),
        |i: int|
            "merged "@ + list_of(tasks, merged[i].absorbed) + " into "@ + list_of(
                tasks,
                seq![merged[i].survivor],
            ),
    )
}

/// A part that is there or not.
pub open spec fn part_if(wanted: bool, text: Seq<char>) -> Seq<Seq<char>> {
    if wanted {
        seq![text]
    } else {
        Seq::empty()
    }
}

/// The parts of the line that sums up a write.
pub open spec fn write_parts(
    ledger: LedgerModel,
    applied: AppliedModel,
    changes: Changes,
    any_entry: bool,
    any_error: bool,
) -> Seq<Seq<char>> {
    let tasks = ledger.tasks;
    let taken = any_taken(applied.outcomes);
    naming_part("added "@, tasks, changes.added) + naming_part(
        "updated "@,
        tasks,
        merely_updated(applied, changes),
    ) + part_if(any_entry && !taken && !any_error, "nothing taken"@) + part_if(
        any_entry && taken && !applied.changed,
        "nothing changed"@,
    ) + division_parts(tasks, applied.divided) + merge_parts(tasks, applied.merged) + naming_part(
        "done "@,
        tasks,
        changes.finished,
    ) + seq![summary_of(ledger)]
}

/// How a write tells the pause.
pub open spec fn pause_line_of(pause: Option<Seq<char>>) -> Seq<char> {
    match pause {
        Some(reason) => "Paused: "@ + reason,
        None => "Resumed."@,
    }
}

/// A write: the ledger after it, what it came to, and whether there is anything to store.
pub open spec fn written(
    ledger: LedgerModel,
    spawned: bool,
    entries: Seq<EntryModel>,
    pausing: bool,
    pause: Option<Seq<char>>,
    now: i64,
) -> (LedgerModel, WrittenModel, bool) {
    let draft = upserted(ledger, entries, now);
    let applied = draft.applied;
    let tasks = draft.ledger.tasks;
    let after = LedgerModel {
        pause: next_pause(draft.ledger.pause, applied, tasks, pausing, pause),
        ..draft.ledger
    };
    let pause_changed = draft.ledger.pause != after.pause;
    let errors = if pause_refused(applied, tasks, pause) {
        applied.errors.push("No unfinished work to pause. Record the remaining tasks first."@)
    } else {
        applied.errors
    };
    let accepted = errors.len() == 0;
    let changes = changes_of(ledger.tasks, tasks, applied.outcomes, applied.outcomes.len());
    let changed = accepted && (applied.changed || pause_changed);
    (
        after,
        WrittenModel {
            plan_update: if changed && plan_of(ledger) != plan_of(after) {
                Some(plan_of(after))
            } else {
                None
            },
            errors,
            summary_line: joined(
                write_parts(after, applied, changes, entries.len() > 0, !accepted),
                " · "@,
            ),
            pause_line: if accepted && (pausing || pause_changed) {
                Some(pause_line_of(after.pause))
            } else {
                None
            },
            activated: changes.activated,
            attempted_unknown: if spawned && !accepted {
                unknown_ids(tasks, entries)
            } else {
                Seq::empty()
            },
        },
        changed,
    )
}

/// A refused write stores nothing, and a write that stores something was accepted whole.
pub proof fn refused_write_stores_nothing(
    ledger: LedgerModel,
    spawned: bool,
    entries: Seq<EntryModel>,
    pausing: bool,
    pause: Option<Seq<char>>,
    now: i64,
)
    ensures
        written(ledger, spawned, entries, pausing, pause, now).1.errors.len() > 0 ==> !written(
            ledger,
            spawned,
            entries,
            pausing,
            pause,
            now,
        ).2,
        upserted(ledger, entries, now).applied.errors.len() > 0 ==> written(
            ledger,
            spawned,
            entries,
            pausing,
            pause,
            now,
        ).0 == ledger,
{
}

/// A write that is accepted without a word on pausing clears the pause when it changes a task, and
/// leaves it when it changes nothing.
pub proof fn task_changes_clear_a_pause(
    ledger: LedgerModel,
    spawned: bool,
    entries: Seq<EntryModel>,
    now: i64,
)
    requires
        upserted(ledger, entries, now).applied.errors.len() == 0,
    ensures
        written(ledger, spawned, entries, false, None, now).0.pause == if upserted(
            ledger,
            entries,
            now,
        ).applied.changed {
            None
        } else {
            ledger.pause
        },
{
    batch_changes_tasks_only(ledger, entries, now);
}

/// The note of a task of the parent's ledger that a refused batch tried to change.
pub open spec fn parent_note(id: Seq<char>) -> Seq<char> {
    "#"@ + id
        + " is in the parent ledger. Child ledgers are separate: use recall [\"parent:"@ + id
        + "\"] to read it, then record child-local work here; a child cannot change its parent's tasks."@
}

/// The tasks of the parent's ledger that ids name, each once.
pub open spec fn parent_ids(parent: Seq<TaskModel>, ids: Seq<Seq<char>>) -> Seq<Seq<char>>
    decreases ids.len(),
{
    if ids.len() == 0 {
        Seq::empty()
    } else {
        let before = parent_ids(parent, ids.drop_last());
        match resolved(parent, ids.last()) {
            Some(task) => with_new(before, task.id, true),
            None => before,
        }
    }
}

/// The notes of tasks of the parent's ledger.
pub open spec fn parent_notes(parent: Option<Seq<TaskModel>>, ids: Seq<Seq<char>>) -> Seq<
    Seq<char>,
> {
    match parent {
        Some(parent) => {
            let found = parent_ids(parent, ids);
            Seq::new(found.len(), |i: int| parent_note(found[i]))
        },
        None => Seq::empty(),
    }
}

/// The longest feedback before the records of started tasks, in bytes.
pub const FEEDBACK_BYTES: usize = 1_024;

/// The lines that tell of a write.
pub open spec fn feedback_lines(write: WrittenModel, parent: Option<Seq<TaskModel>>) -> Seq<
    Seq<char>,
> {
    write.errors + parent_notes(parent, write.attempted_unknown) + part_if(
        write.errors.len() > 0,
        "No task entry changed because this batch is transactional."@,
    ) + seq![write.summary_line] + match write.pause_line {
        Some(line) => seq![line],
        None => Seq::empty(),
    }
}

/// What the caller is told of a write: its lines, and the first page of the complete records of
/// the tasks it started.
pub open spec fn feedback_of(write: WrittenModel, parent: Option<Seq<TaskModel>>) -> Seq<char> {
    let lines = joined(feedback_lines(write, parent), "\n"@);
    if write.activated.len() == 0 {
        lines
    } else {
        (if bytes_of(lines) > FEEDBACK_BYTES {
            fitting(lines, FEEDBACK_BYTES as int)
                + "\nWrite summary shortened; all task records are retained."@
        } else {
            lines
        }) + "\nStarting tasks. "@ + page_text(
            joined(values_of(write.activated), "\n\n"@),
            1,
        )
    }
}

/// What the caller is told of a write that starts tasks never takes more than the context budget: the
/// first page of the records leaves room for the lines that tell of the write.
pub proof fn starting_feedback_bounded(write: WrittenModel, parent: Option<Seq<TaskModel>>)
    requires
        write.activated.len() > 0,
        page_count(joined(values_of(write.activated), "\n\n"@)) < u64::MAX,
    ensures
        bytes_of(feedback_of(write, parent)) <= CONTEXT_BYTES,
{
    reveal_strlit("\nWrite summary shortened; all task records are retained.");
    reveal_strlit("\nStarting tasks. ");
    let lines = joined(feedback_lines(write, parent), "\n"@);
    let records = joined(values_of(write.activated), "\n\n"@);
    let short = "\nWrite summary shortened; all task records are retained."@;
    let start = "\nStarting tasks. "@;
    let head = if bytes_of(lines) > FEEDBACK_BYTES {
        fitting(lines, FEEDBACK_BYTES as int) + short
    } else {
        lines
    };
    fitting_close(lines, FEEDBACK_BYTES as int);
    bytes_concat(fitting(lines, FEEDBACK_BYTES as int), short);
    ascii_bytes(short);
    ascii_bytes(start);
    first_page_leaves_room(records);
    bytes_concat(head, start);
    bytes_concat(head + start, page_text(records, 1));
}

/// How the last task with this id stands.
fn standing(ledger: &Ledger, id: &str) -> (prior: Option<Prior>)
    ensures
        prior == prior_of(ledger.model().tasks, ledger.model().tasks, id@),
{
    let ghost tasks = ledger.model().tasks;
    let mut n: usize = ledger.tasks.len();
    assert(tasks.take(n as int) == tasks);
    while n > 0
        invariant
            n <= ledger.tasks@.len(),
            tasks == ledger.model().tasks,
            prior_of(tasks, tasks, id@) == prior_of(tasks, tasks.take(n as int), id@),
        decreases n,
    {
        assert(tasks.take(n as int).drop_last() == tasks.take(n - 1));
        assert(tasks.take(n as int).last() == tasks[n - 1]);
        if same(ledger.tasks[n - 1].id.as_str(), id) {
            return Some(
                Prior {
                    status: ledger.tasks[n - 1].status,
                    state: ledger.view(&ledger.tasks[n - 1]).state,
                },
            );
        }
        n -= 1;
    }
    None
}

/// The ids that name nothing among those that entries give.
fn find_unknown(ledger: &Ledger, entries: &Vec<Entry>) -> (ids: Vec<String>)
    ensures
        texts(ids@) == unknown_ids(ledger.model().tasks, entries_of(entries@)),
{
    let ghost all = entries_of(entries@);
    let mut ids: Vec<String> = Vec::new();
    let mut i: usize = 0;
    assert(texts(ids@) =~= unknown_ids(ledger.model().tasks, all.take(0)));
    while i < entries.len()
        invariant
            i <= entries@.len(),
            all == entries_of(entries@),
            texts(ids@) == unknown_ids(ledger.model().tasks, all.take(i as int)),
        decreases entries@.len() - i,
    {
        assert(all.take(i + 1).drop_last() == all.take(i as int));
        assert(all.take(i + 1).last() == entries@[i as int]@);
        let ghost before = ids@;
        if let Some(id) = &entries[i].id {
            if ledger.resolve(id.as_str()).is_none() {
                ids.push(id.clone());
                assert(texts(ids@) =~= texts(before).push(id@));
            }
        }
        i += 1;
    }
    assert(all.take(all.len() as int) == all);
    ids
}

/// What a write did to tasks, in executable form.
struct Effects {
    added: Vec<String>,
    updated: Vec<String>,
    finished: Vec<String>,
    activated: Table<String>,
}

impl Effects {
    spec fn changes(self) -> Changes {
        Changes {
            added: texts(self.added@),
            updated: texts(self.updated@),
            finished: texts(self.finished@),
            activated: self.activated@,
        }
    }

    /// Adds what an outcome did to its task.
    fn note(
        &mut self,
        prior: Option<Prior>,
        ledger: &Ledger,
        task: &Task,
        id: &str,
        outcome: &Outcome,
    )
        ensures
            final(self).changes() == changes_with(
                old(self).changes(),
                prior,
                ledger.model().tasks,
                task@,
                id@,
                outcome@,
            ),
    {
        let adds = outcome.created && !holds(&self.added, id);
        if adds {
            add_id(&mut self.added, id, true);
        } else {
            add_id(&mut self.updated, id, outcome.changed);
        }
        let was_done = match &prior {
            Some(prior) => prior.status == Status::Done,
            None => false,
        };
        let was_active = match &prior {
            Some(prior) => prior.state == View::Active,
            None => false,
        };
        add_id(&mut self.finished, id, task.status == Status::Done && !was_done);
        if ledger.view(task).state == View::Active && !was_active && self.activated.get(
            id,
        ).is_none() {
            let blank = String::new();
            let record = render_recall(ledger, task, blank.as_str());
            let _ = self.activated.insert(id.to_string(), record);
        }
        assert(self.changes() =~= changes_with(
            old(self).changes(),
            prior,
            ledger.model().tasks,
            task@,
            id@,
            outcome@,
        ));
    }
}

/// Adds an id where it is to go and is not there yet.
fn add_id(list: &mut Vec<String>, id: &str, wanted: bool)
    ensures
        texts(final(list)@) == with_new(texts(old(list)@), id@, wanted),
{
    let ghost before = list@;
    if wanted && !holds(list, id) {
        list.push(id.to_string());
        assert(texts(list@) =~= texts(before).push(id@));
    }
}

/// The outcomes that a list stands for.
pub open spec fn outcomes_of(list: Seq<Outcome>) -> Seq<OutcomeModel> {
    Seq::new(list.len(), |i: int| list[i]@)
}

/// What outcomes did to tasks.
fn effects(before: &Ledger, ledger: &Ledger, outcomes: &Vec<Outcome>) -> (r: Effects)
    ensures
        r.changes() == changes_of(
            before.model().tasks,
            ledger.model().tasks,
            outcomes_of(outcomes@),
            outcomes@.len(),
        ),
{
    let ghost all = outcomes_of(outcomes@);
    let mut r = Effects {
        added: Vec::new(),
        updated: Vec::new(),
        finished: Vec::new(),
        activated: Table::new(),
    };
    let mut i: usize = 0;
    assert(r.changes() =~= changes_of(before.model().tasks, ledger.model().tasks, all, 0));
    while i < outcomes.len()
        invariant
            i <= outcomes@.len(),
            all == outcomes_of(outcomes@),
            r.changes() == changes_of(
                before.model().tasks,
                ledger.model().tasks,
                all,
                i as nat,
            ),
        decreases outcomes@.len() - i,
    {
        assert(all[i as int] == outcomes@[i as int]@);
        if !outcomes[i].refused {
            if let Some(id) = &outcomes[i].task {
                if let Some(task) = ledger.find_by_id(id.as_str()) {
                    let prior = standing(before, id.as_str());
                    r.note(prior, ledger, task, id.as_str(), &outcomes[i]);
                }
            }
        }
        i += 1;
    }
    r
}

/// Whether some entry was taken.
fn is_any_taken(outcomes: &Vec<Outcome>) -> (r: bool)
    ensures
        r == any_taken(outcomes_of(outcomes@)),
{
    let ghost all = outcomes_of(outcomes@);
    let mut i: usize = 0;
    while i < outcomes.len()
        invariant
            i <= outcomes@.len(),
            all == outcomes_of(outcomes@),
            forall|j: int| 0 <= j < i ==> taken_task(#[trigger] all[j]) is None,
        decreases outcomes@.len() - i,
    {
        if !outcomes[i].refused && outcomes[i].task.is_some() {
            assert(taken_task(all[i as int]) is Some);
            return true;
        }
        i += 1;
    }
    false
}

/// The ids and titles of the tasks that ids name, on one line.
fn list_names(ledger: &Ledger, ids: &Vec<String>) -> (r: String)
    ensures
        r@ == list_of(ledger.model().tasks, texts(ids@)),
{
    let ghost all = texts(ids@);
    let mut names: Vec<String> = Vec::new();
    let mut i: usize = 0;
    assert(texts(names@) =~= names_of(ledger.model().tasks, all.take(0)));
    while i < ids.len()
        invariant
            i <= ids@.len(),
            all == texts(ids@),
            texts(names@) == names_of(ledger.model().tasks, all.take(i as int)),
        decreases ids@.len() - i,
    {
        assert(all.take(i + 1).drop_last() == all.take(i as int));
        let ghost before = names@;
        if let Some(task) = ledger.find_by_id(ids[i].as_str()) {
            let mut line = task.id.clone();
            line.append(" ");
            line.append(task.title.as_str());
            names.push(line);
            assert(texts(names@) =~= texts(before).push(line@));
        }
        i += 1;
    }
    assert(all.take(all.len() as int) == all);
    join(&names, ", ")
}

/// Adds a part that names tasks, where there are any to name.
fn add_naming(parts: &mut Vec<String>, lead: &str, ledger: &Ledger, ids: &Vec<String>)
    ensures
        texts(final(parts)@) == texts(old(parts)@) + naming_part(
            lead@,
            ledger.model().tasks,
            texts(ids@),
        ),
{
    let ghost start = texts(parts@);
    assert(texts(ids@).len() == ids@.len());
    if ids.len() > 0 {
        let mut part = lead.to_string();
        part.append(list_names(ledger, ids).as_str());
        parts.push(part);
        assert(texts(parts@) =~= start + seq![part@]);
    } else {
        assert(start + Seq::<Seq<char>>::empty() =~= start);
    }
}

/// Adds a part that is there or not.
fn add_if(parts: &mut Vec<String>, wanted: bool, text: &str)
    ensures
        texts(final(parts)@) == texts(old(parts)@) + part_if(wanted, text@),
{
    let ghost start = texts(parts@);
    if wanted {
        parts.push(text.to_string());
        assert(texts(parts@) =~= start + seq![text@]);
    } else {
        assert(start + Seq::<Seq<char>>::empty() =~= start);
    }
}

/// Whether another part of the summary names an id.
fn is_detailed(applied: &Applied, effects: &Effects, id: &str) -> (r: bool)
    ensures
        r == detailed(applied@, effects.changes(), id@),
{
    let ghost changes = effects.changes();
    if holds(&effects.added, id) || holds(&effects.finished, id) {
        return true;
    }
    let mut k: usize = 0;
    while k < applied.divided.len()
        invariant
            k <= applied.divided@.len(),
            forall|j: int| 0 <= j < k ==> (#[trigger] applied@.divided[j]).task != id@,
        decreases applied.divided@.len() - k,
    {
        assert(applied@.divided[k as int] == applied.divided@[k as int]@);
        if same(applied.divided[k].task.as_str(), id) {
            return true;
        }
        k += 1;
    }
    let mut k: usize = 0;
    while k < applied.merged.len()
        invariant
            k <= applied.merged@.len(),
            forall|j: int| 0 <= j < k ==> (#[trigger] applied@.merged[j]).survivor != id@,
        decreases applied.merged@.len() - k,
    {
        assert(applied@.merged[k as int] == applied.merged@[k as int]@);
        if same(applied.merged[k].survivor.as_str(), id) {
            return true;
        }
        k += 1;
    }
    let count: usize = effects.activated.len();
    let mut k: usize = 0;
    while k < count
        invariant
            k <= count,
            count == effects.activated@.len(),
            changes == effects.changes(),
            changes.activated == effects.activated@,
            forall|j: int| 0 <= j < k ==> (#[trigger] changes.activated[j]).0 != id@,
        decreases count - k,
    {
        let key = effects.activated.key(k);
        if same(key.as_str(), id) {
            assert(changes.activated[k as int].0 == id@);
            return true;
        }
        k += 1;
    }
    false
}

/// The updated tasks that no other part of the summary names.
fn only_updated(applied: &Applied, effects: &Effects) -> (ids: Vec<String>)
    ensures
        texts(ids@) == merely_updated(applied@, effects.changes()),
{
    let ghost changes = effects.changes();
    let ghost all = changes.updated;
    let ghost keep = |id: Seq<char>| !detailed(applied@, changes, id);
    let mut ids: Vec<String> = Vec::new();
    let mut i: usize = 0;
    assert(all.take(0) == Seq::<Seq<char>>::empty());
    reveal(Seq::filter);
    while i < effects.updated.len()
        invariant
            i <= effects.updated@.len(),
            changes == effects.changes(),
            all == texts(effects.updated@),
            keep == (|id: Seq<char>| !detailed(applied@, changes, id)),
            texts(ids@) == all.take(i as int).filter(keep),
        decreases effects.updated@.len() - i,
    {
        proof {
            filter_step(all, keep, i as int);
        }
        let ghost before = ids@;
        if !is_detailed(applied, effects, effects.updated[i].as_str()) {
            ids.push(effects.updated[i].clone());
            assert(texts(ids@) =~= texts(before).push(all[i as int]));
        }
        i += 1;
    }
    assert(all.take(all.len() as int) == all);
    ids
}

/// Adds how the summary tells divisions and merges.
fn add_structure(parts: &mut Vec<String>, ledger: &Ledger, applied: &Applied)
    ensures
        texts(final(parts)@) == texts(old(parts)@) + division_parts(
            ledger.model().tasks,
            applied@.divided,
        ) + merge_parts(ledger.model().tasks, applied@.merged),
{
    let ghost start = texts(parts@);
    let ghost tasks = ledger.model().tasks;
    let ghost splits = division_parts(tasks, applied@.divided);
    let ghost merges = merge_parts(tasks, applied@.merged);
    assert(start + splits.take(0) =~= start);
    let mut i: usize = 0;
    while i < applied.divided.len()
        invariant
            i <= applied.divided@.len(),
            tasks == ledger.model().tasks,
            splits == division_parts(tasks, applied@.divided),
            texts(parts@) == start + splits.take(i as int),
        decreases applied.divided@.len() - i,
    {
        let division = &applied.divided[i];
        let mut ids: Vec<String> = Vec::new();
        ids.push(division.task.clone());
        let mut into = copy_texts(&division.into);
        let ghost pieces = into@;
        let ghost held = ids@;
        ids.append(&mut into);
        assert(texts(ids@) =~= seq![division@.task] + division@.into) by {
            assert(texts(held + pieces) =~= texts(held) + texts(pieces));
        }
        let mut part = "split into ".to_string();
        part.append(list_names(ledger, &ids).as_str());
        let ghost before = parts@;
        parts.push(part);
        assert(splits[i as int] == part@);
        assert(texts(parts@) =~= texts(before).push(part@));
        assert((start + splits.take(i as int)).push(part@) =~= start + splits.take(i + 1));
        i += 1;
    }
    assert(splits.take(splits.len() as int) =~= splits);
    let ghost middle = texts(parts@);
    assert(middle + merges.take(0) =~= middle);
    let mut i: usize = 0;
    while i < applied.merged.len()
        invariant
            i <= applied.merged@.len(),
            tasks == ledger.model().tasks,
            merges == merge_parts(tasks, applied@.merged),
            texts(parts@) == middle + merges.take(i as int),
        decreases applied.merged@.len() - i,
    {
        let merge = &applied.merged[i];
        let mut one: Vec<String> = Vec::new();
        one.push(merge.survivor.clone());
        assert(texts(one@) =~= seq![merge@.survivor]);
        let mut part = "merged ".to_string();
        part.append(list_names(ledger, &merge.absorbed).as_str());
        part.append(" into ");
        part.append(list_names(ledger, &one).as_str());
        let ghost before = parts@;
        parts.push(part);
        assert(merges[i as int] == part@);
        assert(texts(parts@) =~= texts(before).push(part@));
        assert((middle + merges.take(i as int)).push(part@) =~= middle + merges.take(i + 1));
        i += 1;
    }
    assert(merges.take(merges.len() as int) =~= merges);
}

/// The line that sums up a write.
fn sum_up(
    ledger: &Ledger,
    applied: &Applied,
    effects: &Effects,
    any_entry: bool,
    any_error: bool,
) -> (line: String)
    ensures
        line@ == joined(
            write_parts(ledger.model(), applied@, effects.changes(), any_entry, any_error),
            " · "@,
        ),
{
    let ghost model = ledger.model();
    let ghost tasks = model.tasks;
    let ghost changes = effects.changes();
    let taken = is_any_taken(&applied.outcomes);
    assert(outcomes_of(applied.outcomes@) == applied@.outcomes);
    let mut parts: Vec<String> = Vec::new();
    assert(texts(parts@) + naming_part("added "@, tasks, changes.added) =~= naming_part(
        "added "@,
        tasks,
        changes.added,
    ));
    add_naming(&mut parts, "added ", ledger, &effects.added);
    let updated = only_updated(applied, effects);
    add_naming(&mut parts, "updated ", ledger, &updated);
    add_if(&mut parts, any_entry && !taken && !any_error, "nothing taken");
    add_if(&mut parts, any_entry && taken && !applied.changed, "nothing changed");
    add_structure(&mut parts, ledger, applied);
    add_naming(&mut parts, "done ", ledger, &effects.finished);
    let ghost start = texts(parts@);
    let summary = ledger.summary();
    parts.push(summary);
    assert(texts(parts@) =~= start + seq![summary@]);
    assert(texts(parts@) == write_parts(model, applied@, changes, any_entry, any_error));
    join(&parts, " · ")
}

/// Sets the pause after a batch. Says whether a pause was refused.
fn set_pause(ledger: &mut Ledger, applied: &Applied, pausing: bool, pause: &Option<String>) -> (refused:
    bool)
    ensures
        final(ledger).model() == (LedgerModel {
            pause: next_pause(
                old(ledger).model().pause,
                applied@,
                old(ledger).model().tasks,
                pausing,
                maybe(*pause),
            ),
            ..old(ledger).model()
        }),
        refused == pause_refused(applied@, old(ledger).model().tasks, maybe(*pause)),
{
    assert(texts(applied.errors@).len() == applied.errors@.len());
    if applied.errors.len() > 0 {
        return false;
    }
    let idle = {
        let open = ledger.outstanding();
        assert(referred(open@).len() == open@.len());
        open.len() == 0
    };
    if pause.is_some() && idle {
        return true;
    }
    if pausing && pause.is_some() {
        ledger.pause = copy_maybe(pause);
    } else if pausing || applied.changed {
        ledger.pause = None;
    }
    false
}

/// Applies a write where there are enough numbers for the tasks it creates, and otherwise gives
/// nothing and leaves the ledger as it was. Gives what it came to, and whether there is anything
/// to store.
pub fn write(
    ledger: &mut Ledger,
    spawned: bool,
    entries: &Vec<Entry>,
    pausing: bool,
    pause: &Option<String>,
    now: i64,
) -> (r: Option<(Written, bool)>)
    ensures
        r is Some == has_room(old(ledger).model(), entries_of(entries@), now),
        match r {
            Some(r) => (final(ledger).model(), r.0@, r.1) == written(
                old(ledger).model(),
                spawned,
                entries_of(entries@),
                pausing,
                maybe(*pause),
                now,
            ),
            None => final(ledger).model() == old(ledger).model(),
        },
{
    let ghost start = ledger.model();
    let before = ledger.clone();
    let previous_plan = plan(&before);
    let applied = match ledger.try_upsert(entries.as_slice(), now) {
        Some(applied) => applied,
        None => {
            return None;
        },
    };
    let ghost draft = upserted(start, entries_of(entries@), now);
    assert(draft == draft_of(*ledger, applied));
    let previous_pause = copy_maybe(&ledger.pause);
    let refused = set_pause(ledger, &applied, pausing, pause);
    let pause_changed = !same_maybe(&previous_pause, &ledger.pause);
    let mut errors = copy_texts(&applied.errors);
    if refused {
        let ghost held = errors@;
        errors.push("No unfinished work to pause. Record the remaining tasks first.".to_string());
        assert(texts(errors@) =~= texts(held).push(
            "No unfinished work to pause. Record the remaining tasks first."@,
        ));
    }
    assert(texts(errors@).len() == errors@.len());
    let accepted = errors.len() == 0;
    let attempted_unknown: Vec<String> = if spawned && !accepted {
        find_unknown(ledger, entries)
    } else {
        let none: Vec<String> = Vec::new();
        assert(texts(none@) =~= Seq::<Seq<char>>::empty());
        none
    };
    let effects = effects(&before, ledger, &applied.outcomes);
    assert(outcomes_of(applied.outcomes@) == applied@.outcomes);
    let summary_line = sum_up(ledger, &applied, &effects, entries.len() > 0, !accepted);
    let pause_line: Option<String> = if accepted && (pausing || pause_changed) {
        match &ledger.pause {
            Some(reason) => {
                let mut line = "Paused: ".to_string();
                line.append(reason.as_str());
                Some(line)
            },
            None => Some("Resumed.".to_string()),
        }
    } else {
        None
    };
    let changed = accepted && (applied.changed || pause_changed);
    let next_plan = plan(ledger);
    let plan_update: Option<Plan> = if changed && !same_plan(&previous_plan, &next_plan) {
        Some(next_plan)
    } else {
        None
    };
    Some(
        (
            Written {
                plan_update,
                errors,
                summary_line,
                pause_line,
                activated: effects.activated,
                attempted_unknown,
            },
            changed,
        ),
    )
}

/// The notes of tasks of the parent's ledger that ids name.
fn note_parents(parent: &Ledger, ids: &Vec<String>) -> (notes: Vec<String>)
    ensures
        texts(notes@) == parent_notes(Some(parent.model().tasks), texts(ids@)),
{
    let ghost all = texts(ids@);
    let ghost tasks = parent.model().tasks;
    let mut found: Vec<String> = Vec::new();
    let mut i: usize = 0;
    assert(texts(found@) =~= parent_ids(tasks, all.take(0)));
    while i < ids.len()
        invariant
            i <= ids@.len(),
            all == texts(ids@),
            tasks == parent.model().tasks,
            texts(found@) == parent_ids(tasks, all.take(i as int)),
        decreases ids@.len() - i,
    {
        assert(all.take(i + 1).drop_last() == all.take(i as int));
        if let Some(task) = parent.resolve(ids[i].as_str()) {
            add_id(&mut found, task.id.as_str(), true);
        }
        i += 1;
    }
    assert(all.take(all.len() as int) == all);
    let mut notes: Vec<String> = Vec::new();
    let mut i: usize = 0;
    while i < found.len()
        invariant
            i <= found@.len(),
            notes@.len() == i,
            forall|j: int| 0 <= j < i ==> (#[trigger] notes@[j])@ == parent_note(found@[j]@),
        decreases found@.len() - i,
    {
        let mut note = "#".to_string();
        note.append(found[i].as_str());
        note.append(
            " is in the parent ledger. Child ledgers are separate: use recall [\"parent:",
        );
        note.append(found[i].as_str());
        note.append(
            "\"] to read it, then record child-local work here; a child cannot change its parent's tasks.",
        );
        notes.push(note);
        i += 1;
    }
    assert(texts(notes@) =~= parent_notes(Some(tasks), all));
    notes
}

/// What the caller is told of a write, given the parent's ledger where it was read.
pub fn feedback(write: &Written, parent: Option<&Ledger>) -> (r: String)
    ensures
        r@ == feedback_of(
            write@,
            match parent {
                Some(ledger) => Some(ledger.model().tasks),
                None => None,
            },
        ),
{
    let mut lines = copy_texts(&write.errors);
    let ghost errors = texts(lines@);
    assert(errors.len() == lines@.len());
    let any_error = lines.len() > 0;
    if let Some(parent) = parent {
        let mut notes = note_parents(parent, &write.attempted_unknown);
        let ghost held = lines@;
        let ghost more = notes@;
        lines.append(&mut notes);
        assert(texts(held + more) =~= texts(held) + texts(more));
    } else {
        assert(errors + Seq::<Seq<char>>::empty() =~= errors);
    }
    add_if(&mut lines, any_error, "No task entry changed because this batch is transactional.");
    let ghost start = texts(lines@);
    lines.push(write.summary_line.clone());
    assert(texts(lines@) =~= start + seq![write.summary_line@]);
    if let Some(line) = &write.pause_line {
        lines.push(line.clone());
        assert(texts(lines@) =~= start + seq![write.summary_line@] + seq![line@]);
    } else {
        assert(texts(lines@) + Seq::<Seq<char>>::empty() =~= texts(lines@));
    }
    let mut out = join(&lines, "\n");
    if !write.activated.is_empty() {
        if byte_count(out.as_str()) > FEEDBACK_BYTES {
            out = crate::details::cut(out.as_str(), FEEDBACK_BYTES);
            out.append("\nWrite summary shortened; all task records are retained.");
        }
        out.append("\nStarting tasks. ");
        let records = join(&values_in(&write.activated), "\n\n");
        out.append(details::render(records.as_str(), 1).as_str());
    }
    out
}

} // verus!
