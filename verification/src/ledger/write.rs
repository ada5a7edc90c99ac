//! Writing the ledger: a batch of entries, applied in passes.
//!
//! First every task is created or found, so that a plan can name a task added later in the same
//! call; then fields change; then relations, once every task in the batch exists; and at the end
//! the plan is put in order and held to its limits.

use vstd::prelude::*;
use vstd::string::StringExecFns;
use vstd::view::View as _;

use crate::ledger::batch::entries_of;
use crate::ledger::batch::nothing;
use crate::ledger::batch::outcomes_for;
use crate::ledger::batch::untouched;
use crate::ledger::batch::Applied;
use crate::ledger::batch::AppliedModel;
use crate::ledger::batch::Division;
use crate::ledger::batch::DivisionModel;
use crate::ledger::batch::Entry;
use crate::ledger::batch::EntryModel;
use crate::ledger::batch::Outcome;
use crate::ledger::batch::OutcomeModel;
use crate::ledger::graph::cycle_of;
use crate::ledger::graph::ordered;
use crate::ledger::merge::absorbed_into;
use crate::ledger::model::findings_of;
use crate::ledger::model::referred;
use crate::ledger::model::status_named;
use crate::ledger::model::tasks_of;
use crate::ledger::model::terminal;
use crate::ledger::model::Finding;
use crate::ledger::model::FindingModel;
use crate::ledger::model::Ledger;
use crate::ledger::model::LedgerModel;
use crate::ledger::model::Status;
use crate::ledger::model::Task;
use crate::ledger::model::TaskModel;
use crate::ledger::query::filter_step;
use crate::ledger::query::find;
use crate::ledger::query::highest;
use crate::ledger::query::in_state;
use crate::ledger::query::open_tasks;
use crate::ledger::query::position;
use crate::ledger::query::preferred;
use crate::ledger::query::preferred_of;
use crate::ledger::query::problem_with;
use crate::ledger::query::resolved;
use crate::ledger::query::state_of;
use crate::ledger::query::title_problem;
use crate::ledger::query::titled;
use crate::ledger::query::unfinished;
use crate::ledger::query::View;
use crate::ledger::split::divided;
use crate::ledger::split::fresh_task;
use crate::ledger::split::ids_of;
use crate::ledger::split::new_task;
use crate::ledger::split::split_fits;
use crate::table::Duplicate;
use crate::text::decimal;
use crate::text::decimal_of;
use crate::text::fold;
use crate::text::folded;
use crate::text::holds;
use crate::text::join;
use crate::text::joined;
use crate::text::maybe;
use crate::text::name;
use crate::text::name_of;
use crate::text::same;
use crate::text::same_maybe;
use crate::text::texts;
use crate::text::trim;
use crate::text::trimmed;

verus! {

/// A ledger in the middle of a batch, and what came of the batch so far.
#[verifier::ext_equal]
pub struct Draft {
    pub ledger: LedgerModel,
    pub applied: AppliedModel,
}

/// How a message names an entry: by the id it gives, or by its place.
pub open spec fn place_of(entry: EntryModel, position: int) -> Seq<char> {
    match entry.id {
        Some(id) => "#"@ + id,
        None => "entry "@ + decimal_of((position + 1) as nat),
    }
}

/// The draft with a plan in place of the one it has.
pub open spec fn with_tasks(draft: Draft, tasks: Seq<TaskModel>) -> Draft {
    Draft { ledger: LedgerModel { tasks, ..draft.ledger }, ..draft }
}

/// What came of a batch, with an entry turned down.
pub open spec fn turned_down(applied: AppliedModel, position: int, message: Seq<char>) -> AppliedModel {
    let outcome = applied.outcomes[position];
    AppliedModel {
        errors: applied.errors.push(message),
        outcomes: applied.outcomes.update(position, OutcomeModel { refused: true, ..outcome }),
        ..applied
    }
}

/// An entry turned down, with a message that names it.
pub open spec fn refused_at(draft: Draft, entry: EntryModel, position: int, why: Seq<char>) -> Draft {
    Draft {
        applied: turned_down(
            draft.applied,
            position,
            place_of(entry, position) + ": "@ + why,
        ),
        ..draft
    }
}

/// What an entry is about.
pub enum Target {
    /// Nothing that it could mean.
    Unknown(Seq<char>),
    /// A task that is there.
    Row(Seq<char>),
    /// A task that is not there yet.
    Absent,
}

/// The ids of tasks, each with its mark.
pub open spec fn marked_ids(tasks: Seq<TaskModel>) -> Seq<Seq<char>> {
    Seq::new(tasks.len(), |i: int| "#"@ + tasks[i].id)
}

/// The first division of this batch whose task had this title, as an index, or the length.
pub open spec fn division_at(divided: Seq<DivisionModel>, title: Seq<char>) -> int
    decreases divided.len(),
{
    if divided.len() == 0 || folded(divided[0].from) == folded(title) {
        0
    } else {
        1 + division_at(divided.skip(1), title)
    }
}

/// What an entry with an id is about.
pub open spec fn target_by_id(tasks: Seq<TaskModel>, id: Seq<char>) -> Target {
    match resolved(tasks, id) {
        Some(task) => Target::Row(task.id),
        None => Target::Unknown(
            "no such task, and nothing here is called that."@ + if highest(tasks) > 0 {
                " The ids here run 1 to "@ + decimal_of(highest(tasks)) + "."@
            } else {
                Seq::empty()
            },
        ),
    }
}

/// What an entry with a title alone is about.
pub open spec fn target_by_title(
    tasks: Seq<TaskModel>,
    divided: Seq<DivisionModel>,
    title: Seq<char>,
) -> Target {
    let named = titled(tasks, title);
    let live = open_tasks(named);
    if live.len() > 1 {
        Target::Unknown(
            joined(marked_ids(live), " and "@)
                + " are both called that. Name one by id, or give this one a title of its own."@,
        )
    } else {
        match preferred(named) {
            Some(task) => Target::Row(task.id),
            None => {
                let at = division_at(divided, title);
                if 0 <= at < divided.len() {
                    Target::Row(divided[at].task)
                } else {
                    Target::Absent
                }
            },
        }
    }
}

/// What an entry is about.
pub open spec fn target_of(draft: Draft, entry: EntryModel) -> Target {
    match (entry.id, entry.title) {
        (Some(id), _) => target_by_id(draft.ledger.tasks, id),
        (None, Some(title)) => target_by_title(draft.ledger.tasks, draft.applied.divided, title),
        (None, None) => Target::Absent,
    }
}

/// The draft once the task with this id is split as the entry says, or why it is not.
pub open spec fn after_split(
    draft: Draft,
    id: Seq<char>,
    entry: EntryModel,
    now: i64,
) -> Result<Draft, Seq<char>> {
    match entry.split {
        None => Ok(draft),
        Some(pieces) => match divided(draft.ledger.tasks, id, pieces, now) {
            Err(message) => Err(message),
            Ok((tasks, division)) => Ok(
                Draft {
                    ledger: LedgerModel { tasks, ..draft.ledger },
                    applied: AppliedModel {
                        divided: draft.applied.divided.push(division),
                        ..draft.applied
                    },
                },
            ),
        },
    }
}

/// The draft once the task with this id has absorbed others as the entry says, or why it has not.
pub open spec fn after_merge(
    draft: Draft,
    id: Seq<char>,
    entry: EntryModel,
    now: i64,
) -> Result<Draft, Seq<char>> {
    match entry.merge {
        None => Ok(draft),
        Some(sources) => match absorbed_into(draft.ledger, id, sources, now) {
            Err(message) => Err(message),
            Ok((tasks, absorption)) => Ok(
                Draft {
                    ledger: LedgerModel { tasks, ..draft.ledger },
                    applied: AppliedModel {
                        merged: draft.applied.merged.push(absorption),
                        ..draft.applied
                    },
                },
            ),
        },
    }
}

/// The first pass over an entry that is about a task that is there.
pub open spec fn claimed_row(
    draft: Draft,
    id: Seq<char>,
    entry: EntryModel,
    position: int,
    now: i64,
) -> Draft {
    let structural = entry.split is Some || entry.merge is Some;
    match after_split(draft, id, entry, now) {
        Err(message) => refused_at(draft, entry, position, message),
        Ok(split) => match after_merge(split, id, entry, now) {
            Err(message) => refused_at(split, entry, position, message),
            Ok(merged) => Draft {
                applied: AppliedModel {
                    outcomes: merged.applied.outcomes.update(
                        position,
                        OutcomeModel {
                            task: Some(id),
                            created: false,
                            refused: false,
                            changed: structural,
                        },
                    ),
                    changed: merged.applied.changed || structural,
                    ..merged.applied
                },
                ..merged
            },
        },
    }
}

/// The title that an entry gives a new task.
pub open spec fn fresh_title(entry: EntryModel) -> Seq<char> {
    match entry.title {
        Some(title) => name_of(title),
        None => Seq::empty(),
    }
}

/// Why an entry cannot create a task.
pub open spec fn creation_refusal(entry: EntryModel) -> Option<Seq<char>> {
    if entry.split is Some {
        Some(
            "split names the pieces of a task that is already here. Give the id or title of the one that turned out to be several."@,
        )
    } else if entry.merge is Some {
        Some(
            "merge absorbs other tasks into one that is already here. Give the id or title of the survivor."@,
        )
    } else {
        problem_with(fresh_title(entry))
    }
}

/// The first pass over an entry that is about a task that is not there yet.
pub open spec fn claimed_new(draft: Draft, entry: EntryModel, position: int, now: i64) -> Draft {
    let id = decimal_of(highest(draft.ledger.tasks) + 1);
    match creation_refusal(entry) {
        Some(why) => refused_at(draft, entry, position, why),
        None => Draft {
            ledger: LedgerModel {
                tasks: draft.ledger.tasks.push(
                    fresh_task(id, fresh_title(entry), Seq::empty(), now),
                ),
                ..draft.ledger
            },
            applied: AppliedModel {
                outcomes: draft.applied.outcomes.update(
                    position,
                    OutcomeModel { task: Some(id), created: true, refused: false, changed: true },
                ),
                changed: true,
                ..draft.applied
            },
        },
    }
}

/// An entry is refused before it is known what it is about.
pub open spec fn malformed(entry: EntryModel) -> Option<Seq<char>> {
    if entry.invalid is Some {
        entry.invalid
    } else if entry.status is Some && status_named(entry.status->0) is None {
        Some(entry.status->0 + " is not a status — use pending, active, done."@)
    } else {
        None
    }
}

/// The first pass over an entry: create or find its task, and split or merge it.
#[verifier::opaque]
pub open spec fn claimed(draft: Draft, entry: EntryModel, position: int, now: i64) -> Draft {
    match malformed(entry) {
        Some(why) => refused_at(draft, entry, position, why),
        None => match target_of(draft, entry) {
            Target::Unknown(why) => refused_at(draft, entry, position, why),
            Target::Row(id) => claimed_row(draft, id, entry, position, now),
            Target::Absent => claimed_new(draft, entry, position, now),
        },
    }
}

/// There are enough numbers left for the tasks that an entry creates.
#[verifier::opaque]
pub open spec fn fits(draft: Draft, entry: EntryModel) -> bool {
    malformed(entry) is None ==> match target_of(draft, entry) {
        Target::Unknown(_) => true,
        Target::Row(id) => entry.split is Some ==> split_fits(
            draft.ledger.tasks,
            id,
            entry.split->0,
        ),
        Target::Absent => creation_refusal(entry) is None ==> highest(draft.ledger.tasks)
            < u64::MAX,
    }
}

/// The name that an entry gives its task.
pub open spec fn given_name(entry: EntryModel) -> Option<Seq<char>> {
    if entry.split is Some || entry.title is None {
        None
    } else {
        Some(name_of(entry.title->0))
    }
}

/// Some division of the batch split the given task, and had this title where one is asked for.
pub open spec fn was_divided(
    divided: Seq<DivisionModel>,
    id: Seq<char>,
    title: Option<Seq<char>>,
) -> bool {
    exists|k: int|
        0 <= k < divided.len() && (#[trigger] divided[k]).task == id && (title is Some ==> folded(
            divided[k].from,
        ) == folded(title->0))
}

/// A live task other than this one has this title.
pub open spec fn taken_by_other(tasks: Seq<TaskModel>, id: Seq<char>, title: Seq<char>) -> bool {
    exists|k: int|
        0 <= k < tasks.len() && folded((#[trigger] tasks[k]).title) == folded(title)
            && tasks[k].id != id && !terminal(tasks[k])
}

/// The title of the task with this id, or none.
pub open spec fn current_title(tasks: Seq<TaskModel>, id: Seq<char>) -> Seq<char> {
    match find(tasks, id) {
        Some(task) => task.title,
        None => Seq::empty(),
    }
}

/// Why the name that an entry gives cannot stand.
pub open spec fn naming_refusal(draft: Draft, id: Seq<char>, entry: EntryModel) -> Option<
    Seq<char>,
> {
    let tasks = draft.ledger.tasks;
    let divided = draft.applied.divided;
    match given_name(entry) {
        None => None,
        Some(title) => if entry.id != Some(id) {
            if folded(title) == folded(current_title(tasks, id)) || was_divided(
                divided,
                id,
                Some(title),
            ) {
                None
            } else {
                Some(
                    "to rename it to "@ + title + ", give its id ("@ + id
                        + ") — a title on its own names a task rather than changing one."@,
                )
            }
        } else if problem_with(title) is Some {
            problem_with(title)
        } else if was_divided(divided, id, None) {
            Some(
                "it was split earlier in this call, so renaming it to "@ + title
                    + " would leave the other pieces orphaned."@,
            )
        } else if taken_by_other(tasks, id, title) {
            Some(
                "another task is already called "@ + title
                    + ". Two live tasks with one name cannot be told apart afterwards."@,
            )
        } else {
            None
        },
    }
}

/// A text that is not blank, trimmed.
pub open spec fn meant(field: Option<Seq<char>>) -> Option<Seq<char>> {
    match field {
        Some(text) => if trimmed(text).len() > 0 {
            Some(trimmed(text))
        } else {
            None
        },
        None => None,
    }
}

/// The status that an entry asks for.
pub open spec fn asked_status(entry: EntryModel) -> Option<Status> {
    match entry.status {
        Some(status) => status_named(status),
        None => None,
    }
}

/// The status once the entry's own status is taken over.
pub open spec fn next_status(task: TaskModel, entry: EntryModel) -> Status {
    match asked_status(entry) {
        Some(status) => status,
        None => task.status,
    }
}

/// The reason for which an entry cancels its task.
pub open spec fn cancel_reason(entry: EntryModel) -> Option<Seq<char>> {
    match entry.cancelled {
        Some(reason) => meant(reason),
        None => None,
    }
}

/// Why the task is abandoned after the entry: for the reason it gives; not at all, where it clears
/// the reason; as before, where it leaves it out.
pub open spec fn next_cancelled(task: TaskModel, entry: EntryModel) -> Option<Seq<char>> {
    match entry.cancelled {
        Some(reason) => meant(reason),
        None => task.cancelled,
    }
}

/// What the task waits for after the entry.
pub open spec fn next_waiting(task: TaskModel, entry: EntryModel) -> Option<Seq<char>> {
    match entry.waiting {
        Some(waiting) => meant(waiting),
        None => task.waiting,
    }
}

/// Who owns the task after the entry.
pub open spec fn next_owner(task: TaskModel, entry: EntryModel) -> Option<Seq<char>> {
    match entry.owner {
        Some(owner) => meant(owner),
        None => task.owner,
    }
}

/// The body after the entry.
pub open spec fn next_body(task: TaskModel, entry: EntryModel) -> Seq<char> {
    match entry.body {
        Some(body) => body,
        None => task.body,
    }
}

/// The title after the entry: only an entry that gives the id changes it.
pub open spec fn next_title(task: TaskModel, id: Seq<char>, entry: EntryModel) -> Seq<char> {
    if entry.id == Some(id) && given_name(entry) is Some {
        given_name(entry)->0
    } else {
        task.title
    }
}

/// The findings after the entry: a note that is not blank is added, exactly as written.
pub open spec fn next_findings(task: TaskModel, entry: EntryModel, now: i64) -> Seq<FindingModel> {
    if entry.note is Some && trimmed(entry.note->0).len() > 0 {
        task.findings.push(FindingModel { at: now, text: entry.note->0, from: None })
    } else {
        task.findings
    }
}

/// The status after the entry: a task that is cancelled, or reopened without a status of its own, is
/// pending.
pub open spec fn final_status(task: TaskModel, entry: EntryModel) -> Status {
    if cancel_reason(entry) is Some {
        Status::Pending
    } else if entry.cancelled is Some && task.cancelled is Some && asked_status(entry) is None {
        Status::Pending
    } else {
        next_status(task, entry)
    }
}

/// Whether an entry changes a field of its task.
pub open spec fn changes(task: TaskModel, id: Seq<char>, entry: EntryModel, now: i64) -> bool {
    ||| next_title(task, id, entry) != task.title
    ||| next_status(task, entry) != task.status
    ||| cancel_reason(entry) is Some && next_status(task, entry) != Status::Pending
    ||| next_cancelled(task, entry) != task.cancelled
    ||| next_waiting(task, entry) != task.waiting
    ||| next_owner(task, entry) != task.owner
    ||| next_body(task, entry) != task.body
    ||| entry.note is Some && trimmed(entry.note->0).len() > 0
}

/// A task after the fields that an entry sets.
pub open spec fn edited(task: TaskModel, id: Seq<char>, entry: EntryModel, now: i64) -> TaskModel {
    TaskModel {
        title: next_title(task, id, entry),
        status: final_status(task, entry),
        cancelled: next_cancelled(task, entry),
        waiting: next_waiting(task, entry),
        owner: next_owner(task, entry),
        body: next_body(task, entry),
        findings: next_findings(task, entry, now),
        updated: if changes(task, id, entry, now) {
            now
        } else {
            task.updated
        },
        ..task
    }
}

/// The task that an entry got in the first pass, unless the entry was refused.
pub open spec fn assigned(draft: Draft, position: int) -> Option<Seq<char>> {
    let outcome = draft.applied.outcomes[position];
    if outcome.refused {
        None
    } else {
        outcome.task
    }
}

/// The draft with a change noted for an entry.
pub open spec fn noted(draft: Draft, position: int) -> Draft {
    let outcome = draft.applied.outcomes[position];
    Draft {
        applied: AppliedModel {
            outcomes: draft.applied.outcomes.update(
                position,
                OutcomeModel { changed: true, ..outcome },
            ),
            changed: true,
            ..draft.applied
        },
        ..draft
    }
}

/// The second pass over an entry: the fields of its task.
#[verifier::opaque]
pub open spec fn amended(draft: Draft, entry: EntryModel, position: int, now: i64) -> Draft {
    match assigned(draft, position) {
        None => draft,
        Some(id) => match naming_refusal(draft, id, entry) {
            Some(why) => refused_at(draft, entry, position, why),
            None => match crate::ledger::query::position(draft.ledger.tasks, id) {
                None => draft,
                Some(row) => {
                    let task = draft.ledger.tasks[row];
                    let next = with_tasks(
                        draft,
                        draft.ledger.tasks.update(row, edited(task, id, entry, now)),
                    );
                    if changes(task, id, entry, now) {
                        noted(next, position)
                    } else {
                        next
                    }
                },
            },
        },
    }
}

/// The ids that references name, each once, or why they do not.
pub open spec fn resolved_all(
    tasks: Seq<TaskModel>,
    id: Seq<char>,
    references: Seq<Seq<char>>,
    side: Seq<char>,
) -> Result<Seq<Seq<char>>, Seq<char>>
    decreases references.len(),
{
    if references.len() == 0 {
        Ok(Seq::empty())
    } else {
        match resolved_all(tasks, id, references.drop_last(), side) {
            Err(message) => Err(message),
            Ok(ids) => match resolved(tasks, references.last()) {
                None => Err(side + " names unknown task "@ + references.last() + "."@),
                Some(found) => if found.id == id {
                    Err("a task cannot run "@ + side + " itself."@)
                } else if ids.contains(found.id) {
                    Ok(ids)
                } else {
                    Ok(ids.push(found.id))
                },
            },
        }
    }
}

/// The ids of a relation that an entry sets: none where it clears it.
pub open spec fn relation_of(
    tasks: Seq<TaskModel>,
    id: Seq<char>,
    field: Option<Seq<Seq<char>>>,
    side: Seq<char>,
) -> Result<Seq<Seq<char>>, Seq<char>> {
    match field {
        None => Ok(Seq::empty()),
        Some(references) => resolved_all(tasks, id, references, side),
    }
}

/// Without an id.
pub open spec fn dropped_id(list: Seq<Seq<char>>, id: Seq<char>) -> Seq<Seq<char>> {
    list.filter(|item: Seq<char>| item != id)
}

/// A task's prerequisites once `id` has exactly the wanted dependents.
pub open spec fn as_dependent(
    task: TaskModel,
    id: Seq<char>,
    wanted: Seq<Seq<char>>,
    now: i64,
) -> TaskModel {
    if task.id == id || task.after.contains(id) == wanted.contains(task.id) {
        task
    } else if wanted.contains(task.id) {
        TaskModel { after: task.after.push(id), updated: now, ..task }
    } else {
        TaskModel { after: dropped_id(task.after, id), updated: now, ..task }
    }
}

/// The plan once `id` has exactly the wanted dependents.
pub open spec fn with_dependents(
    tasks: Seq<TaskModel>,
    id: Seq<char>,
    wanted: Seq<Seq<char>>,
    now: i64,
) -> Seq<TaskModel> {
    Seq::new(tasks.len(), |i: int| as_dependent(tasks[i], id, wanted, now))
}

/// Some other task's relation to `id` differs from what is wanted.
pub open spec fn dependents_differ(
    tasks: Seq<TaskModel>,
    id: Seq<char>,
    wanted: Seq<Seq<char>>,
) -> bool {
    exists|i: int|
        0 <= i < tasks.len() && (#[trigger] tasks[i]).id != id && tasks[i].after.contains(id)
            != wanted.contains(tasks[i].id)
}

/// The plan with the prerequisites of the task with this id.
pub open spec fn with_after(
    tasks: Seq<TaskModel>,
    id: Seq<char>,
    after: Seq<Seq<char>>,
) -> Seq<TaskModel> {
    match position(tasks, id) {
        Some(row) => tasks.update(row, TaskModel { after, ..tasks[row] }),
        None => tasks,
    }
}

/// The prerequisites of the task with this id differ from these.
pub open spec fn after_differs(
    tasks: Seq<TaskModel>,
    id: Seq<char>,
    after: Seq<Seq<char>>,
) -> bool {
    match position(tasks, id) {
        Some(row) => tasks[row].after != after,
        None => false,
    }
}

/// The plan with the task with this id touched now.
pub open spec fn touched(tasks: Seq<TaskModel>, id: Seq<char>, now: i64) -> Seq<TaskModel> {
    match position(tasks, id) {
        Some(row) => tasks.update(row, TaskModel { updated: now, ..tasks[row] }),
        None => tasks,
    }
}

/// The third pass over an entry, once its prerequisites are set: its dependents.
pub open spec fn related_before(
    draft: Draft,
    id: Seq<char>,
    entry: EntryModel,
    position: int,
    moved: bool,
    now: i64,
) -> Draft {
    let tasks = draft.ledger.tasks;
    match entry.before {
        None => if moved {
            noted(with_tasks(draft, touched(tasks, id, now)), position)
        } else {
            draft
        },
        Some(field) => match relation_of(tasks, id, field, "before"@) {
            Err(why) => refused_at(draft, entry, position, why),
            Ok(wanted) => {
                let next = with_dependents(tasks, id, wanted, now);
                if moved || dependents_differ(tasks, id, wanted) {
                    noted(with_tasks(draft, touched(next, id, now)), position)
                } else {
                    with_tasks(draft, next)
                }
            },
        },
    }
}

/// The third pass over an entry: its relations.
#[verifier::opaque]
pub open spec fn related(draft: Draft, entry: EntryModel, position: int, now: i64) -> Draft {
    match assigned(draft, position) {
        None => draft,
        Some(id) => match entry.after {
            None => related_before(draft, id, entry, position, false, now),
            Some(field) => match relation_of(draft.ledger.tasks, id, field, "after"@) {
                Err(why) => refused_at(draft, entry, position, why),
                Ok(after) => related_before(
                    with_tasks(draft, with_after(draft.ledger.tasks, id, after)),
                    id,
                    entry,
                    position,
                    after_differs(draft.ledger.tasks, id, after),
                    now,
                ),
            },
        },
    }
}

/// The first `n` entries through the first pass.
pub open spec fn all_claimed(draft: Draft, entries: Seq<EntryModel>, n: nat, now: i64) -> Draft
    decreases n,
{
    if n == 0 {
        draft
    } else {
        claimed(all_claimed(draft, entries, (n - 1) as nat, now), entries[n - 1], n - 1, now)
    }
}

/// The first `n` entries through the second pass.
pub open spec fn all_amended(draft: Draft, entries: Seq<EntryModel>, n: nat, now: i64) -> Draft
    decreases n,
{
    if n == 0 {
        draft
    } else {
        amended(all_amended(draft, entries, (n - 1) as nat, now), entries[n - 1], n - 1, now)
    }
}

/// The first `n` entries through the third pass.
pub open spec fn all_related(draft: Draft, entries: Seq<EntryModel>, n: nat, now: i64) -> Draft
    decreases n,
{
    if n == 0 {
        draft
    } else {
        related(all_related(draft, entries, (n - 1) as nat, now), entries[n - 1], n - 1, now)
    }
}

/// The rows of a plan by the order of their ids: for each id of the order the rows that have it.
pub open spec fn regrouped(tasks: Seq<TaskModel>, order: Seq<Seq<char>>) -> Seq<TaskModel>
    decreases order.len(),
{
    if order.len() == 0 {
        Seq::empty()
    } else {
        regrouped(tasks, order.drop_last()) + tasks.filter(
            |task: TaskModel| task.id == order.last(),
        )
    }
}

/// Some entry of the batch asks for the given task to be active.
pub open spec fn asked_active(
    entries: Seq<EntryModel>,
    outcomes: Seq<OutcomeModel>,
    id: Seq<char>,
) -> bool {
    exists|k: int|
        0 <= k < entries.len() && (#[trigger] entries[k]).status == Some("active"@)
            && outcomes[k].task == Some(id)
}

/// The ids of the active tasks that wait for unfinished prerequisites.
pub open spec fn premature(tasks: Seq<TaskModel>) -> Seq<Seq<char>> {
    ids_of(
        tasks.filter(
            |task: TaskModel|
                task.status == Status::Active && unfinished(tasks, task.after).len() > 0,
        ),
    )
}

/// The draft once the tasks with these ids are set back, or refused where the batch asked for
/// them to be active.
pub open spec fn demoted(
    draft: Draft,
    entries: Seq<EntryModel>,
    ids: Seq<Seq<char>>,
    now: i64,
) -> Draft
    decreases ids.len(),
{
    if ids.len() == 0 {
        draft
    } else {
        let before = demoted(draft, entries, ids.drop_last(), now);
        let id = ids.last();
        let tasks = before.ledger.tasks;
        if asked_active(entries, draft.applied.outcomes, id) {
            Draft {
                applied: AppliedModel {
                    errors: before.applied.errors.push(
                        "#"@ + id
                            + ": an active task cannot wait for unfinished prerequisites."@,
                    ),
                    ..before.applied
                },
                ..before
            }
        } else {
            match position(tasks, id) {
                None => before,
                Some(row) => Draft {
                    ledger: LedgerModel {
                        tasks: tasks.update(
                            row,
                            TaskModel { status: Status::Pending, updated: now, ..tasks[row] },
                        ),
                        ..before.ledger
                    },
                    applied: AppliedModel { changed: true, ..before.applied },
                },
            }
        }
    }
}

/// The number of tasks that may be active: what the limit allows, or what was active already.
pub open spec fn admitted(ledger: LedgerModel, busy: nat) -> nat {
    if ledger.parallelism > busy {
        ledger.parallelism as nat
    } else {
        busy
    }
}

/// The last of the first `n` entries that is about a task with one of these ids, and, where that is
/// asked for, wants it active.
pub open spec fn last_about(
    entries: Seq<EntryModel>,
    outcomes: Seq<OutcomeModel>,
    ids: Seq<Seq<char>>,
    active: bool,
    n: nat,
) -> Option<int>
    decreases n,
{
    if n == 0 {
        None
    } else if (active ==> entries[n - 1].status == Some("active"@)) && outcomes[n - 1].task is Some
        && ids.contains(outcomes[n - 1].task->0) {
        Some(n - 1)
    } else {
        last_about(entries, outcomes, ids, active, (n - 1) as nat)
    }
}

/// The entry that a cycle is put to: the last one about a task on it, or the last of the batch.
pub open spec fn cycle_closer(
    entries: Seq<EntryModel>,
    outcomes: Seq<OutcomeModel>,
    cycle: Seq<Seq<char>>,
) -> int {
    match last_about(entries, outcomes, cycle, false, entries.len()) {
        Some(at) => at,
        None => entries.len() - 1,
    }
}

/// The entry that is put to account for too many active tasks: the last one that wants a task active
/// that was not before, or else is about such a task, or the last of the batch.
pub open spec fn overloader(
    entries: Seq<EntryModel>,
    outcomes: Seq<OutcomeModel>,
    started: Seq<Seq<char>>,
) -> int {
    match last_about(entries, outcomes, started, true, entries.len()) {
        Some(at) => at,
        None => cycle_closer(entries, outcomes, started),
    }
}

/// A message that names the entry it is put to; a batch without entries has none to name.
pub open spec fn put_to(entries: Seq<EntryModel>, at: int, message: Seq<char>) -> Seq<char> {
    if entries.len() == 0 {
        message
    } else {
        place_of(entries[at], at) + ": "@ + message
    }
}

/// Those of the ids that are not among the others.
pub open spec fn beyond(ids: Seq<Seq<char>>, others: Seq<Seq<char>>) -> Seq<Seq<char>> {
    ids.filter(|id: Seq<char>| !others.contains(id))
}

/// What is said where more tasks are active than may be.
pub open spec fn overload(ledger: LedgerModel, running: Seq<TaskModel>, limit: nat) -> Seq<char> {
    decimal_of(limit) + " of "@ + decimal_of(ledger.parallelism as nat)
        + " task slots are already busy ("@ + joined(ids_of(running.take(limit as int)), ", "@)
        + "). Finish one, set one back to pending, or ask the user to use /parallelism."@
}

/// The draft with an error where more tasks are active than may be; `ran` are the ids of those that
/// were active before the batch.
pub open spec fn capped(draft: Draft, entries: Seq<EntryModel>, ran: Seq<Seq<char>>) -> Draft {
    let running = in_state(draft.ledger.tasks, View::Active);
    let limit = admitted(draft.ledger, ran.len());
    if draft.ledger.parallelism > 0 && running.len() > limit {
        let started = beyond(ids_of(running), ran);
        Draft {
            applied: AppliedModel {
                errors: draft.applied.errors.push(
                    put_to(
                        entries,
                        overloader(entries, draft.applied.outcomes, started),
                        overload(draft.ledger, running, limit),
                    ),
                ),
                ..draft.applied
            },
            ..draft
        }
    } else {
        draft
    }
}

/// The draft with its plan in topological order, or with an error where there is none.
pub open spec fn put_in_order(draft: Draft, entries: Seq<EntryModel>) -> Draft {
    match ordered(draft.ledger.tasks) {
        Ok(order) => with_tasks(draft, regrouped(draft.ledger.tasks, ids_of(order))),
        Err(message) => Draft {
            applied: AppliedModel {
                errors: draft.applied.errors.push(
                    put_to(
                        entries,
                        cycle_closer(
                            entries,
                            draft.applied.outcomes,
                            ids_of(cycle_of(draft.ledger.tasks)),
                        ),
                        message,
                    ),
                ),
                ..draft.applied
            },
            ..draft
        },
    }
}

/// The end of a batch: the plan in order, active tasks that must wait set back, and the number of
/// active tasks within its limit.
#[verifier::opaque]
pub open spec fn settled(
    draft: Draft,
    entries: Seq<EntryModel>,
    ran: Seq<Seq<char>>,
    now: i64,
) -> Draft {
    if draft.applied.errors.len() > 0 {
        draft
    } else {
        let sorted = put_in_order(draft, entries);
        capped(demoted(sorted, entries, premature(sorted.ledger.tasks), now), entries, ran)
    }
}

/// A ledger before a batch of `n` entries.
pub open spec fn opened(ledger: LedgerModel, n: nat) -> Draft {
    Draft { ledger, applied: nothing(n) }
}

/// All passes over a batch.
pub open spec fn worked(ledger: LedgerModel, entries: Seq<EntryModel>, now: i64) -> Draft {
    let n = entries.len();
    let first = all_claimed(opened(ledger, n), entries, n, now);
    let second = all_amended(first, entries, n, now);
    let third = all_related(second, entries, n, now);
    settled(third, entries, ids_of(in_state(ledger.tasks, View::Active)), now)
}

/// Nothing came of a batch but its errors.
pub open spec fn rejected(errors: Seq<Seq<char>>, n: nat) -> AppliedModel {
    AppliedModel {
        errors,
        outcomes: Seq::new(n, |i: int| OutcomeModel { refused: true, ..untouched() }),
        divided: Seq::empty(),
        merged: Seq::empty(),
        changed: false,
    }
}

/// A batch applied: whole, or not at all where any entry is refused.
pub open spec fn upserted(ledger: LedgerModel, entries: Seq<EntryModel>, now: i64) -> Draft {
    let draft = worked(ledger, entries, now);
    if draft.applied.errors.len() > 0 {
        Draft { ledger, applied: rejected(draft.applied.errors, entries.len()) }
    } else {
        draft
    }
}

/// There are enough numbers left for every task that the batch creates.
pub open spec fn has_room(ledger: LedgerModel, entries: Seq<EntryModel>, now: i64) -> bool {
    forall|i: int|
        0 <= i < entries.len() ==> fits(
            all_claimed(opened(ledger, entries.len()), entries, i as nat, now),
            #[trigger] entries[i],
        )
}

/// A ledger and what came of a batch so far, as a draft.
pub open spec fn draft_of(ledger: Ledger, applied: Applied) -> Draft {
    Draft { ledger: ledger.model(), applied: applied@ }
}

/// How a message names an entry.
fn place(entry: &Entry, position: usize) -> (label: String)
    requires
        position < usize::MAX,
    ensures
        label@ == place_of(entry@, position as int),
{
    match &entry.id {
        Some(id) => {
            let mut label = "#".to_string();
            label.append(id.as_str());
            label
        },
        None => {
            let mut label = "entry ".to_string();
            label.append(decimal((position + 1) as u64).as_str());
            label
        },
    }
}

/// Turns an entry down.
fn refuse(applied: &mut Applied, entry: &Entry, position: usize, why: &str)
    requires
        position < old(applied).outcomes@.len(),
    ensures
        final(applied).outcomes@.len() == old(applied).outcomes@.len(),
        forall|ledger: LedgerModel| #[trigger]
            refused_at(Draft { ledger, applied: old(applied)@ }, entry@, position as int, why@)
                == (Draft { ledger, applied: final(applied)@ }),
{
    let ghost before = *applied;
    let count: usize = applied.outcomes.len();
    assert(position < count);
    let mut message = place(entry, position);
    message.append(": ");
    message.append(why);
    applied.errors.push(message);
    applied.outcomes[position].refused = true;
    proof {
        assert(texts(applied.errors@) == texts(before.errors@).push(message@));
        assert(applied@.outcomes =~= turned_down(before@, position as int, message@).outcomes);
        assert(applied@ =~= turned_down(before@, position as int, message@));
    }
}

/// The ids of tasks, each with its mark.
fn marked(tasks: &Vec<&Task>) -> (ids: Vec<String>)
    ensures
        texts(ids@) == marked_ids(referred(tasks@)),
{
    let mut ids: Vec<String> = Vec::new();
    let mut i: usize = 0;
    while i < tasks.len()
        invariant
            i <= tasks@.len(),
            ids@.len() == i,
            forall|j: int| 0 <= j < i ==> (#[trigger] ids@[j])@ == "#"@ + tasks@[j].id@,
        decreases tasks@.len() - i,
    {
        let mut id = "#".to_string();
        id.append(tasks[i].id.as_str());
        ids.push(id);
        i += 1;
    }
    assert(texts(ids@) =~= marked_ids(referred(tasks@)));
    ids
}

/// The open tasks of a list.
fn open_among<'a>(tasks: &Vec<&'a Task>) -> (live: Vec<&'a Task>)
    ensures
        referred(live@) == open_tasks(referred(tasks@)),
{
    let ghost all = referred(tasks@);
    let ghost keep = |task: TaskModel| !terminal(task);
    let mut live: Vec<&'a Task> = Vec::new();
    let mut i: usize = 0;
    assert(all.take(0) == Seq::<TaskModel>::empty());
    reveal(Seq::filter);
    while i < tasks.len()
        invariant
            i <= tasks@.len(),
            all == referred(tasks@),
            keep == (|task: TaskModel| !terminal(task)),
            referred(live@) == all.take(i as int).filter(keep),
        decreases tasks@.len() - i,
    {
        proof {
            filter_step(all, keep, i as int);
        }
        let ghost before = live@;
        if !tasks[i].terminal() {
            live.push(tasks[i]);
            assert(referred(live@) == referred(before).push(all[i as int]));
        }
        i += 1;
    }
    assert(all.take(all.len() as int) == all);
    live
}

/// What an entry is about, in executable form.
enum Aim {
    Unknown(String),
    Row(String),
    Absent,
}

impl Aim {
    spec fn target(self) -> Target {
        match self {
            Aim::Unknown(why) => Target::Unknown(why@),
            Aim::Row(id) => Target::Row(id@),
            Aim::Absent => Target::Absent,
        }
    }
}

/// The divisions that a list stands for.
pub open spec fn divisions_of(list: Seq<Division>) -> Seq<DivisionModel> {
    Seq::new(list.len(), |i: int| list[i]@)
}

/// Where a title stops differing is the first division with it.
proof fn division_found(divided: Seq<DivisionModel>, title: Seq<char>, k: int)
    requires
        0 <= k <= divided.len(),
        forall|j: int| 0 <= j < k ==> folded((#[trigger] divided[j]).from) != folded(title),
        k == divided.len() || folded(divided[k].from) == folded(title),
    ensures
        division_at(divided, title) == k,
    decreases divided.len(),
{
    if k > 0 {
        assert(folded(divided[0].from) != folded(title));
        assert forall|j: int| 0 <= j < k - 1 implies folded((#[trigger] divided.skip(1)[j]).from)
            != folded(title) by {
            assert(divided.skip(1)[j] == divided[j + 1]);
        }
        division_found(divided.skip(1), title, k - 1);
    }
}

/// The first division whose task had this title.
fn division_row(divided: &Vec<Division>, title: &str) -> (row: Option<usize>)
    ensures
        match row {
            Some(row) => row < divided@.len() && row == division_at(
                divisions_of(divided@),
                title@,
            ),
            None => division_at(divisions_of(divided@), title@) == divided@.len(),
        },
{
    let ghost divisions = divisions_of(divided@);
    let wanted = fold(title);
    let mut k: usize = 0;
    while k < divided.len()
        invariant
            k <= divided@.len(),
            divisions == divisions_of(divided@),
            wanted@ == folded(title@),
            forall|j: int| 0 <= j < k ==> folded((#[trigger] divisions[j]).from) != wanted@,
        decreases divided@.len() - k,
    {
        let from = fold(divided[k].from.as_str());
        assert(from@ == folded(divisions[k as int].from));
        if same(from.as_str(), wanted.as_str()) {
            proof {
                division_found(divisions, title@, k as int);
            }
            return Some(k);
        }
        k += 1;
    }
    proof {
        division_found(divisions, title@, k as int);
    }
    None
}

impl Ledger {
    /// What an entry with an id is about.
    fn aim_by_id(&self, id: &str) -> (aim: Aim)
        ensures
            aim.target() == target_by_id(self.model().tasks, id@),
    {
        match self.resolve(id) {
            Some(task) => Aim::Row(task.id.clone()),
            None => {
                let top = self.highest_id();
                let mut why = "no such task, and nothing here is called that.".to_string();
                if top > 0 {
                    let mut range = " The ids here run 1 to ".to_string();
                    range.append(decimal(top).as_str());
                    range.append(".");
                    why.append(range.as_str());
                } else {
                    assert(why@ + Seq::<char>::empty() == why@);
                }
                Aim::Unknown(why)
            },
        }
    }

    /// What an entry with a title alone is about.
    fn aim_by_title(&self, divided: &Vec<Division>, title: &str) -> (aim: Aim)
        ensures
            aim.target() == target_by_title(
                self.model().tasks,
                divisions_of(divided@),
                title@,
            ),
    {
        let named = self.titled(title);
        let live = open_among(&named);
        assert(referred(live@).len() == live@.len());
        if live.len() > 1 {
            let mut why = join(&marked(&live), " and ");
            why.append(
                " are both called that. Name one by id, or give this one a title of its own.",
            );
            return Aim::Unknown(why);
        }
        if let Some(task) = preferred_of(&named) {
            return Aim::Row(task.id.clone());
        }
        match division_row(divided, title) {
            Some(k) => Aim::Row(divided[k].task.clone()),
            None => Aim::Absent,
        }
    }

    /// What an entry is about.
    fn aim(&self, divided: &Vec<Division>, entry: &Entry) -> (aim: Aim)
        ensures
            forall|applied: AppliedModel|
                applied.divided == divisions_of(divided@) ==> aim.target() == #[trigger] target_of(
                    Draft { ledger: self.model(), applied },
                    entry@,
                ),
    {
        match &entry.id {
            Some(id) => self.aim_by_id(id.as_str()),
            None => match &entry.title {
                Some(title) => self.aim_by_title(divided, title.as_str()),
                None => Aim::Absent,
            },
        }
    }

    /// The first pass over an entry that is about a task that is there. Says whether there are
    /// enough numbers for the tasks it creates; where there are not, nothing changes.
    fn claim_row(
        &mut self,
        applied: &mut Applied,
        id: String,
        entry: &Entry,
        position: usize,
        now: i64,
    ) -> (fit: bool)
        requires
            position < old(applied).outcomes@.len(),
        ensures
            fit == (entry@.split is Some ==> split_fits(
                old(self).model().tasks,
                id@,
                entry@.split->0,
            )),
            fit ==> draft_of(*final(self), *final(applied)) == claimed_row(
                draft_of(*old(self), *old(applied)),
                id@,
                entry@,
                position as int,
                now,
            ),
            !fit ==> draft_of(*final(self), *final(applied)) == draft_of(
                *old(self),
                *old(applied),
            ),
            final(applied).outcomes@.len() == old(applied).outcomes@.len(),
    {
        let ghost start = draft_of(*self, *applied);
        let mut structural: bool = false;
        if let Some(pieces) = &entry.split {
            match self.divide(id.as_str(), pieces, now) {
                Ok(Some(division)) => {
                    let ghost held = applied@.divided;
                    applied.divided.push(division);
                    assert(applied@.divided =~= held.push(division@));
                    structural = true;
                },
                Ok(None) => {
                    return false;
                },
                Err(message) => {
                    refuse(applied, entry, position, message.as_str());
                    return true;
                },
            }
        }
        let ghost split = draft_of(*self, *applied);
        assert(after_split(start, id@, entry@, now) == Ok::<Draft, Seq<char>>(split));
        if let Some(sources) = &entry.merge {
            match self.absorb(id.as_str(), sources, now) {
                Ok(absorption) => {
                    let ghost held = applied@.merged;
                    applied.merged.push(absorption);
                    assert(applied@.merged =~= held.push(absorption@));
                    structural = true;
                },
                Err(message) => {
                    refuse(applied, entry, position, message.as_str());
                    return true;
                },
            }
        }
        let ghost merged = draft_of(*self, *applied);
        assert(after_merge(split, id@, entry@, now) == Ok::<Draft, Seq<char>>(merged));
        let outcome = Outcome {
            task: Some(id),
            created: false,
            refused: false,
            changed: structural,
        };
        let ghost held = applied@.outcomes;
        applied.outcomes.set(position, outcome);
        if structural {
            applied.changed = true;
        }
        assert(applied@.outcomes =~= held.update(position as int, outcome@));
        true
    }

    /// The first pass over an entry that is about a task that is not there yet.
    fn claim_new(&mut self, applied: &mut Applied, entry: &Entry, position: usize, now: i64) -> (fit:
        bool)
        requires
            position < old(applied).outcomes@.len(),
        ensures
            fit == (creation_refusal(entry@) is None ==> highest(old(self).model().tasks)
                < u64::MAX),
            fit ==> draft_of(*final(self), *final(applied)) == claimed_new(
                draft_of(*old(self), *old(applied)),
                entry@,
                position as int,
                now,
            ),
            !fit ==> draft_of(*final(self), *final(applied)) == draft_of(
                *old(self),
                *old(applied),
            ),
            final(applied).outcomes@.len() == old(applied).outcomes@.len(),
    {
        if entry.split.is_some() {
            refuse(
                applied,
                entry,
                position,
                "split names the pieces of a task that is already here. Give the id or title of the one that turned out to be several.",
            );
            return true;
        }
        if entry.merge.is_some() {
            refuse(
                applied,
                entry,
                position,
                "merge absorbs other tasks into one that is already here. Give the id or title of the survivor.",
            );
            return true;
        }
        let fresh = match &entry.title {
            Some(title) => name(title.as_str()),
            None => String::new(),
        };
        if let Some(problem) = title_problem(fresh.as_str()) {
            refuse(applied, entry, position, problem.as_str());
            return true;
        }
        if self.highest_id() == u64::MAX {
            return false;
        }
        let ghost held = self.model().tasks;
        let ghost outcomes = applied@.outcomes;
        let id = self.next_id();
        let after: Vec<String> = Vec::new();
        assert(texts(after@) == Seq::<Seq<char>>::empty());
        let task = new_task(id.clone(), fresh, after, now);
        self.tasks.push(task);
        assert(self.model().tasks =~= held.push(task@));
        let outcome = Outcome { task: Some(id), created: true, refused: false, changed: true };
        applied.outcomes.set(position, outcome);
        applied.changed = true;
        assert(applied@.outcomes =~= outcomes.update(position as int, outcome@));
        true
    }

    /// The first pass over an entry. Says whether there are enough numbers for the tasks it
    /// creates; where there are not, nothing changes.
    fn claim(&mut self, applied: &mut Applied, entry: &Entry, position: usize, now: i64) -> (fit:
        bool)
        requires
            position < old(applied).outcomes@.len(),
        ensures
            fit == fits(draft_of(*old(self), *old(applied)), entry@),
            fit ==> draft_of(*final(self), *final(applied)) == claimed(
                draft_of(*old(self), *old(applied)),
                entry@,
                position as int,
                now,
            ),
            !fit ==> draft_of(*final(self), *final(applied)) == draft_of(
                *old(self),
                *old(applied),
            ),
            final(applied).outcomes@.len() == old(applied).outcomes@.len(),
    {
        reveal(claimed);
        reveal(fits);
        let ghost start = draft_of(*self, *applied);
        if let Some(invalid) = &entry.invalid {
            refuse(applied, entry, position, invalid.as_str());
            return true;
        }
        if let Some(status) = &entry.status {
            if Status::parse(status.as_str()).is_none() {
                let mut why = status.clone();
                why.append(" is not a status — use pending, active, done.");
                refuse(applied, entry, position, why.as_str());
                return true;
            }
        }
        assert(malformed(entry@) is None);
        let aim = self.aim(&applied.divided, entry);
        assert(aim.target() == target_of(start, entry@)) by {
            assert(start.applied.divided =~= divisions_of(applied.divided@));
        }
        match aim {
            Aim::Unknown(why) => {
                refuse(applied, entry, position, why.as_str());
                true
            },
            Aim::Row(id) => self.claim_row(applied, id, entry, position, now),
            Aim::Absent => self.claim_new(applied, entry, position, now),
        }
    }
}

/// A text that is not blank, trimmed.
fn meaning(field: &Option<String>) -> (r: Option<String>)
    ensures
        maybe(r) == meant(maybe(*field)),
{
    match field {
        Some(text) => {
            let text = trim(text.as_str());
            if text.as_str().is_empty() {
                None
            } else {
                Some(text)
            }
        },
        None => None,
    }
}

/// Whether some division of the batch split the given task, and had this title where one is asked for.
fn divided_before(divided: &Vec<Division>, id: &str, title: Option<&str>) -> (r: bool)
    ensures
        r == was_divided(
            divisions_of(divided@),
            id@,
            match title {
                Some(title) => Some(title@),
                None => None,
            },
        ),
{
    let ghost divisions = divisions_of(divided@);
    let mut k: usize = 0;
    while k < divided.len()
        invariant
            k <= divided@.len(),
            divisions == divisions_of(divided@),
            forall|j: int|
                0 <= j < k ==> (#[trigger] divisions[j]).task != id@ || (title is Some && folded(
                    divisions[j].from,
                ) != folded(title->0@)),
        decreases divided@.len() - k,
    {
        assert(divisions[k as int] == divided@[k as int]@);
        if same(divided[k].task.as_str(), id) {
            let named = match title {
                Some(title) => same(fold(divided[k].from.as_str()).as_str(), fold(title).as_str()),
                None => true,
            };
            if named {
                return true;
            }
        }
        k += 1;
    }
    false
}

/// The name that an entry gives its task.
fn name_given(entry: &Entry) -> (title: Option<String>)
    ensures
        maybe(title) == given_name(entry@),
{
    if entry.split.is_some() {
        return None;
    }
    match &entry.title {
        Some(title) => Some(name(title.as_str())),
        None => None,
    }
}

/// Whether an entry gives this id.
fn gives_id(entry: &Entry, id: &str) -> (r: bool)
    ensures
        r == (entry@.id == Some(id@)),
{
    match &entry.id {
        Some(given) => same(given.as_str(), id),
        None => false,
    }
}

/// The status that an entry asks for.
fn status_asked(entry: &Entry) -> (status: Option<Status>)
    ensures
        status == asked_status(entry@),
{
    match &entry.status {
        Some(status) => Status::parse(status.as_str()),
        None => None,
    }
}

/// The reason for which an entry cancels its task.
fn reason_given(entry: &Entry) -> (reason: Option<String>)
    ensures
        maybe(reason) == cancel_reason(entry@),
{
    match &entry.cancelled {
        Some(reason) => meaning(reason),
        None => None,
    }
}

impl Task {
    /// Sets the fields that an entry sets. Says whether any of them changed.
    fn edit(&mut self, id: &str, entry: &Entry, now: i64) -> (changed: bool)
        ensures
            final(self)@ == edited(old(self)@, id@, entry@, now),
            changed == changes(old(self)@, id@, entry@, now),
    {
        let ghost start = self@;
        let mut changed: bool = false;
        if gives_id(entry, id) {
            if let Some(title) = name_given(entry) {
                if !same(self.title.as_str(), title.as_str()) {
                    self.title = title;
                    changed = true;
                }
            }
        }
        assert(self.title@ == next_title(start, id@, entry@));
        if let Some(status) = status_asked(entry) {
            if self.status != status {
                self.status = status;
                changed = true;
            }
        }
        assert(self.status == next_status(start, entry@));
        match reason_given(entry) {
            Some(reason) => {
                let reason = Some(reason);
                if self.status != Status::Pending || !same_maybe(&self.cancelled, &reason) {
                    changed = true;
                }
                self.status = Status::Pending;
                self.cancelled = reason;
            },
            None => {
                if entry.cancelled.is_some() && self.cancelled.is_some() {
                    if status_asked(entry).is_none() {
                        self.status = Status::Pending;
                    }
                    self.cancelled = None;
                    changed = true;
                }
            },
        }
        assert(maybe(self.cancelled) == next_cancelled(start, entry@));
        if let Some(waiting) = &entry.waiting {
            let next = meaning(waiting);
            if !same_maybe(&self.waiting, &next) {
                self.waiting = next;
                changed = true;
            }
        }
        assert(maybe(self.waiting) == next_waiting(start, entry@));
        if let Some(owner) = &entry.owner {
            let next = meaning(owner);
            if !same_maybe(&self.owner, &next) {
                self.owner = next;
                changed = true;
            }
        }
        if let Some(body) = &entry.body {
            if !same(self.body.as_str(), body.as_str()) {
                self.body = body.clone();
                changed = true;
            }
        }
        if let Some(note) = &entry.note {
            if !trim(note.as_str()).as_str().is_empty() {
                let finding = Finding { at: now, text: note.clone(), from: None };
                let ghost held = self.findings@;
                self.findings.push(finding);
                assert(findings_of(self.findings@) =~= findings_of(held).push(finding@));
                changed = true;
            }
        }
        if changed {
            self.updated = now;
        }
        assert(self@ =~= edited(start, id@, entry@, now));
        changed
    }
}

/// Notes a change for an entry.
fn note_change(applied: &mut Applied, position: usize)
    requires
        position < old(applied).outcomes@.len(),
    ensures
        final(applied).outcomes@.len() == old(applied).outcomes@.len(),
        forall|ledger: LedgerModel| #[trigger]
            noted(Draft { ledger, applied: old(applied)@ }, position as int) == (Draft {
                ledger,
                applied: final(applied)@,
            }),
{
    let ghost before = applied@;
    applied.outcomes[position].changed = true;
    applied.changed = true;
    assert(applied@.outcomes =~= before.outcomes.update(
        position as int,
        OutcomeModel { changed: true, ..before.outcomes[position as int] },
    ));
}

impl Ledger {
    /// Whether a live task other than this one has this title.
    fn title_taken(&self, id: &str, title: &str) -> (r: bool)
        ensures
            r == taken_by_other(self.model().tasks, id@, title@),
    {
        let ghost tasks = self.model().tasks;
        let wanted = fold(title);
        let mut k: usize = 0;
        while k < self.tasks.len()
            invariant
                k <= self.tasks@.len(),
                tasks == self.model().tasks,
                wanted@ == folded(title@),
                forall|j: int|
                    0 <= j < k ==> folded((#[trigger] tasks[j]).title) != wanted@ || tasks[j].id
                        == id@ || terminal(tasks[j]),
            decreases self.tasks@.len() - k,
        {
            let other = fold(self.tasks[k].title.as_str());
            assert(tasks[k as int] == self.tasks@[k as int]@);
            if same(other.as_str(), wanted.as_str()) && !same(self.tasks[k].id.as_str(), id)
                && !self.tasks[k].terminal() {
                return true;
            }
            k += 1;
        }
        false
    }

    /// Why the name that an entry gives cannot stand.
    fn naming_problem(&self, divided: &Vec<Division>, id: &str, entry: &Entry) -> (why: Option<
        String,
    >)
        ensures
            forall|applied: AppliedModel|
                applied.divided == divisions_of(divided@) ==> maybe(why)
                    == #[trigger] naming_refusal(
                    Draft { ledger: self.model(), applied },
                    id@,
                    entry@,
                ),
    {
        let title = match name_given(entry) {
            Some(title) => title,
            None => {
                return None;
            },
        };
        if !gives_id(entry, id) {
            let current = match self.find_by_id(id) {
                Some(task) => task.title.clone(),
                None => String::new(),
            };
            if same(fold(title.as_str()).as_str(), fold(current.as_str()).as_str())
                || divided_before(divided, id, Some(title.as_str())) {
                return None;
            }
            let mut why = "to rename it to ".to_string();
            why.append(title.as_str());
            why.append(", give its id (");
            why.append(id);
            why.append(") — a title on its own names a task rather than changing one.");
            return Some(why);
        }
        if let Some(problem) = title_problem(title.as_str()) {
            return Some(problem);
        }
        if divided_before(divided, id, None) {
            let mut why = "it was split earlier in this call, so renaming it to ".to_string();
            why.append(title.as_str());
            why.append(" would leave the other pieces orphaned.");
            return Some(why);
        }
        if self.title_taken(id, title.as_str()) {
            let mut why = "another task is already called ".to_string();
            why.append(title.as_str());
            why.append(". Two live tasks with one name cannot be told apart afterwards.");
            return Some(why);
        }
        None
    }

    /// The second pass over an entry: the fields of its task.
    fn amend(&mut self, applied: &mut Applied, entry: &Entry, position: usize, now: i64)
        requires
            position < old(applied).outcomes@.len(),
        ensures
            draft_of(*final(self), *final(applied)) == amended(
                draft_of(*old(self), *old(applied)),
                entry@,
                position as int,
                now,
            ),
            final(applied).outcomes@.len() == old(applied).outcomes@.len(),
    {
        reveal(amended);
        let ghost start = draft_of(*self, *applied);
        if applied.outcomes[position].refused {
            return;
        }
        let id = match &applied.outcomes[position].task {
            Some(id) => id.clone(),
            None => {
                return;
            },
        };
        assert(assigned(start, position as int) == Some(id@));
        let why = self.naming_problem(&applied.divided, id.as_str(), entry);
        assert(maybe(why) == naming_refusal(start, id@, entry@)) by {
            assert(start.applied.divided =~= divisions_of(applied.divided@));
        }
        if let Some(why) = why {
            refuse(applied, entry, position, why.as_str());
            return;
        }
        let row: usize = match self.row_of(id.as_str()) {
            Some(row) => row,
            None => {
                return;
            },
        };
        let ghost tasks = self.model().tasks;
        let changed = self.tasks[row].edit(id.as_str(), entry, now);
        let ghost next = with_tasks(
            start,
            tasks.update(row as int, edited(tasks[row as int], id@, entry@, now)),
        );
        assert(self.model().tasks =~= next.ledger.tasks);
        assert(draft_of(*self, *applied) == next);
        if changed {
            note_change(applied, position);
        }
    }

    /// The ids that references name, each once, or why they do not.
    fn resolve_all(&self, task_id: &str, references: &Vec<String>, side: &str) -> (r: Result<
        Vec<String>,
        String,
    >)
        ensures
            match r {
                Ok(ids) => resolved_all(
                    self.model().tasks,
                    task_id@,
                    texts(references@),
                    side@,
                ) == Ok::<Seq<Seq<char>>, Seq<char>>(texts(ids@)),
                Err(message) => resolved_all(
                    self.model().tasks,
                    task_id@,
                    texts(references@),
                    side@,
                ) == Err::<Seq<Seq<char>>, Seq<char>>(message@),
            },
    {
        let ghost tasks = self.model().tasks;
        let ghost all = texts(references@);
        let mut ids: Vec<String> = Vec::new();
        let mut i: usize = 0;
        assert(texts(ids@) == Seq::<Seq<char>>::empty());
        while i < references.len()
            invariant
                i <= references@.len(),
                tasks == self.model().tasks,
                all == texts(references@),
                resolved_all(tasks, task_id@, all.take(i as int), side@) == Ok::<
                    Seq<Seq<char>>,
                    Seq<char>,
                >(texts(ids@)),
            decreases references@.len() - i,
        {
            assert(all.take(i + 1).drop_last() == all.take(i as int));
            assert(all.take(i + 1).last() == all[i as int]);
            let refusal: Option<String> = match self.resolve(references[i].as_str()) {
                None => {
                    let mut message = side.to_string();
                    message.append(" names unknown task ");
                    message.append(references[i].as_str());
                    message.append(".");
                    Some(message)
                },
                Some(found) => if same(found.id.as_str(), task_id) {
                    let mut message = "a task cannot run ".to_string();
                    message.append(side);
                    message.append(" itself.");
                    Some(message)
                } else {
                    let ghost before = ids@;
                    if !holds(&ids, found.id.as_str()) {
                        ids.push(found.id.clone());
                        assert(texts(ids@) == texts(before).push(found@.id));
                    }
                    None
                },
            };
            if let Some(message) = refusal {
                proof {
                    references_stay_refused(tasks, task_id@, all, side@, i + 1, message@);
                }
                return Err(message);
            }
            i += 1;
        }
        assert(all.take(all.len() as int) == all);
        Ok(ids)
    }

    /// The ids of a relation that an entry sets.
    fn relation(&self, task_id: &str, field: &Option<Vec<String>>, side: &str) -> (r: Result<
        Vec<String>,
        String,
    >)
        ensures
            match r {
                Ok(ids) => relation_of(
                    self.model().tasks,
                    task_id@,
                    crate::ledger::batch::maybe_texts(*field),
                    side@,
                ) == Ok::<Seq<Seq<char>>, Seq<char>>(texts(ids@)),
                Err(message) => relation_of(
                    self.model().tasks,
                    task_id@,
                    crate::ledger::batch::maybe_texts(*field),
                    side@,
                ) == Err::<Seq<Seq<char>>, Seq<char>>(message@),
            },
    {
        match field {
            Some(references) => self.resolve_all(task_id, references, side),
            None => {
                let none: Vec<String> = Vec::new();
                assert(texts(none@) == Seq::<Seq<char>>::empty());
                Ok(none)
            },
        }
    }

    /// Gives the task with this id exactly the wanted dependents. Says whether that changed any.
    fn set_dependents(&mut self, id: &str, wanted: &Vec<String>, now: i64) -> (changed: bool)
        ensures
            final(self).model() == (LedgerModel {
                tasks: with_dependents(old(self).model().tasks, id@, texts(wanted@), now),
                ..old(self).model()
            }),
            changed == dependents_differ(old(self).model().tasks, id@, texts(wanted@)),
    {
        let ghost tasks = self.model().tasks;
        let ghost ids = texts(wanted@);
        let mut changed: bool = false;
        let mut i: usize = 0;
        while i < self.tasks.len()
            invariant
                i <= self.tasks@.len(),
                self.tasks@.len() == tasks.len(),
                ids == texts(wanted@),
                self.model() == (LedgerModel { tasks: self.model().tasks, ..old(self).model() }),
                forall|j: int|
                    0 <= j < i ==> (#[trigger] self.tasks@[j])@ == as_dependent(
                        tasks[j],
                        id@,
                        ids,
                        now,
                    ),
                forall|j: int|
                    i <= j < self.tasks@.len() ==> (#[trigger] self.tasks@[j])@ == tasks[j],
                changed == exists|j: int|
                    0 <= j < i && (#[trigger] tasks[j]).id != id@ && tasks[j].after.contains(id@)
                        != ids.contains(tasks[j].id),
            decreases self.tasks@.len() - i,
        {
            assert(self.tasks@[i as int]@ == tasks[i as int]);
            if !same(self.tasks[i].id.as_str(), id) {
                let has = holds(&self.tasks[i].after, id);
                let should = holds(wanted, self.tasks[i].id.as_str());
                if has != should {
                    if should {
                        let ghost held = self.tasks@[i as int].after@;
                        self.tasks[i].after.push(id.to_string());
                        assert(texts(self.tasks@[i as int].after@) =~= texts(held).push(id@));
                    } else {
                        let after = drop_id(&self.tasks[i].after, id);
                        self.tasks[i].after = after;
                    }
                    self.tasks[i].updated = now;
                    changed = true;
                    assert(tasks[i as int].id != id@);
                }
            }
            assert(self.tasks@[i as int]@ == as_dependent(tasks[i as int], id@, ids, now));
            i += 1;
        }
        assert(self.model().tasks =~= with_dependents(tasks, id@, ids, now));
        changed
    }

    /// Marks the task with this id as touched now.
    fn touch(&mut self, id: &str, now: i64)
        ensures
            final(self).model() == (LedgerModel {
                tasks: touched(old(self).model().tasks, id@, now),
                ..old(self).model()
            }),
    {
        let ghost tasks = self.model().tasks;
        if let Some(row) = self.row_of(id) {
            self.tasks[row].updated = now;
            assert(self.model().tasks =~= touched(tasks, id@, now));
        }
    }

    /// The third pass over an entry, once its prerequisites are set: its dependents.
    fn relate_before(
        &mut self,
        applied: &mut Applied,
        id: &str,
        entry: &Entry,
        position: usize,
        moved: bool,
        now: i64,
    )
        requires
            position < old(applied).outcomes@.len(),
        ensures
            draft_of(*final(self), *final(applied)) == related_before(
                draft_of(*old(self), *old(applied)),
                id@,
                entry@,
                position as int,
                moved,
                now,
            ),
            final(applied).outcomes@.len() == old(applied).outcomes@.len(),
    {
        let mut moved = moved;
        if let Some(field) = &entry.before {
            match self.relation(id, field, "before") {
                Ok(wanted) => {
                    if self.set_dependents(id, &wanted, now) {
                        moved = true;
                    }
                },
                Err(why) => {
                    refuse(applied, entry, position, why.as_str());
                    return;
                },
            }
        }
        if moved {
            self.touch(id, now);
            note_change(applied, position);
        }
    }

    /// The third pass over an entry: its relations.
    fn relate(&mut self, applied: &mut Applied, entry: &Entry, position: usize, now: i64)
        requires
            position < old(applied).outcomes@.len(),
        ensures
            draft_of(*final(self), *final(applied)) == related(
                draft_of(*old(self), *old(applied)),
                entry@,
                position as int,
                now,
            ),
            final(applied).outcomes@.len() == old(applied).outcomes@.len(),
    {
        reveal(related);
        let ghost start = draft_of(*self, *applied);
        if applied.outcomes[position].refused {
            return;
        }
        let id = match &applied.outcomes[position].task {
            Some(id) => id.clone(),
            None => {
                return;
            },
        };
        assert(assigned(start, position as int) == Some(id@));
        let mut moved: bool = false;
        if let Some(field) = &entry.after {
            match self.relation(id.as_str(), field, "after") {
                Ok(after) => {
                    let ghost ids = texts(after@);
                    let ghost tasks = self.model().tasks;
                    if let Some(row) = self.row_of(id.as_str()) {
                        if !same_texts(&self.tasks[row].after, &after) {
                            moved = true;
                        }
                        self.tasks[row].after = after;
                        assert(self.model().tasks =~= with_after(tasks, id@, ids));
                    }
                    assert(moved == after_differs(tasks, id@, ids));
                },
                Err(why) => {
                    refuse(applied, entry, position, why.as_str());
                    return;
                },
            }
        }
        self.relate_before(applied, id.as_str(), entry, position, moved, now);
    }
}

/// Whether two lists hold the same texts in the same order.
fn same_texts(a: &Vec<String>, b: &Vec<String>) -> (r: bool)
    ensures
        r == (texts(a@) == texts(b@)),
{
    if a.len() != b.len() {
        assert(texts(a@).len() != texts(b@).len());
        return false;
    }
    let mut i: usize = 0;
    while i < a.len()
        invariant
            i <= a@.len(),
            a@.len() == b@.len(),
            forall|j: int| 0 <= j < i ==> texts(a@)[j] == texts(b@)[j],
        decreases a@.len() - i,
    {
        if !same(a[i].as_str(), b[i].as_str()) {
            assert(texts(a@)[i as int] != texts(b@)[i as int]);
            return false;
        }
        i += 1;
    }
    assert(texts(a@) =~= texts(b@));
    true
}

/// A list without an id.
fn drop_id(list: &Vec<String>, id: &str) -> (left: Vec<String>)
    ensures
        texts(left@) == dropped_id(texts(list@), id@),
{
    let ghost all = texts(list@);
    let ghost keep = |item: Seq<char>| item != id@;
    let mut left: Vec<String> = Vec::new();
    let mut i: usize = 0;
    assert(all.take(0) == Seq::<Seq<char>>::empty());
    reveal(Seq::filter);
    while i < list.len()
        invariant
            i <= list@.len(),
            all == texts(list@),
            keep == (|item: Seq<char>| item != id@),
            texts(left@) == all.take(i as int).filter(keep),
        decreases list@.len() - i,
    {
        proof {
            filter_step(all, keep, i as int);
        }
        let ghost before = left@;
        if !same(list[i].as_str(), id) {
            left.push(list[i].clone());
            assert(texts(left@) == texts(before).push(all[i as int]));
        }
        i += 1;
    }
    assert(all.take(all.len() as int) == all);
    left
}

/// A refusal of the first references is a refusal of all.
proof fn references_stay_refused(
    tasks: Seq<TaskModel>,
    id: Seq<char>,
    references: Seq<Seq<char>>,
    side: Seq<char>,
    n: int,
    message: Seq<char>,
)
    requires
        0 <= n <= references.len(),
        resolved_all(tasks, id, references.take(n), side) == Err::<Seq<Seq<char>>, Seq<char>>(
            message,
        ),
    ensures
        resolved_all(tasks, id, references, side) == Err::<Seq<Seq<char>>, Seq<char>>(message),
    decreases references.len() - n,
{
    if n == references.len() {
        assert(references.take(n) == references);
    } else {
        assert(references.take(n + 1).drop_last() == references.take(n));
        references_stay_refused(tasks, id, references, side, n + 1, message);
    }
}

/// Whether some entry of the batch asks for the given task to be active.
fn asks_active(entries: &[Entry], outcomes: &Vec<Outcome>, id: &str) -> (r: bool)
    requires
        entries@.len() == outcomes@.len(),
    ensures
        r == asked_active(
            entries_of(entries@),
            Seq::new(outcomes@.len(), |i: int| outcomes@[i]@),
            id@,
        ),
{
    let ghost all = entries_of(entries@);
    let ghost results = Seq::new(outcomes@.len(), |i: int| outcomes@[i]@);
    let mut k: usize = 0;
    while k < entries.len()
        invariant
            k <= entries@.len(),
            entries@.len() == outcomes@.len(),
            all == entries_of(entries@),
            results == Seq::new(outcomes@.len(), |i: int| outcomes@[i]@),
            forall|j: int|
                0 <= j < k ==> (#[trigger] all[j]).status != Some("active"@) || results[j].task
                    != Some(id@),
        decreases entries@.len() - k,
    {
        let active = match &entries[k].status {
            Some(status) => same(status.as_str(), "active"),
            None => false,
        };
        let named = match &outcomes[k].task {
            Some(task) => same(task.as_str(), id),
            None => false,
        };
        assert(all[k as int] == entries@[k as int]@);
        assert(results[k as int] == outcomes@[k as int]@);
        if active && named {
            return true;
        }
        k += 1;
    }
    false
}

/// Whether the entry at a place is about a task with one of these ids, and, where that is asked for,
/// wants it active.
fn is_about(
    entries: &[Entry],
    outcomes: &Vec<Outcome>,
    ids: &Vec<String>,
    active: bool,
    at: usize,
) -> (r: bool)
    requires
        at < entries@.len() == outcomes@.len(),
    ensures
        r == ((active ==> entries@[at as int]@.status == Some("active"@))
            && outcomes@[at as int]@.task is Some && texts(ids@).contains(
            outcomes@[at as int]@.task->0,
        )),
{
    let wanted = match &entries[at].status {
        Some(status) => same(status.as_str(), "active"),
        None => false,
    };
    if active && !wanted {
        return false;
    }
    match &outcomes[at].task {
        Some(task) => holds(ids, task.as_str()),
        None => false,
    }
}

/// The last entry that is about a task with one of these ids, and, where that is asked for, wants it
/// active.
fn find_about(
    entries: &[Entry],
    outcomes: &Vec<Outcome>,
    ids: &Vec<String>,
    active: bool,
) -> (at: Option<usize>)
    requires
        entries@.len() == outcomes@.len(),
    ensures
        (match at {
            Some(at) => Some(at as int),
            None => None,
        }) == last_about(
            entries_of(entries@),
            Seq::new(outcomes@.len(), |i: int| outcomes@[i]@),
            texts(ids@),
            active,
            entries@.len(),
        ),
        at matches Some(at) ==> at < entries@.len(),
{
    let ghost all = entries_of(entries@);
    let ghost results = Seq::new(outcomes@.len(), |i: int| outcomes@[i]@);
    let mut n: usize = entries.len();
    while n > 0
        invariant
            n <= entries@.len() == outcomes@.len(),
            all == entries_of(entries@),
            results == Seq::new(outcomes@.len(), |i: int| outcomes@[i]@),
            last_about(all, results, texts(ids@), active, n as nat) == last_about(
                all,
                results,
                texts(ids@),
                active,
                entries@.len(),
            ),
        decreases n,
    {
        assert(all[n - 1] == entries@[n - 1]@);
        assert(results[n - 1] == outcomes@[n - 1]@);
        if is_about(entries, outcomes, ids, active, n - 1) {
            return Some(n - 1);
        }
        n -= 1;
    }
    None
}

/// The entry that a cycle is put to.
fn closer(entries: &[Entry], outcomes: &Vec<Outcome>, cycle: &Vec<String>) -> (at: usize)
    requires
        0 < entries@.len() == outcomes@.len(),
    ensures
        at < entries@.len(),
        at == cycle_closer(
            entries_of(entries@),
            Seq::new(outcomes@.len(), |i: int| outcomes@[i]@),
            texts(cycle@),
        ),
{
    match find_about(entries, outcomes, cycle, false) {
        Some(at) => at,
        None => entries.len() - 1,
    }
}

/// The entry that is put to account for too many active tasks.
fn overloading(entries: &[Entry], outcomes: &Vec<Outcome>, started: &Vec<String>) -> (at: usize)
    requires
        0 < entries@.len() == outcomes@.len(),
    ensures
        at < entries@.len(),
        at == overloader(
            entries_of(entries@),
            Seq::new(outcomes@.len(), |i: int| outcomes@[i]@),
            texts(started@),
        ),
{
    match find_about(entries, outcomes, started, true) {
        Some(at) => at,
        None => closer(entries, outcomes, started),
    }
}

/// A message that names the entry it is put to.
fn blame(entries: &[Entry], at: usize, message: String) -> (r: String)
    requires
        at < entries@.len(),
    ensures
        r@ == put_to(entries_of(entries@), at as int, message@),
{
    assert(entries_of(entries@)[at as int] == entries@[at as int]@);
    let mut r = place(&entries[at], at);
    r.append(": ");
    r.append(message.as_str());
    r
}

/// Those of the ids that are not among the others.
fn ids_beyond(ids: &Vec<String>, others: &Vec<String>) -> (left: Vec<String>)
    ensures
        texts(left@) == beyond(texts(ids@), texts(others@)),
{
    let ghost all = texts(ids@);
    let ghost keep = |id: Seq<char>| !texts(others@).contains(id);
    let mut left: Vec<String> = Vec::new();
    let mut i: usize = 0;
    assert(all.take(0) == Seq::<Seq<char>>::empty());
    assert(texts(left@) =~= Seq::<Seq<char>>::empty());
    reveal(Seq::filter);
    while i < ids.len()
        invariant
            i <= ids@.len(),
            all == texts(ids@),
            keep == (|id: Seq<char>| !texts(others@).contains(id)),
            texts(left@) == all.take(i as int).filter(keep),
        decreases ids@.len() - i,
    {
        proof {
            filter_step(all, keep, i as int);
        }
        let ghost before = left@;
        if !holds(others, ids[i].as_str()) {
            left.push(ids[i].clone());
            assert(texts(left@) =~= texts(before).push(ids@[i as int]@));
        }
        i += 1;
    }
    assert(all.take(all.len() as int) == all);
    left
}

impl Ledger {
    /// The ids of the active tasks that wait for unfinished prerequisites.
    fn premature_ids(&self) -> (ids: Vec<String>)
        ensures
            texts(ids@) == premature(self.model().tasks),
    {
        let ghost tasks = self.model().tasks;
        let ghost keep = |task: TaskModel|
            task.status == Status::Active && unfinished(tasks, task.after).len() > 0;
        let mut ids: Vec<String> = Vec::new();
        let mut i: usize = 0;
        assert(tasks.take(0) == Seq::<TaskModel>::empty());
        reveal(Seq::filter);
        while i < self.tasks.len()
            invariant
                i <= self.tasks@.len(),
                tasks == self.model().tasks,
                keep == (|task: TaskModel|
                    task.status == Status::Active && unfinished(tasks, task.after).len() > 0),
                texts(ids@) == ids_of(tasks.take(i as int).filter(keep)),
            decreases self.tasks@.len() - i,
        {
            proof {
                filter_step(tasks, keep, i as int);
            }
            let ghost before = ids@;
            let blockers = self.waiting_for(&self.tasks[i]);
            assert(referred(blockers@).len() == blockers@.len());
            if self.tasks[i].status == Status::Active && blockers.len() > 0 {
                ids.push(self.tasks[i].id.clone());
                assert(texts(ids@) =~= texts(before).push(tasks[i as int].id));
                assert(ids_of(tasks.take(i as int).filter(keep).push(tasks[i as int])) =~= ids_of(
                    tasks.take(i as int).filter(keep),
                ).push(tasks[i as int].id));
            }
            i += 1;
        }
        assert(tasks.take(tasks.len() as int) == tasks);
        ids
    }

    /// Puts the rows in the order of their ids.
    fn regroup(&mut self, order: &Vec<String>)
        ensures
            final(self).model() == (LedgerModel {
                tasks: regrouped(old(self).model().tasks, texts(order@)),
                ..old(self).model()
            }),
    {
        let ghost tasks = self.model().tasks;
        let ghost ids = texts(order@);
        let mut sorted: Vec<Task> = Vec::new();
        let mut k: usize = 0;
        assert(tasks_of(sorted@) == regrouped(tasks, ids.take(0)));
        while k < order.len()
            invariant
                k <= order@.len(),
                tasks == self.model().tasks,
                ids == texts(order@),
                *self == *old(self),
                tasks_of(sorted@) == regrouped(tasks, ids.take(k as int)),
            decreases order@.len() - k,
        {
            let ghost start = tasks_of(sorted@);
            let ghost keep = |task: TaskModel| task.id == ids[k as int];
            let mut i: usize = 0;
            assert(tasks.take(0) == Seq::<TaskModel>::empty());
            reveal(Seq::filter);
            assert(start + Seq::<TaskModel>::empty() == start);
            while i < self.tasks.len()
                invariant
                    i <= self.tasks@.len(),
                    k < order@.len(),
                    tasks == self.model().tasks,
                    ids == texts(order@),
                    keep == (|task: TaskModel| task.id == ids[k as int]),
                    tasks_of(sorted@) == start + tasks.take(i as int).filter(keep),
                decreases self.tasks@.len() - i,
            {
                proof {
                    filter_step(tasks, keep, i as int);
                }
                let ghost before = sorted@;
                if same(self.tasks[i].id.as_str(), order[k].as_str()) {
                    let row = self.tasks[i].duplicate();
                    sorted.push(row);
                    assert(tasks_of(sorted@) =~= tasks_of(before).push(tasks[i as int]));
                    assert((start + tasks.take(i as int).filter(keep)).push(tasks[i as int])
                        =~= start + tasks.take(i as int).filter(keep).push(tasks[i as int]));
                }
                i += 1;
            }
            proof {
                assert(tasks.take(tasks.len() as int) == tasks);
                assert(ids.take(k + 1).drop_last() == ids.take(k as int));
                assert(ids.take(k + 1).last() == ids[k as int]);
            }
            k += 1;
        }
        assert(ids.take(ids.len() as int) == ids);
        self.tasks = sorted;
    }

    /// Puts the plan in topological order, or adds an error where there is none.
    fn sort(&mut self, applied: &mut Applied, entries: &[Entry])
        requires
            entries@.len() == old(applied).outcomes@.len(),
        ensures
            draft_of(*final(self), *final(applied)) == put_in_order(
                draft_of(*old(self), *old(applied)),
                entries_of(entries@),
            ),
            final(applied).outcomes@ == old(applied).outcomes@,
    {
        let order: Result<Vec<String>, String> = match self.topological() {
            Ok(rows) => Ok(ids_referred(&rows)),
            Err(message) => Err(message),
        };
        match order {
            Ok(order) => {
                self.regroup(&order);
            },
            Err(message) => {
                let ghost held = applied@.errors;
                let said = if entries.len() > 0 {
                    let cycle = ids_referred(&self.cycle());
                    blame(entries, closer(entries, &applied.outcomes, &cycle), message)
                } else {
                    message
                };
                applied.errors.push(said);
                assert(applied@.errors =~= held.push(said@));
            },
        }
    }

    /// Sets the tasks with these ids back, or refuses where the batch asked for them to be active.
    fn demote(&mut self, applied: &mut Applied, entries: &[Entry], ids: &Vec<String>, now: i64)
        requires
            entries@.len() == old(applied).outcomes@.len(),
        ensures
            draft_of(*final(self), *final(applied)) == demoted(
                draft_of(*old(self), *old(applied)),
                entries_of(entries@),
                texts(ids@),
                now,
            ),
            final(applied).outcomes@.len() == old(applied).outcomes@.len(),
    {
        let ghost start = draft_of(*self, *applied);
        let ghost all = texts(ids@);
        let mut i: usize = 0;
        assert(draft_of(*self, *applied) == demoted(start, entries_of(entries@), all.take(0), now));
        while i < ids.len()
            invariant
                i <= ids@.len(),
                all == texts(ids@),
                entries@.len() == applied.outcomes@.len(),
                applied@.outcomes == start.applied.outcomes,
                draft_of(*self, *applied) == demoted(
                    start,
                    entries_of(entries@),
                    all.take(i as int),
                    now,
                ),
            decreases ids@.len() - i,
        {
            assert(all.take(i + 1).drop_last() == all.take(i as int));
            assert(all.take(i + 1).last() == all[i as int]);
            let ghost before = draft_of(*self, *applied);
            if asks_active(entries, &applied.outcomes, ids[i].as_str()) {
                let mut message = "#".to_string();
                message.append(ids[i].as_str());
                message.append(": an active task cannot wait for unfinished prerequisites.");
                applied.errors.push(message);
                assert(applied@.errors =~= before.applied.errors.push(message@));
            } else if let Some(row) = self.row_of(ids[i].as_str()) {
                self.tasks[row].status = Status::Pending;
                self.tasks[row].updated = now;
                applied.changed = true;
                assert(self.model().tasks =~= before.ledger.tasks.update(
                    row as int,
                    TaskModel {
                        status: Status::Pending,
                        updated: now,
                        ..before.ledger.tasks[row as int]
                    },
                ));
            }
            i += 1;
        }
        assert(all.take(all.len() as int) == all);
    }

    /// Adds an error where more tasks are active than may be.
    fn cap(&self, applied: &mut Applied, entries: &[Entry], ran: &Vec<String>)
        requires
            entries@.len() == old(applied).outcomes@.len(),
        ensures
            draft_of(*self, *final(applied)) == capped(
                draft_of(*self, *old(applied)),
                entries_of(entries@),
                texts(ran@),
            ),
    {
        let running = self.running_ids();
        let busy: usize = ran.len();
        assert(texts(ran@).len() == ran@.len());
        let limit: usize = if self.parallelism > busy {
            self.parallelism
        } else {
            busy
        };
        let ghost active = in_state(self.model().tasks, View::Active);
        assert(ids_of(active).len() == active.len());
        assert(texts(running@).len() == running@.len());
        if self.parallelism > 0 && running.len() > limit {
            let mut shown: Vec<String> = Vec::new();
            let mut i: usize = 0;
            while i < limit
                invariant
                    i <= limit < running@.len(),
                    shown@.len() == i,
                    forall|j: int| 0 <= j < i ==> (#[trigger] shown@[j])@ == running@[j]@,
                decreases limit - i,
            {
                shown.push(running[i].clone());
                i += 1;
            }
            proof {
                assert forall|j: int| 0 <= j < limit implies (#[trigger] shown@[j])@ == ids_of(
                    active.take(limit as int),
                )[j] by {
                    assert(texts(running@)[j] == ids_of(active)[j]);
                }
                assert(texts(shown@) =~= ids_of(active.take(limit as int)));
            }
            let mut message = decimal(limit as u64);
            message.append(" of ");
            message.append(decimal(self.parallelism as u64).as_str());
            message.append(" task slots are already busy (");
            message.append(join(&shown, ", ").as_str());
            message.append(
                "). Finish one, set one back to pending, or ask the user to use /parallelism.",
            );
            let said = if entries.len() > 0 {
                let started = ids_beyond(&running, ran);
                blame(entries, overloading(entries, &applied.outcomes, &started), message)
            } else {
                message
            };
            let ghost held = applied@.errors;
            applied.errors.push(said);
            assert(applied@.errors =~= held.push(said@));
        }
    }

    /// The ids of the tasks in flight.
    fn running_ids(&self) -> (ids: Vec<String>)
        ensures
            texts(ids@) == ids_of(in_state(self.model().tasks, View::Active)),
    {
        let ghost tasks = self.model().tasks;
        let ghost keep = |task: TaskModel| state_of(tasks, task) == View::Active;
        let mut ids: Vec<String> = Vec::new();
        let mut i: usize = 0;
        assert(tasks.take(0) == Seq::<TaskModel>::empty());
        reveal(Seq::filter);
        while i < self.tasks.len()
            invariant
                i <= self.tasks@.len(),
                tasks == self.model().tasks,
                keep == (|task: TaskModel| state_of(tasks, task) == View::Active),
                texts(ids@) == ids_of(tasks.take(i as int).filter(keep)),
            decreases self.tasks@.len() - i,
        {
            proof {
                filter_step(tasks, keep, i as int);
            }
            let ghost before = ids@;
            if self.view(&self.tasks[i]).state == View::Active {
                ids.push(self.tasks[i].id.clone());
                assert(texts(ids@) =~= texts(before).push(tasks[i as int].id));
                assert(ids_of(tasks.take(i as int).filter(keep).push(tasks[i as int])) =~= ids_of(
                    tasks.take(i as int).filter(keep),
                ).push(tasks[i as int].id));
            }
            i += 1;
        }
        assert(tasks.take(tasks.len() as int) == tasks);
        ids
    }

    /// The end of a batch.
    fn settle(&mut self, applied: &mut Applied, entries: &[Entry], ran: &Vec<String>, now: i64)
        requires
            entries@.len() == old(applied).outcomes@.len(),
        ensures
            draft_of(*final(self), *final(applied)) == settled(
                draft_of(*old(self), *old(applied)),
                entries_of(entries@),
                texts(ran@),
                now,
            ),
    {
        reveal(settled);
        assert(texts(applied.errors@).len() == applied.errors@.len());
        if applied.errors.len() > 0 {
            return;
        }
        self.sort(applied, entries);
        let ids = self.premature_ids();
        self.demote(applied, entries, &ids, now);
        self.cap(applied, entries, ran);
    }

    /// All passes over a batch. Says whether there are enough numbers for the tasks it creates.
    fn upsert_inner(&mut self, applied: &mut Applied, entries: &[Entry], now: i64) -> (fit: bool)
        requires
            old(applied)@ == nothing(entries@.len()),
        ensures
            fit == has_room(old(self).model(), entries_of(entries@), now),
            fit ==> draft_of(*final(self), *final(applied)) == worked(
                old(self).model(),
                entries_of(entries@),
                now,
            ),
    {
        let ghost start = opened(self.model(), entries@.len());
        let ghost all = entries_of(entries@);
        let ran = self.running_ids();
        assert(applied@.outcomes.len() == applied.outcomes@.len());
        let mut i: usize = 0;
        while i < entries.len()
            invariant
                i <= entries@.len(),
                all == entries_of(entries@),
                start == opened(old(self).model(), entries@.len()),
                applied.outcomes@.len() == entries@.len(),
                draft_of(*self, *applied) == all_claimed(start, all, i as nat, now),
                forall|j: int|
                    0 <= j < i ==> fits(
                        all_claimed(start, all, j as nat, now),
                        #[trigger] all[j],
                    ),
            decreases entries@.len() - i,
        {
            assert(all[i as int] == entries@[i as int]@);
            if !self.claim(applied, &entries[i], i, now) {
                assert(!fits(all_claimed(start, all, i as nat, now), all[i as int]));
                return false;
            }
            i += 1;
        }
        let ghost first = draft_of(*self, *applied);
        let mut i: usize = 0;
        while i < entries.len()
            invariant
                i <= entries@.len(),
                all == entries_of(entries@),
                applied.outcomes@.len() == entries@.len(),
                draft_of(*self, *applied) == all_amended(first, all, i as nat, now),
            decreases entries@.len() - i,
        {
            assert(all[i as int] == entries@[i as int]@);
            self.amend(applied, &entries[i], i, now);
            i += 1;
        }
        let ghost second = draft_of(*self, *applied);
        let mut i: usize = 0;
        while i < entries.len()
            invariant
                i <= entries@.len(),
                all == entries_of(entries@),
                applied.outcomes@.len() == entries@.len(),
                draft_of(*self, *applied) == all_related(second, all, i as nat, now),
            decreases entries@.len() - i,
        {
            assert(all[i as int] == entries@[i as int]@);
            self.relate(applied, &entries[i], i, now);
            i += 1;
        }
        self.settle(applied, entries, &ran, now);
        true
    }

    /// Applies a batch where there are enough numbers for the tasks it creates, and otherwise
    /// gives nothing and leaves the ledger as it was.
    pub fn try_upsert(&mut self, entries: &[Entry], now: i64) -> (applied: Option<Applied>)
        ensures
            applied is Some == has_room(old(self).model(), entries_of(entries@), now),
            match applied {
                Some(applied) => draft_of(*final(self), applied) == upserted(
                    old(self).model(),
                    entries_of(entries@),
                    now,
                ),
                None => final(self).model() == old(self).model(),
            },
    {
        let before = self.clone();
        let mut applied = Applied {
            errors: Vec::new(),
            outcomes: outcomes_for(entries.len(), false),
            divided: Vec::new(),
            merged: Vec::new(),
            changed: false,
        };
        assert(applied@ =~= nothing(entries@.len()));
        if !self.upsert_inner(&mut applied, entries, now) {
            *self = before;
            return None;
        }
        assert(texts(applied.errors@).len() == applied.errors@.len());
        if applied.errors.len() > 0 {
            *self = before;
            let ghost errors = applied@.errors;
            applied.outcomes = outcomes_for(entries.len(), true);
            applied.divided.clear();
            applied.merged.clear();
            applied.changed = false;
            assert(applied@ =~= rejected(errors, entries@.len()));
        }
        Some(applied)
    }

    /// Apply a batch. Every rejection names the entry, and any rejection leaves the ledger as it
    /// was. Relations, state, and prose commit together.
    pub fn upsert(&mut self, entries: &[Entry], now: i64) -> (applied: Applied)
        requires
            has_room(old(self).model(), entries_of(entries@), now),
        ensures
            draft_of(*final(self), applied) == upserted(
                old(self).model(),
                entries_of(entries@),
                now,
            ),
    {
        self.try_upsert(entries, now).unwrap()
    }
}

/// The ids of tasks.
fn ids_referred(tasks: &Vec<&Task>) -> (ids: Vec<String>)
    ensures
        texts(ids@) == ids_of(referred(tasks@)),
{
    let mut ids: Vec<String> = Vec::new();
    let mut i: usize = 0;
    while i < tasks.len()
        invariant
            i <= tasks@.len(),
            ids@.len() == i,
            forall|j: int| 0 <= j < i ==> (#[trigger] ids@[j])@ == tasks@[j].id@,
        decreases tasks@.len() - i,
    {
        ids.push(tasks[i].id.clone());
        i += 1;
    }
    assert(texts(ids@) =~= ids_of(referred(tasks@)));
    ids
}

} // verus!
