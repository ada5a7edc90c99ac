//! What an accepted entry does to the plan, told by the fields before and after.

use vstd::prelude::*;
use vstd::view::View as _;

use crate::ledger::batch::EntryModel;
use crate::ledger::batch::OutcomeModel;
use crate::ledger::graph::ordered;
use crate::ledger::graph::scheduled;
use crate::ledger::graph::scheduled_leaves;
use crate::ledger::laws::amended_refuses;
use crate::ledger::laws::claimed_refuses;
use crate::ledger::laws::distinct;
use crate::ledger::laws::id_resolves;
use crate::ledger::laws::order_sound;
use crate::ledger::laws::refusal;
use crate::ledger::laws::regrouped_finds;
use crate::ledger::laws::related_refuses;
use crate::ledger::model::FindingModel;
use crate::ledger::model::LedgerModel;
use crate::ledger::model::Status;
use crate::ledger::model::TaskModel;
use crate::ledger::query::View;
use crate::ledger::query::find;
use crate::ledger::query::has_id;
use crate::ledger::query::in_state;
use crate::ledger::query::position;
use crate::ledger::query::position_iff;
use crate::ledger::query::resolved;
use crate::ledger::query::unfinished;
use crate::ledger::split::ids_of;
use crate::ledger::standing::awaits;
use crate::ledger::standing::kept_by_filter;
use crate::ledger::standing::rows_are_found;
use crate::ledger::standing::still_open;
use crate::ledger::standing::waiting_is_for_open_tasks;
use crate::ledger::write::Draft;
use crate::ledger::write::all_amended;
use crate::ledger::write::all_claimed;
use crate::ledger::write::all_related;
use crate::ledger::write::amended;
use crate::ledger::write::as_dependent;
use crate::ledger::write::asked_active;
use crate::ledger::write::assigned;
use crate::ledger::write::capped;
use crate::ledger::write::claimed;
use crate::ledger::write::demoted;
use crate::ledger::write::edited;
use crate::ledger::write::opened;
use crate::ledger::write::place_of;
use crate::ledger::write::premature;
use crate::ledger::write::put_in_order;
use crate::ledger::write::regrouped;
use crate::ledger::write::related;
use crate::ledger::write::related_before;
use crate::ledger::write::relation_of;
use crate::ledger::write::resolved_all;
use crate::ledger::write::settled;
use crate::ledger::write::touched;
use crate::ledger::write::upserted;
use crate::ledger::write::with_after;
use crate::ledger::write::with_dependents;
use crate::ledger::write::with_tasks;
use crate::ledger::write::worked;
use crate::text::name_of;
use crate::text::space;
use crate::text::trimmed;

verus! {

/// The task with this id.
pub open spec fn task_at(tasks: Seq<TaskModel>, id: Seq<char>) -> TaskModel {
    find(tasks, id)->0
}

/// The same task, but for whether it is active, and when it was last touched.
pub open spec fn same_but_status(a: TaskModel, b: TaskModel) -> bool {
    b == TaskModel { status: b.status, updated: b.updated, ..a }
}

/// Setting tasks back touches nothing but whether they are active.
pub(crate) proof fn demoted_rows(draft: Draft, entries: Seq<EntryModel>, ids: Seq<Seq<char>>, now: i64)
    ensures
        ({
            let tasks = draft.ledger.tasks;
            let next = demoted(draft, entries, ids, now).ledger.tasks;
            &&& next.len() == tasks.len()
            &&& forall|i: int|
                0 <= i < tasks.len() ==> same_but_status(tasks[i], #[trigger] next[i]) && (
                next[i].status == tasks[i].status || next[i].status == Status::Pending
                    && ids.contains(tasks[i].id))
        }),
        demoted(draft, entries, ids, now).applied.errors.len() >= draft.applied.errors.len(),
        demoted(draft, entries, ids, now).applied.outcomes == draft.applied.outcomes,
    decreases ids.len(),
{
    let tasks = draft.ledger.tasks;
    if ids.len() > 0 {
        demoted_rows(draft, entries, ids.drop_last(), now);
        let before = demoted(draft, entries, ids.drop_last(), now).ledger.tasks;
        let next = demoted(draft, entries, ids, now).ledger.tasks;
        let id = ids.last();
        position_iff(before, id);
        assert forall|i: int| 0 <= i < tasks.len() implies same_but_status(
            tasks[i],
            #[trigger] next[i],
        ) && (next[i].status == tasks[i].status || next[i].status == Status::Pending
            && ids.contains(tasks[i].id)) by {
            assert(same_but_status(tasks[i], before[i]));
            if ids.drop_last().contains(tasks[i].id) {
                let k = choose|k: int|
                    0 <= k < ids.drop_last().len() && ids.drop_last()[k] == tasks[i].id;
                assert(ids[k] == tasks[i].id);
            }
            assert(ids[ids.len() - 1] == id);
        }
    }
}

/// Rows with the same ids are found at the same places.
pub proof fn found_by_rows(a: Seq<TaskModel>, b: Seq<TaskModel>, id: Seq<char>)
    requires
        a.len() == b.len(),
        forall|i: int| 0 <= i < a.len() ==> (#[trigger] a[i]).id == b[i].id,
    ensures
        position(a, id) == position(b, id),
        has_id(a, id) == has_id(b, id),
        has_id(a, id) ==> {
            let row = position(a, id)->0;
            0 <= row < a.len() && find(a, id) == Some(a[row]) && find(b, id) == Some(b[row])
                && a[row].id == id
        },
{
    position_iff(a, id);
    position_iff(b, id);
    if has_id(a, id) {
        let i = choose|i: int| 0 <= i < a.len() && (#[trigger] a[i]).id == id;
        assert(b[i].id == id);
    }
    if has_id(b, id) {
        let i = choose|i: int| 0 <= i < b.len() && (#[trigger] b[i]).id == id;
        assert(a[i].id == id);
    }
    if has_id(a, id) {
        let x = position(a, id)->0;
        let y = position(b, id)->0;
        assert(a[y].id == id);
        assert(b[x].id == id);
        if x < y {
            assert(b[x].id != id);
        } else if y < x {
            assert(a[y].id != id);
        }
    }
}

/// A plan put in order holds the same tasks under the same ids.
pub(crate) proof fn order_finds(tasks: Seq<TaskModel>, id: Seq<char>)
    requires
        ordered(tasks) is Ok,
    ensures
        ({
            let next = regrouped(tasks, ids_of(ordered(tasks)->Ok_0));
            &&& has_id(next, id) == has_id(tasks, id)
            &&& find(next, id) == find(tasks, id)
        }),
{
    let order = scheduled(tasks).0;
    let ids = ids_of(order);
    scheduled_leaves(tasks);
    regrouped_finds(tasks, ids, id);
    position_iff(tasks, id);
    position_iff(regrouped(tasks, ids), id);
    if has_id(tasks, id) {
        assert(has_id(order, id));
        let k = choose|k: int| 0 <= k < order.len() && (#[trigger] order[k]).id == id;
        assert(ids[k] == id);
    }
}

/// Plans that find the same tasks await the same.
pub(crate) proof fn awaits_by_finding(a: Seq<TaskModel>, b: Seq<TaskModel>, task: TaskModel)
    requires
        distinct(a),
        distinct(b),
        forall|id: Seq<char>| #[trigger]
            has_id(a, id) ==> has_id(b, id) && still_open(find(a, id)->0) == still_open(
                find(b, id)->0,
            ),
        awaits(a, task),
    ensures
        awaits(b, task),
{
    let j = choose|j: int|
        0 <= j < a.len() && still_open(#[trigger] a[j]) && task.after.contains(a[j].id);
    rows_are_found(a, j);
    assert(has_id(a, a[j].id));
    position_iff(b, a[j].id);
    let row = position(b, a[j].id)->0;
    assert(still_open(b[row]) && task.after.contains(b[row].id));
}

/// The end of an accepted batch touches nothing of a task but whether it is active: it sets an active
/// task back exactly where it awaits an open one.
pub proof fn settling_sets_back(
    draft: Draft,
    entries: Seq<EntryModel>,
    ran: Seq<Seq<char>>,
    now: i64,
    id: Seq<char>,
)
    requires
        distinct(draft.ledger.tasks),
        settled(draft, entries, ran, now).applied.errors.len() == 0,
    ensures
        draft.applied.errors.len() == 0,
        ({
            let tasks = draft.ledger.tasks;
            let last = settled(draft, entries, ran, now).ledger.tasks;
            &&& has_id(last, id) == has_id(tasks, id)
            &&& has_id(tasks, id) ==> {
                let a = task_at(tasks, id);
                let b = task_at(last, id);
                &&& same_but_status(a, b)
                &&& b.status == if a.status == Status::Active && awaits(tasks, a) {
                    Status::Pending
                } else {
                    a.status
                }
            }
        }),
        settled(draft, entries, ran, now).applied.outcomes == draft.applied.outcomes,
{
    reveal(settled);
    let tasks = draft.ledger.tasks;
    let sorted = put_in_order(draft, entries);
    let ids = premature(sorted.ledger.tasks);
    let end = demoted(sorted, entries, ids, now);
    demoted_rows(sorted, entries, ids, now);
    assert(sorted.applied.errors.len() == 0);
    assert(ordered(tasks) is Ok);
    order_finds(tasks, id);
    order_sound(tasks);
    let a = sorted.ledger.tasks;
    let b = end.ledger.tasks;
    assert(settled(draft, entries, ran, now).ledger.tasks == b);
    assert forall|i: int| 0 <= i < a.len() implies (#[trigger] a[i]).id == b[i].id by {
        assert(same_but_status(a[i], b[i]));
    }
    found_by_rows(a, b, id);
    position_iff(tasks, id);
    if has_id(tasks, id) {
        let row = position(a, id)->0;
        let task = a[row];
        assert(same_but_status(a[row], b[row]));
        let early = |task: TaskModel|
            task.status == Status::Active && unfinished(a, task.after).len() > 0;
        let group = a.filter(early);
        waiting_is_for_open_tasks(a, task);
        assert forall|x: Seq<char>| #[trigger] has_id(a, x) implies has_id(tasks, x) && still_open(
            find(a, x)->0,
        ) == still_open(find(tasks, x)->0) by {
            order_finds(tasks, x);
        }
        assert forall|x: Seq<char>| #[trigger] has_id(tasks, x) implies has_id(a, x) && still_open(
            find(a, x)->0,
        ) == still_open(find(tasks, x)->0) by {
            order_finds(tasks, x);
        }
        if awaits(a, task) {
            awaits_by_finding(a, tasks, task);
        }
        if awaits(tasks, task) {
            awaits_by_finding(tasks, a, task);
        }
        if ids.contains(id) {
            let k = choose|k: int| 0 <= k < ids.len() && ids[k] == id;
            kept_by_filter(a, early, group[k]);
            assert(group.contains(group[k]));
            let i = choose|i: int| 0 <= i < a.len() && a[i] == group[k];
            rows_are_found(a, i);
            assert(task == group[k]);
        }
        if task.status == Status::Active && awaits(a, task) {
            kept_by_filter(a, early, task);
            assert(a.contains(a[row]));
            let k = choose|k: int| 0 <= k < group.len() && group[k] == task;
            assert(ids[k] == id);
            crate::ledger::laws::demoted_resets(sorted, entries, ids, now);
            assert(ids.contains(a[row].id));
            assert(b[row].status == Status::Pending);
        }
    }
}

/// What a reference resolves to is a task of the plan.
pub proof fn references_resolve_to_tasks(tasks: Seq<TaskModel>, reference: Seq<char>)
    requires
        resolved(tasks, reference) is Some,
    ensures
        tasks.contains(resolved(tasks, reference)->0),
        has_id(tasks, resolved(tasks, reference)->0.id),
{
    let wanted = crate::ledger::query::normalized(tasks, reference);
    let task = resolved(tasks, reference)->0;
    position_iff(tasks, wanted);
    if find(tasks, wanted) is Some {
        assert(tasks[position(tasks, wanted)->0] == task);
    } else {
        let named = crate::ledger::query::titled(tasks, wanted);
        titled_are_tasks(tasks, wanted, named, task);
    }
    let i = choose|i: int| 0 <= i < tasks.len() && tasks[i] == task;
    assert(tasks[i].id == task.id);
}

/// The preferred one among tasks with a title is a task of the plan.
pub(crate) proof fn titled_are_tasks(
    tasks: Seq<TaskModel>,
    wanted: Seq<char>,
    named: Seq<TaskModel>,
    task: TaskModel,
)
    requires
        named == crate::ledger::query::titled(tasks, wanted),
        crate::ledger::query::preferred(named) == Some(task),
    ensures
        tasks.contains(task),
{
    let open = crate::ledger::query::open_tasks(named);
    if open.len() > 0 {
        assert(open.contains(open[0]));
        kept_by_filter(named, |task: TaskModel| !crate::ledger::model::terminal(task), task);
    } else {
        assert(named.contains(named[0]));
    }
    kept_by_filter(
        tasks,
        |task: TaskModel| crate::text::folded(task.title) == crate::text::folded(wanted),
        task,
    );
}

/// A batch of one entry was accepted, and is about a task that was there; the entry neither splits
/// nor merges.
pub open spec fn edits(ledger: LedgerModel, entry: EntryModel, now: i64, id: Seq<char>) -> bool {
    let r = upserted(ledger, seq![entry], now).applied;
    &&& distinct(ledger.tasks)
    &&& entry.split is None
    &&& entry.merge is None
    &&& r.errors.len() == 0
    &&& r.outcomes[0].task == Some(id)
    &&& !r.outcomes[0].created
}

/// The prerequisites that the task of the entry ends up with.
spec fn after_of(tasks: Seq<TaskModel>, row: int, id: Seq<char>, entry: EntryModel) -> Seq<Seq<char>> {
    match entry.after {
        None => tasks[row].after,
        Some(field) => relation_of(tasks, id, field, "after"@)->Ok_0,
    }
}

/// The three drafts of a batch of one entry.
pub(crate) proof fn passes_of_one(ledger: LedgerModel, entry: EntryModel, now: i64)
    ensures
        ({
            let entries = seq![entry];
            let first = claimed(opened(ledger, 1), entry, 0, now);
            let second = amended(first, entry, 0, now);
            let third = related(second, entry, 0, now);
            let ran = ids_of(in_state(ledger.tasks, View::Active));
            worked(ledger, entries, now) == settled(third, entries, ran, now)
        }),
{
    let entries = seq![entry];
    let start = opened(ledger, 1);
    assert(entries.len() == 1);
    reveal_with_fuel(all_claimed, 2);
    reveal_with_fuel(all_amended, 2);
    reveal_with_fuel(all_related, 2);
    assert(all_claimed(start, entries, 1, now) == claimed(start, entries[0], 0, now));
}

/// No pass over an accepted batch of one entry refuses anything.
pub(crate) proof fn accepted_throughout(ledger: LedgerModel, entry: EntryModel, now: i64)
    requires
        upserted(ledger, seq![entry], now).applied.errors.len() == 0,
    ensures
        ({
            let entries = seq![entry];
            let first = claimed(opened(ledger, 1), entry, 0, now);
            let second = amended(first, entry, 0, now);
            let third = related(second, entry, 0, now);
            let ran = ids_of(in_state(ledger.tasks, View::Active));
            &&& first.applied.errors.len() == 0
            &&& second.applied.errors.len() == 0
            &&& third.applied.errors.len() == 0
            &&& settled(third, entries, ran, now).applied.errors.len() == 0
            &&& settled(third, entries, ran, now).applied.outcomes == third.applied.outcomes
            &&& upserted(ledger, entries, now) == settled(third, entries, ran, now)
        }),
{
    let entries = seq![entry];
    let start = opened(ledger, 1);
    let first = claimed(start, entry, 0, now);
    let second = amended(first, entry, 0, now);
    let third = related(second, entry, 0, now);
    passes_of_one(ledger, entry, now);
    claimed_refuses(start, entry, 0, now);
    amended_refuses(first, entry, 0, now);
    related_refuses(second, entry, 0, now);
    reveal(settled);
    demoted_rows(
        put_in_order(third, entries),
        entries,
        premature(put_in_order(third, entries).ledger.tasks),
        now,
    );
}

/// What the relations of an entry leave of the outcomes.
pub(crate) proof fn related_outcome(draft: Draft, entry: EntryModel, now: i64)
    requires
        draft.applied.outcomes.len() == 1,
    ensures
        ({
            let a = draft.applied.outcomes[0];
            let b = related(draft, entry, 0, now).applied.outcomes[0];
            &&& related(draft, entry, 0, now).applied.outcomes.len() == 1
            &&& b.task == a.task
            &&& b.created == a.created
        }),
{
    reveal(related);
}

/// What the fields of an entry leave of the outcomes.
pub(crate) proof fn amended_outcome(draft: Draft, entry: EntryModel, now: i64)
    requires
        draft.applied.outcomes.len() == 1,
    ensures
        ({
            let a = draft.applied.outcomes[0];
            let b = amended(draft, entry, 0, now).applied.outcomes[0];
            &&& amended(draft, entry, 0, now).applied.outcomes.len() == 1
            &&& b.task == a.task
            &&& b.created == a.created
            &&& a.refused == b.refused || amended(draft, entry, 0, now).applied.errors.len() > 0
        }),
{
    reveal(amended);
}

/// The second pass over a batch of one entry edits the row of its task.
proof fn rows_are_edited(ledger: LedgerModel, entry: EntryModel, now: i64, id: Seq<char>)
    requires
        edits(ledger, entry, now, id),
    ensures
        ({
            let tasks = ledger.tasks;
            let row = position(tasks, id)->0;
            let first = claimed(opened(ledger, 1), entry, 0, now);
            let second = amended(first, entry, 0, now);
            &&& has_id(tasks, id)
            &&& second.ledger.tasks == tasks.update(row, edited(tasks[row], id, entry, now))
            &&& assigned(second, 0) == Some(id)
            &&& second.applied.outcomes.len() == 1
        }),
{
    let tasks = ledger.tasks;
    let start = opened(ledger, 1);
    let first = claimed(start, entry, 0, now);
    let second = amended(first, entry, 0, now);
    accepted_throughout(ledger, entry, now);
    assert(first.applied.outcomes.len() == 1) by {
        reveal(claimed);
    }
    amended_outcome(first, entry, now);
    related_outcome(second, entry, now);
    one_is_claimed(ledger, entry, now);
    position_iff(tasks, id);
    reveal(amended);
}

/// The plan of a batch of one entry before its end, row by row.
proof fn rows_of_one(ledger: LedgerModel, entry: EntryModel, now: i64, id: Seq<char>)
    requires
        edits(ledger, entry, now, id),
    ensures
        has_id(ledger.tasks, id),
        ({
            let tasks = ledger.tasks;
            let row = position(tasks, id)->0;
            let first = claimed(opened(ledger, 1), entry, 0, now);
            let second = amended(first, entry, 0, now);
            let third = related(second, entry, 0, now);
            let mid = tasks.update(row, edited(tasks[row], id, entry, now));
            let after = after_of(mid, row, id, entry);
            let set = mid.update(row, TaskModel { after, ..mid[row] });
            let last = third.ledger.tasks;
            &&& 0 <= row < tasks.len()
            &&& tasks[row].id == id
            &&& worked(ledger, seq![entry], now).applied.errors.len() == 0
            &&& upserted(ledger, seq![entry], now).ledger == settled(
                third,
                seq![entry],
                ids_of(in_state(tasks, View::Active)),
                now,
            ).ledger
            &&& entry.after matches Some(field) ==> relation_of(mid, id, field, "after"@) is Ok
            &&& entry.before matches Some(field) ==> relation_of(set, id, field, "before"@) is Ok
            &&& last.len() == tasks.len()
            &&& last[row] == TaskModel { updated: last[row].updated, ..set[row] }
            &&& forall|i: int|
                0 <= i < tasks.len() && i != row ==> #[trigger] last[i] == match entry.before {
                    None => tasks[i],
                    Some(field) => as_dependent(
                        tasks[i],
                        id,
                        relation_of(set, id, field, "before"@)->Ok_0,
                        now,
                    ),
                }
        }),
{
    let tasks = ledger.tasks;
    let entries = seq![entry];
    let start = opened(ledger, 1);
    let first = claimed(start, entry, 0, now);
    let second = amended(first, entry, 0, now);
    let third = related(second, entry, 0, now);
    let ran = ids_of(in_state(tasks, View::Active));
    passes_of_one(ledger, entry, now);
    accepted_throughout(ledger, entry, now);
    rows_are_edited(ledger, entry, now, id);
    reveal(related);
    position_iff(tasks, id);
    let row = position(tasks, id)->0;
    let mid = tasks.update(row, edited(tasks[row], id, entry, now));
    assert forall|i: int| 0 <= i < tasks.len() implies (#[trigger] tasks[i]).id == mid[i].id by {}
    found_by_rows(tasks, mid, id);
    let after = after_of(mid, row, id, entry);
    let set = mid.update(row, TaskModel { after, ..mid[row] });
    assert forall|i: int| 0 <= i < tasks.len() implies (#[trigger] tasks[i]).id == set[i].id by {}
    found_by_rows(tasks, set, id);
    if entry.after is None {
        assert(set =~= mid);
    } else {
        assert(with_after(mid, id, after) =~= set);
    }
    let last = third.ledger.tasks;
    if let Some(field) = entry.before {
        let wanted = relation_of(set, id, field, "before"@)->Ok_0;
        let next = with_dependents(set, id, wanted, now);
        assert forall|i: int| 0 <= i < tasks.len() implies (#[trigger] tasks[i]).id == next[i].id by {
        }
        found_by_rows(tasks, next, id);
        assert(next[row] == set[row]);
        assert forall|i: int| 0 <= i < tasks.len() && i != row implies set[i] == #[trigger] tasks[i] by {}
    }
}

/// The first pass over an entry that creates, splits and merges nothing leaves the ledger alone.
proof fn one_is_claimed(ledger: LedgerModel, entry: EntryModel, now: i64)
    requires
        entry.split is None,
        entry.merge is None,
        claimed(opened(ledger, 1), entry, 0, now).applied.errors.len() == 0,
        !claimed(opened(ledger, 1), entry, 0, now).applied.outcomes[0].created,
    ensures
        ({
            let first = claimed(opened(ledger, 1), entry, 0, now);
            &&& first.ledger == ledger
            &&& first.applied.divided.len() == 0
            &&& first.applied.outcomes.len() == 1
            &&& !first.applied.outcomes[0].refused
            &&& first.applied.outcomes[0].task matches Some(id) && has_id(ledger.tasks, id)
        }),
{
    reveal(claimed);
    let start = opened(ledger, 1);
    let tasks = ledger.tasks;
    match (entry.id, entry.title) {
        (Some(id), _) => {
            if resolved(tasks, id) is Some {
                references_resolve_to_tasks(tasks, id);
            }
        },
        (None, Some(title)) => {
            let named = crate::ledger::query::titled(tasks, title);
            if crate::ledger::query::preferred(named) is Some {
                let task = crate::ledger::query::preferred(named)->0;
                titled_are_tasks(tasks, title, named, task);
                let i = choose|i: int| 0 <= i < tasks.len() && tasks[i] == task;
                assert(tasks[i].id == task.id);
            }
        },
        (None, None) => {},
    }
}

/// What a clearable field holds after an entry: what it held where the entry leaves it out, nothing
/// where the entry clears it or gives a blank text, and the text without outer white space else.
pub open spec fn field_after(held: Option<Seq<char>>, given: Option<Option<Seq<char>>>) -> Option<
    Seq<char>,
> {
    if given is None {
        held
    } else if given->0 is Some && trimmed(given->0->0).len() > 0 {
        Some(trimmed(given->0->0))
    } else {
        None
    }
}

/// The status after an entry, before the plan is held to its prerequisites: pending where the entry
/// abandons the task, the one that it names where it names one, pending again where it reopens an
/// abandoned task, and as it was else.
pub open spec fn status_after(old: TaskModel, entry: EntryModel) -> Status {
    let abandons = entry.cancelled is Some && field_after(None, entry.cancelled) is Some;
    if abandons {
        Status::Pending
    } else if entry.status == Some("pending"@) {
        Status::Pending
    } else if entry.status == Some("active"@) {
        Status::Active
    } else if entry.status == Some("done"@) {
        Status::Done
    } else if entry.cancelled is Some && old.cancelled is Some {
        Status::Pending
    } else {
        old.status
    }
}

/// Where a task that the batch wants active is among those to be set back, the batch is refused.
proof fn wanted_tasks_are_not_set_back(
    draft: Draft,
    entries: Seq<EntryModel>,
    ids: Seq<Seq<char>>,
    now: i64,
    id: Seq<char>,
)
    requires
        ids.contains(id),
        asked_active(entries, draft.applied.outcomes, id),
    ensures
        demoted(draft, entries, ids, now).applied.errors.len() > draft.applied.errors.len(),
    decreases ids.len(),
{
    let head = ids.drop_last();
    demoted_rows(draft, entries, head, now);
    if ids.last() != id {
        let k = choose|k: int| 0 <= k < ids.len() && ids[k] == id;
        assert(head[k] == id);
        wanted_tasks_are_not_set_back(draft, entries, head, now, id);
    }
}

/// A task that an accepted batch wants active awaits nothing.
proof fn wanted_tasks_await_nothing(
    draft: Draft,
    entries: Seq<EntryModel>,
    ran: Seq<Seq<char>>,
    now: i64,
    id: Seq<char>,
)
    requires
        distinct(draft.ledger.tasks),
        settled(draft, entries, ran, now).applied.errors.len() == 0,
        has_id(draft.ledger.tasks, id),
        asked_active(entries, draft.applied.outcomes, id),
        task_at(draft.ledger.tasks, id).status == Status::Active,
    ensures
        !awaits(draft.ledger.tasks, task_at(draft.ledger.tasks, id)),
{
    settling_sets_back(draft, entries, ran, now, id);
    reveal(settled);
    let tasks = draft.ledger.tasks;
    let sorted = put_in_order(draft, entries);
    let a = sorted.ledger.tasks;
    let ids = premature(a);
    demoted_rows(sorted, entries, ids, now);
    assert(ordered(tasks) is Ok);
    order_finds(tasks, id);
    order_sound(tasks);
    position_iff(a, id);
    let row = position(a, id)->0;
    let task = a[row];
    if awaits(tasks, task) {
        assert forall|x: Seq<char>| #[trigger] has_id(tasks, x) implies has_id(a, x) && still_open(
            find(tasks, x)->0,
        ) == still_open(find(a, x)->0) by {
            order_finds(tasks, x);
        }
        awaits_by_finding(tasks, a, task);
        waiting_is_for_open_tasks(a, task);
        let early = |task: TaskModel|
            task.status == Status::Active && unfinished(a, task.after).len() > 0;
        kept_by_filter(a, early, task);
        assert(a.contains(a[row]));
        let group = a.filter(early);
        let k = choose|k: int| 0 <= k < group.len() && group[k] == task;
        assert(ids[k] == id);
        wanted_tasks_are_not_set_back(sorted, entries, ids, now, id);
    }
}

/// An accepted entry sets on its task what it gives, keeps what it leaves out, and appends a note
/// exactly as written; the task keeps its id and when it was created. Its status is the one asked for;
/// only where the entry does not ask for it to be active may an active task be set back, and only where
/// it awaits an open one.
pub proof fn entries_set_what_they_give(
    ledger: LedgerModel,
    entry: EntryModel,
    now: i64,
    id: Seq<char>,
)
    requires
        edits(ledger, entry, now, id),
    ensures
        ({
            let last = upserted(ledger, seq![entry], now).ledger.tasks;
            let old = task_at(ledger.tasks, id);
            let new = task_at(last, id);
            &&& has_id(ledger.tasks, id)
            &&& has_id(last, id)
            &&& new.id == id
            &&& new.created == old.created
            &&& new.title == if entry.title is Some && entry.id == Some(id) {
                name_of(entry.title->0)
            } else {
                old.title
            }
            &&& new.body == if entry.body is Some {
                entry.body->0
            } else {
                old.body
            }
            &&& new.findings == if entry.note is Some && trimmed(entry.note->0).len() > 0 {
                old.findings.push(FindingModel { at: now, text: entry.note->0, from: None })
            } else {
                old.findings
            }
            &&& new.cancelled == field_after(old.cancelled, entry.cancelled)
            &&& new.waiting == field_after(old.waiting, entry.waiting)
            &&& new.owner == field_after(old.owner, entry.owner)
            &&& {
                ||| new.status == status_after(old, entry)
                ||| status_after(old, entry) == Status::Active && new.status == Status::Pending
                    && awaits(last, new) && entry.status != Some("active"@)
            }
        }),
{
    let entries = seq![entry];
    let tasks = ledger.tasks;
    rows_of_one(ledger, entry, now, id);
    let row = position(tasks, id)->0;
    let first = claimed(opened(ledger, 1), entry, 0, now);
    let second = amended(first, entry, 0, now);
    let third = related(second, entry, 0, now);
    let ran = ids_of(in_state(tasks, View::Active));
    let rows = third.ledger.tasks;
    passes_of_one(ledger, entry, now);
    assert forall|i: int| 0 <= i < tasks.len() implies (#[trigger] tasks[i]).id == rows[i].id by {
        if i != row {
            assert(rows[i].id == tasks[i].id);
        }
    }
    found_by_rows(tasks, rows, id);
    assert(distinct(rows)) by {
        assert forall|i: int, j: int| 0 <= i < j < rows.len() implies (#[trigger] rows[i]).id != (
        #[trigger] rows[j]).id by {
            assert(tasks[i].id != tasks[j].id);
        }
    }
    settling_sets_back(third, entries, ran, now, id);
    let old = tasks[row];
    let mid = rows[row];
    let last = upserted(ledger, entries, now).ledger.tasks;
    let new = task_at(last, id);
    assert(same_but_status(mid, new));
    status_words();
    entry_is_well_formed(ledger, entry, now);
    assert(mid.status == status_after(old, entry));
    if new.status != mid.status {
        assert(distinct(last)) by {
            crate::ledger::laws::settled_sound(third, entries, ran, now);
        }
        assert forall|x: Seq<char>| #[trigger] has_id(rows, x) implies has_id(last, x)
            && still_open(find(rows, x)->0) == still_open(find(last, x)->0) by {
            settling_sets_back(third, entries, ran, now, x);
        }
        awaits_by_finding(rows, last, mid);
        assert(awaits(last, new)) by {
            let j = choose|j: int|
                0 <= j < last.len() && still_open(#[trigger] last[j]) && mid.after.contains(
                    last[j].id,
                );
            assert(new.after == mid.after);
        }
        if entry.status == Some("active"@) {
            assert(entries[0].status == Some("active"@));
            assert(third.applied.outcomes[0].task == Some(id));
            assert(asked_active(entries, third.applied.outcomes, id));
            wanted_tasks_await_nothing(third, entries, ran, now, id);
        }
    }
}

/// The three words for a status are different.
pub(crate) proof fn status_words()
    ensures
        "pending"@ != "active"@,
        "pending"@ != "done"@,
        "active"@ != "done"@,
{
    reveal_strlit("pending");
    reveal_strlit("active");
    reveal_strlit("done");
    assert("pending"@.len() != "active"@.len());
    assert("pending"@.len() != "done"@.len());
    assert("active"@.len() != "done"@.len());
}

/// An entry that is accepted names one of the three statuses, or none.
pub(crate) proof fn entry_is_well_formed(ledger: LedgerModel, entry: EntryModel, now: i64)
    requires
        upserted(ledger, seq![entry], now).applied.errors.len() == 0,
    ensures
        entry.invalid is None,
        entry.status is None || entry.status == Some("pending"@) || entry.status == Some("active"@)
            || entry.status == Some("done"@),
{
    let start = opened(ledger, 1);
    let first = claimed(start, entry, 0, now);
    let second = amended(first, entry, 0, now);
    let third = related(second, entry, 0, now);
    passes_of_one(ledger, entry, now);
    amended_refuses(first, entry, 0, now);
    related_refuses(second, entry, 0, now);
    reveal(claimed);
    reveal(settled);
    demoted_rows(
        put_in_order(third, seq![entry]),
        seq![entry],
        premature(put_in_order(third, seq![entry]).ledger.tasks),
        now,
    );
}

/// An accepted entry leaves every task that it is not about as it is, but for its prerequisites, and
/// for being set back where it is active and awaits an open task.
pub proof fn entries_leave_other_tasks_alone(
    ledger: LedgerModel,
    entry: EntryModel,
    now: i64,
    id: Seq<char>,
    other: Seq<char>,
)
    requires
        edits(ledger, entry, now, id),
        other != id,
    ensures
        ({
            let last = upserted(ledger, seq![entry], now).ledger.tasks;
            let old = task_at(ledger.tasks, other);
            let new = task_at(last, other);
            &&& has_id(last, other) == has_id(ledger.tasks, other)
            &&& has_id(last, other) ==> new == TaskModel {
                after: new.after,
                status: new.status,
                updated: new.updated,
                ..old
            } && (new.status == old.status || old.status == Status::Active && new.status
                == Status::Pending)
            &&& has_id(last, other) && entry.before is None ==> new.after == old.after
        }),
{
    let entries = seq![entry];
    let tasks = ledger.tasks;
    rows_of_one(ledger, entry, now, id);
    let row = position(tasks, id)->0;
    let first = claimed(opened(ledger, 1), entry, 0, now);
    let second = amended(first, entry, 0, now);
    let third = related(second, entry, 0, now);
    let ran = ids_of(in_state(tasks, View::Active));
    let rows = third.ledger.tasks;
    passes_of_one(ledger, entry, now);
    assert forall|i: int| 0 <= i < tasks.len() implies (#[trigger] tasks[i]).id == rows[i].id by {
        if i != row {
            assert(rows[i].id == tasks[i].id);
        }
    }
    found_by_rows(tasks, rows, other);
    assert(distinct(rows)) by {
        assert forall|i: int, j: int| 0 <= i < j < rows.len() implies (#[trigger] rows[i]).id != (
        #[trigger] rows[j]).id by {
            assert(tasks[i].id != tasks[j].id);
        }
    }
    settling_sets_back(third, entries, ran, now, other);
    if has_id(tasks, other) {
        let at = position(tasks, other)->0;
        assert(at != row);
        let x = rows[at];
    }
}

/// The references are ids of the plan.
pub open spec fn are_ids(tasks: Seq<TaskModel>, refs: Seq<Seq<char>>) -> bool {
    forall|k: int|
        0 <= k < refs.len() ==> has_id(tasks, #[trigger] refs[k]) && forall|i: int|
            0 <= i < refs[k].len() ==> !space(#[trigger] refs[k][i])
}

/// References that are ids resolve to those ids, each once, in the order in which they come first.
pub(crate) proof fn ids_resolve_to_themselves(
    tasks: Seq<TaskModel>,
    id: Seq<char>,
    refs: Seq<Seq<char>>,
    side: Seq<char>,
)
    requires
        are_ids(tasks, refs),
        resolved_all(tasks, id, refs, side) is Ok,
    ensures
        ({
            let ids = resolved_all(tasks, id, refs, side)->Ok_0;
            &&& forall|x: Seq<char>| #[trigger] ids.contains(x) <==> refs.contains(x)
            &&& ids.no_duplicates()
            &&& !refs.contains(id)
            &&& refs.no_duplicates() ==> ids == refs
        }),
    decreases refs.len(),
{
    if refs.len() > 0 {
        let head = refs.drop_last();
        let last = refs.last();
        assert(are_ids(tasks, head)) by {
            assert forall|k: int| 0 <= k < head.len() implies has_id(tasks, #[trigger] head[k])
                && forall|i: int| 0 <= i < head[k].len() ==> !space(#[trigger] head[k][i]) by {
                assert(head[k] == refs[k]);
            }
        }
        ids_resolve_to_themselves(tasks, id, head, side);
        assert(has_id(tasks, refs[refs.len() - 1]));
        id_resolves(tasks, last);
        position_iff(tasks, last);
        let before = resolved_all(tasks, id, head, side)->Ok_0;
        let ids = resolved_all(tasks, id, refs, side)->Ok_0;
        assert(refs[refs.len() - 1] == last);
        assert forall|x: Seq<char>| #[trigger] ids.contains(x) <==> refs.contains(x) by {
            if refs.contains(x) {
                let k = choose|k: int| 0 <= k < refs.len() && refs[k] == x;
                if k < head.len() {
                    assert(head[k] == x);
                    assert(before.contains(x));
                    let j = choose|j: int| 0 <= j < before.len() && before[j] == x;
                    assert(ids[j] == x);
                } else if !before.contains(last) {
                    assert(ids[ids.len() - 1] == last);
                }
            }
            if ids.contains(x) {
                let j = choose|j: int| 0 <= j < ids.len() && ids[j] == x;
                if j < before.len() {
                    assert(before[j] == x);
                    assert(before.contains(x));
                    let k = choose|k: int| 0 <= k < head.len() && head[k] == x;
                    assert(refs[k] == x);
                }
            }
        }
        if refs.contains(id) {
            let k = choose|k: int| 0 <= k < refs.len() && refs[k] == id;
            if k < head.len() {
                assert(head[k] == id);
            }
        }
        if refs.no_duplicates() {
            assert(head.no_duplicates()) by {
                assert forall|i: int, j: int| 0 <= i < head.len() && 0 <= j < head.len() && i
                    != j implies head[i] != head[j] by {
                    assert(refs[i] != refs[j]);
                }
            }
            assert(!before.contains(last)) by {
                if before.contains(last) {
                    assert(head.contains(last));
                    let k = choose|k: int| 0 <= k < head.len() && head[k] == last;
                    assert(refs[k] != refs[refs.len() - 1]);
                }
            }
            assert(head.push(last) =~= refs);
        }
    } else {
        assert(resolved_all(tasks, id, refs, side)->Ok_0 =~= refs);
    }
}

/// An accepted entry that gives `after` makes those tasks, and no others, the prerequisites of its
/// task, in their order; one that clears it leaves none; and one that leaves it out changes nothing.
pub proof fn entries_set_prerequisites(
    ledger: LedgerModel,
    entry: EntryModel,
    now: i64,
    id: Seq<char>,
)
    requires
        edits(ledger, entry, now, id),
        entry.after matches Some(Some(refs)) ==> are_ids(ledger.tasks, refs),
    ensures
        ({
            let last = upserted(ledger, seq![entry], now).ledger.tasks;
            let old = task_at(ledger.tasks, id).after;
            let new = task_at(last, id).after;
            match entry.after {
                None => new == old,
                Some(None) => new.len() == 0,
                Some(Some(refs)) => {
                    &&& forall|x: Seq<char>| #[trigger] new.contains(x) <==> refs.contains(x)
                    &&& new.no_duplicates()
                    &&& refs.no_duplicates() ==> new == refs
                    &&& !refs.contains(id)
                },
            }
        }),
{
    let entries = seq![entry];
    let tasks = ledger.tasks;
    rows_of_one(ledger, entry, now, id);
    let row = position(tasks, id)->0;
    let first = claimed(opened(ledger, 1), entry, 0, now);
    let second = amended(first, entry, 0, now);
    let third = related(second, entry, 0, now);
    let ran = ids_of(in_state(tasks, View::Active));
    let rows = third.ledger.tasks;
    passes_of_one(ledger, entry, now);
    assert forall|i: int| 0 <= i < tasks.len() implies (#[trigger] tasks[i]).id == rows[i].id by {
        if i != row {
            assert(rows[i].id == tasks[i].id);
        }
    }
    found_by_rows(tasks, rows, id);
    assert(distinct(rows)) by {
        assert forall|i: int, j: int| 0 <= i < j < rows.len() implies (#[trigger] rows[i]).id != (
        #[trigger] rows[j]).id by {
            assert(tasks[i].id != tasks[j].id);
        }
    }
    settling_sets_back(third, entries, ran, now, id);
    let mid = tasks.update(row, edited(tasks[row], id, entry, now));
    if let Some(Some(refs)) = entry.after {
        ids_stay(tasks, mid, refs);
        ids_resolve_to_themselves(mid, id, refs, "after"@);
    }
}

/// Ids of a plan are ids of one with the same ids.
proof fn ids_stay(a: Seq<TaskModel>, b: Seq<TaskModel>, refs: Seq<Seq<char>>)
    requires
        are_ids(a, refs),
        a.len() == b.len(),
        forall|i: int| 0 <= i < a.len() ==> (#[trigger] a[i]).id == b[i].id,
    ensures
        are_ids(b, refs),
{
    assert forall|k: int| 0 <= k < refs.len() implies has_id(b, #[trigger] refs[k]) && forall|
        i: int,
    | 0 <= i < refs[k].len() ==> !space(#[trigger] refs[k][i]) by {
        found_by_rows(a, b, refs[k]);
    }
}

/// What is left without an id is everything else, in order.
proof fn dropping_keeps_the_rest(list: Seq<Seq<char>>, id: Seq<char>)
    ensures
        crate::ledger::write::dropped_id(list, id) == list.filter(|item: Seq<char>| item != id),
    decreases list.len(),
{
    reveal(Seq::filter);
    if list.len() > 0 {
        dropping_keeps_the_rest(list.drop_last(), id);
    }
}

/// An accepted entry that gives `before` makes exactly those tasks wait for its task. A task that is to
/// wait and did not keeps each of its earlier prerequisites, in the same order, and gains this one; a
/// task that is no longer to wait loses this one and nothing else; and every other task keeps its
/// prerequisites. Clearing it is to have no task wait.
pub proof fn entries_set_dependents(
    ledger: LedgerModel,
    entry: EntryModel,
    now: i64,
    id: Seq<char>,
    other: Seq<char>,
)
    requires
        edits(ledger, entry, now, id),
        entry.before matches Some(Some(refs)) ==> are_ids(ledger.tasks, refs),
        has_id(ledger.tasks, other),
        other != id,
    ensures
        ({
            let last = upserted(ledger, seq![entry], now).ledger.tasks;
            let old = task_at(ledger.tasks, other).after;
            let new = task_at(last, other).after;
            let waits = match entry.before {
                None => old.contains(id),
                Some(None) => false,
                Some(Some(refs)) => refs.contains(other),
            };
            &&& new.contains(id) == waits
            &&& waits == old.contains(id) ==> new == old
            &&& waits && !old.contains(id) ==> new == old.push(id)
            &&& !waits && old.contains(id) ==> new == old.filter(|item: Seq<char>| item != id)
        }),
{
    let entries = seq![entry];
    let tasks = ledger.tasks;
    rows_of_one(ledger, entry, now, id);
    let row = position(tasks, id)->0;
    let first = claimed(opened(ledger, 1), entry, 0, now);
    let second = amended(first, entry, 0, now);
    let third = related(second, entry, 0, now);
    let ran = ids_of(in_state(tasks, View::Active));
    let rows = third.ledger.tasks;
    passes_of_one(ledger, entry, now);
    assert forall|i: int| 0 <= i < tasks.len() implies (#[trigger] tasks[i]).id == rows[i].id by {
        if i != row {
            assert(rows[i].id == tasks[i].id);
        }
    }
    found_by_rows(tasks, rows, other);
    assert(distinct(rows)) by {
        assert forall|i: int, j: int| 0 <= i < j < rows.len() implies (#[trigger] rows[i]).id != (
        #[trigger] rows[j]).id by {
            assert(tasks[i].id != tasks[j].id);
        }
    }
    settling_sets_back(third, entries, ran, now, other);
    let at = position(tasks, other)->0;
    assert(at != row);
    let old = tasks[at].after;
    let new = rows[at].after;
    let mid = tasks.update(row, edited(tasks[row], id, entry, now));
    let after = after_of(mid, row, id, entry);
    let set = mid.update(row, TaskModel { after, ..mid[row] });
    if let Some(Some(refs)) = entry.before {
        ids_stay(tasks, set, refs);
        ids_resolve_to_themselves(set, id, refs, "before"@);
    }
    let keep = |item: Seq<char>| item != id;
    kept_by_filter(old, keep, id);
    if let Some(field) = entry.before {
        let wanted = relation_of(set, id, field, "before"@)->Ok_0;
        assert(rows[at] == as_dependent(tasks[at], id, wanted, now));
        assert(tasks[at].id == other);
        assert(wanted.contains(other) == match field {
            None => false,
            Some(refs) => refs.contains(other),
        });
        dropping_keeps_the_rest(old, id);
        assert(old.push(id)[old.len() as int] == id);
    } else {
        assert(rows[at] == tasks[at]);
    }
}

/// The row is as it was, or was changed now.
pub open spec fn is_stamped(a: TaskModel, b: TaskModel, now: i64) -> bool {
    b == a || b.updated == now
}

/// Rows that are set back are changed now.
proof fn setting_back_is_stamped(
    draft: Draft,
    entries: Seq<EntryModel>,
    ids: Seq<Seq<char>>,
    now: i64,
)
    ensures
        ({
            let tasks = draft.ledger.tasks;
            let next = demoted(draft, entries, ids, now).ledger.tasks;
            &&& next.len() == tasks.len()
            &&& forall|i: int| 0 <= i < tasks.len() ==> is_stamped(tasks[i], #[trigger] next[i], now)
        }),
    decreases ids.len(),
{
    if ids.len() > 0 {
        setting_back_is_stamped(draft, entries, ids.drop_last(), now);
        let tasks = draft.ledger.tasks;
        let before = demoted(draft, entries, ids.drop_last(), now).ledger.tasks;
        let next = demoted(draft, entries, ids, now).ledger.tasks;
        position_iff(before, ids.last());
        assert forall|i: int| 0 <= i < tasks.len() implies is_stamped(
            tasks[i],
            #[trigger] next[i],
            now,
        ) by {
            assert(is_stamped(tasks[i], before[i], now));
        }
    }
}

/// Editing a row stamps it where it changes it.
proof fn editing_is_stamped(task: TaskModel, id: Seq<char>, entry: EntryModel, now: i64)
    ensures
        is_stamped(task, edited(task, id, entry, now), now),
{
    if !crate::ledger::write::changes(task, id, entry, now) {
        assert(edited(task, id, entry, now) =~= task);
    }
}

/// The three passes over a batch of one entry stamp every row that they change.
proof fn passes_are_stamped(ledger: LedgerModel, entry: EntryModel, now: i64, id: Seq<char>)
    requires
        edits(ledger, entry, now, id),
    ensures
        ({
            let tasks = ledger.tasks;
            let first = claimed(opened(ledger, 1), entry, 0, now);
            let second = amended(first, entry, 0, now);
            let last = related(second, entry, 0, now).ledger.tasks;
            &&& last.len() == tasks.len()
            &&& forall|i: int| 0 <= i < tasks.len() ==> is_stamped(tasks[i], #[trigger] last[i], now)
        }),
{
    let tasks = ledger.tasks;
    rows_are_edited(ledger, entry, now, id);
    rows_of_one(ledger, entry, now, id);
    let row = position(tasks, id)->0;
    let second = amended(claimed(opened(ledger, 1), entry, 0, now), entry, 0, now);
    let mid = second.ledger.tasks;
    editing_is_stamped(tasks[row], id, entry, now);
    let after = after_of(mid, row, id, entry);
    let set = mid.update(row, TaskModel { after, ..mid[row] });
    assert forall|i: int| 0 <= i < tasks.len() implies (#[trigger] tasks[i]).id == mid[i].id by {}
    found_by_rows(tasks, mid, id);
    assert forall|i: int| 0 <= i < tasks.len() implies (#[trigger] tasks[i]).id == set[i].id by {}
    found_by_rows(tasks, set, id);
    reveal(related);
    let last = related(second, entry, 0, now).ledger.tasks;
    if entry.after is None {
        assert(set =~= mid);
    } else {
        assert(with_after(mid, id, after) =~= set);
    }
    if let Some(field) = entry.before {
        let wanted = relation_of(set, id, field, "before"@)->Ok_0;
        let next = with_dependents(set, id, wanted, now);
        assert forall|i: int| 0 <= i < tasks.len() implies (#[trigger] tasks[i]).id == next[i].id by {
        }
        found_by_rows(tasks, next, id);
        assert(next[row] == set[row]);
        if after == mid[row].after {
            assert(set =~= mid);
        }
    } else if after == mid[row].after {
        assert(set =~= mid);
    }
    assert forall|i: int| 0 <= i < tasks.len() implies is_stamped(
        tasks[i],
        #[trigger] last[i],
        now,
    ) by {
        if i != row {
            assert(set[i] == tasks[i]);
        }
    }
}

/// An accepted entry stamps every task that it changes, the one it is about or any other, with the time
/// of the batch.
pub proof fn changed_tasks_are_stamped(
    ledger: LedgerModel,
    entry: EntryModel,
    now: i64,
    id: Seq<char>,
    other: Seq<char>,
)
    requires
        edits(ledger, entry, now, id),
        has_id(ledger.tasks, other),
    ensures
        ({
            let last = upserted(ledger, seq![entry], now).ledger.tasks;
            is_stamped(task_at(ledger.tasks, other), task_at(last, other), now)
        }),
{
    let tasks = ledger.tasks;
    let entries = seq![entry];
    let first = claimed(opened(ledger, 1), entry, 0, now);
    let second = amended(first, entry, 0, now);
    let third = related(second, entry, 0, now);
    let ran = ids_of(in_state(tasks, View::Active));
    let rows = third.ledger.tasks;
    passes_of_one(ledger, entry, now);
    accepted_throughout(ledger, entry, now);
    passes_are_stamped(ledger, entry, now, id);
    rows_of_one(ledger, entry, now, id);
    let row = position(tasks, id)->0;
    assert forall|i: int| 0 <= i < tasks.len() implies (#[trigger] tasks[i]).id == rows[i].id by {
        if i != row {
            assert(rows[i].id == tasks[i].id);
        }
    }
    found_by_rows(tasks, rows, other);
    let sorted = put_in_order(third, entries);
    let ids = premature(sorted.ledger.tasks);
    let low = demoted(sorted, entries, ids, now);
    demoted_rows(sorted, entries, ids, now);
    setting_back_is_stamped(sorted, entries, ids, now);
    reveal(settled);
    assert(ordered(rows) is Ok) by {
        if ordered(rows) is Err {
            assert(sorted.applied.errors.len() > 0);
        }
    }
    order_finds(rows, other);
    let a = sorted.ledger.tasks;
    let b = low.ledger.tasks;
    assert forall|i: int| 0 <= i < a.len() implies (#[trigger] a[i]).id == b[i].id by {
        assert(same_but_status(a[i], b[i]));
    }
    found_by_rows(a, b, other);
    let at = position(a, other)->0;
    assert(is_stamped(a[at], b[at], now));
    assert(upserted(ledger, entries, now).ledger.tasks == b);
    let i = position(tasks, other)->0;
    assert(is_stamped(tasks[i], rows[i], now));
}

} // verus!
