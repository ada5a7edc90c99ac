//! Which entries are accepted.

use vstd::prelude::*;
use vstd::view::View as _;

use crate::ledger::batch::EntryModel;
use crate::ledger::effects::accepted_throughout;
use crate::ledger::effects::amended_outcome;
use crate::ledger::effects::are_ids;
use crate::ledger::effects::demoted_rows;
use crate::ledger::effects::edits;
use crate::ledger::effects::found_by_rows;
use crate::ledger::effects::ids_resolve_to_themselves;
use crate::ledger::effects::passes_of_one;
use crate::ledger::effects::references_resolve_to_tasks;
use crate::ledger::effects::related_outcome;
use crate::ledger::effects::same_but_status;
use crate::ledger::effects::status_words;
use crate::ledger::entries::is_called;
use crate::ledger::entries::preferred_is_called;
use crate::ledger::graph::ordered;
use crate::ledger::laws::amended_refuses;
use crate::ledger::laws::distinct;
use crate::ledger::laws::id_resolves;
use crate::ledger::laws::in_order;
use crate::ledger::laws::number_is_new;
use crate::ledger::laws::plans_in_order_stay_in_place;
use crate::ledger::laws::related_refuses;
use crate::ledger::merge::absorbed_into;
use crate::ledger::model::FindingModel;
use crate::ledger::model::LedgerModel;
use crate::ledger::model::Status;
use crate::ledger::model::TaskModel;
use crate::ledger::query::View;
use crate::ledger::query::find;
use crate::ledger::query::has_id;
use crate::ledger::query::highest;
use crate::ledger::query::in_state;
use crate::ledger::query::open_tasks;
use crate::ledger::query::position;
use crate::ledger::query::position_iff;
use crate::ledger::query::problem_with;
use crate::ledger::query::resolved;
use crate::ledger::query::state_of;
use crate::ledger::query::titled;
use crate::ledger::query::unfinished;
use crate::ledger::split::divided;
use crate::ledger::split::ids_of;
use crate::ledger::standing::awaits;
use crate::ledger::standing::kept_by_filter;
use crate::ledger::standing::open_tasks_are_open;
use crate::ledger::standing::rows_are_found;
use crate::ledger::standing::still_open;
use crate::ledger::standing::waiting_is_for_open_tasks;
use crate::ledger::write::Draft;
use crate::ledger::write::all_amended;
use crate::ledger::write::all_claimed;
use crate::ledger::write::all_related;
use crate::ledger::write::amended;
use crate::ledger::write::as_dependent;
use crate::ledger::write::asked_active;
use crate::ledger::write::assigned;
use crate::ledger::write::capped;
use crate::ledger::write::claimed;
use crate::ledger::write::demoted;
use crate::ledger::write::dropped_id;
use crate::ledger::write::edited;
use crate::ledger::write::naming_refusal;
use crate::ledger::write::opened;
use crate::ledger::write::premature;
use crate::ledger::write::put_in_order;
use crate::ledger::write::related;
use crate::ledger::write::relation_of;
use crate::ledger::write::resolved_all;
use crate::ledger::write::settled;
use crate::ledger::write::touched;
use crate::ledger::write::upserted;
use crate::ledger::write::with_after;
use crate::ledger::write::with_dependents;
use crate::text::folded;
use crate::text::name_of;

verus! {

/// The tasks could all be active at once: there is no limit, or as many slots as tasks.
pub open spec fn slots_for(ledger: LedgerModel, n: nat) -> bool {
    ledger.parallelism == 0 || n <= ledger.parallelism
}

/// The capacity refuses a batch exactly when it is on and more tasks are active than it admits and than
/// were active before.
pub proof fn capacity_refuses_what_exceeds_it(
    draft: Draft,
    entries: Seq<EntryModel>,
    ran: Seq<Seq<char>>,
)
    ensures
        ({
            let active = in_state(draft.ledger.tasks, View::Active).len();
            let after = capped(draft, entries, ran);
            &&& draft.ledger.parallelism > 0 && active > draft.ledger.parallelism && active
                > ran.len() ==> after.applied.errors.len() == draft.applied.errors.len() + 1
            &&& draft.ledger.parallelism == 0 || active <= draft.ledger.parallelism || active
                <= ran.len() ==> after == draft
        }),
{
}

/// Setting back refuses nothing where no entry asked for what is set back to be active.
proof fn setting_back_refuses_nothing(
    draft: Draft,
    entries: Seq<EntryModel>,
    ids: Seq<Seq<char>>,
    now: i64,
)
    requires
        forall|k: int|
            0 <= k < ids.len() ==> !asked_active(
                entries,
                draft.applied.outcomes,
                #[trigger] ids[k],
            ),
    ensures
        demoted(draft, entries, ids, now).applied.errors == draft.applied.errors,
        demoted(draft, entries, ids, now).ledger.parallelism == draft.ledger.parallelism,
    decreases ids.len(),
{
    if ids.len() > 0 {
        let head = ids.drop_last();
        assert forall|k: int| 0 <= k < head.len() implies !asked_active(
            entries,
            draft.applied.outcomes,
            #[trigger] head[k],
        ) by {
            assert(head[k] == ids[k]);
        }
        setting_back_refuses_nothing(draft, entries, head, now);
        assert(ids[ids.len() - 1] == ids.last());
    }
}

/// The last pass refuses nothing of a plan in which each task comes after its prerequisites, where there
/// are slots for all and no task that was asked to be active awaits another.
proof fn settling_refuses_nothing(
    draft: Draft,
    entry: EntryModel,
    ran: Seq<Seq<char>>,
    now: i64,
)
    requires
        draft.applied.errors.len() == 0,
        draft.applied.outcomes.len() == 1,
        distinct(draft.ledger.tasks),
        in_order(draft.ledger.tasks),
        slots_for(draft.ledger, draft.ledger.tasks.len()),
        entry.status == Some("active"@) ==> forall|i: int|
            0 <= i < draft.ledger.tasks.len() && draft.applied.outcomes[0].task == Some(
                (#[trigger] draft.ledger.tasks[i]).id,
            ) ==> !awaits(draft.ledger.tasks, draft.ledger.tasks[i]),
    ensures
        settled(draft, seq![entry], ran, now).applied.errors.len() == 0,
{
    let entries = seq![entry];
    let tasks = draft.ledger.tasks;
    let sorted = put_in_order(draft, entries);
    assert(sorted.ledger == draft.ledger && sorted.applied == draft.applied) by {
        plans_in_order_stay_in_place(tasks);
    }
    let ids = premature(tasks);
    premature_are_not_asked(draft, entry);
    setting_back_refuses_nothing(sorted, entries, ids, now);
    demoted_rows(sorted, entries, ids, now);
    let low = demoted(sorted, entries, ids, now);
    few_are_active(low.ledger.tasks);
    capacity_refuses_what_exceeds_it(low, entries, ran);
    reveal(settled);
}

/// No more tasks are active than there are.
proof fn few_are_active(tasks: Seq<TaskModel>)
    ensures
        in_state(tasks, View::Active).len() <= tasks.len(),
{
    tasks.lemma_filter_len(|task: TaskModel| state_of(tasks, task) == View::Active);
}

/// What is to be set back was not asked to be active, where no task that was asked to be awaits another.
proof fn premature_are_not_asked(draft: Draft, entry: EntryModel)
    requires
        draft.applied.outcomes.len() == 1,
        distinct(draft.ledger.tasks),
        entry.status == Some("active"@) ==> forall|i: int|
            0 <= i < draft.ledger.tasks.len() && draft.applied.outcomes[0].task == Some(
                (#[trigger] draft.ledger.tasks[i]).id,
            ) ==> !awaits(draft.ledger.tasks, draft.ledger.tasks[i]),
    ensures
        forall|k: int|
            0 <= k < premature(draft.ledger.tasks).len() ==> !asked_active(
                seq![entry],
                draft.applied.outcomes,
                #[trigger] premature(draft.ledger.tasks)[k],
            ),
{
    let entries = seq![entry];
    let tasks = draft.ledger.tasks;
    let ids = premature(tasks);
    let early = |task: TaskModel|
        task.status == Status::Active && unfinished(tasks, task.after).len() > 0;
    let group = tasks.filter(early);
    assert forall|k: int| 0 <= k < ids.len() implies !asked_active(
        entries,
        draft.applied.outcomes,
        #[trigger] ids[k],
    ) by {
        assert(ids[k] == group[k].id);
        assert(group.contains(group[k]));
        kept_by_filter(tasks, early, group[k]);
        let i = choose|i: int| 0 <= i < tasks.len() && tasks[i] == group[k];
        waiting_is_for_open_tasks(tasks, tasks[i]);
        if asked_active(entries, draft.applied.outcomes, ids[k]) {
            assert(entries[0] == entry);
            assert(draft.applied.outcomes[0].task == Some(tasks[i].id));
            assert(!awaits(tasks, tasks[i]));
        }
    }
}

/// References that are ids of other tasks are taken.
proof fn ids_are_taken(
    tasks: Seq<TaskModel>,
    id: Seq<char>,
    refs: Seq<Seq<char>>,
    side: Seq<char>,
)
    requires
        are_ids(tasks, refs),
        !refs.contains(id),
    ensures
        resolved_all(tasks, id, refs, side) is Ok,
    decreases refs.len(),
{
    if refs.len() > 0 {
        let head = refs.drop_last();
        let last = refs[refs.len() - 1];
        assert(are_ids(tasks, head)) by {
            assert forall|k: int| 0 <= k < head.len() implies has_id(tasks, #[trigger] head[k])
                && forall|i: int|
                0 <= i < head[k].len() ==> !crate::text::space(#[trigger] head[k][i]) by {
                assert(head[k] == refs[k]);
            }
        }
        if head.contains(id) {
            let k = choose|k: int| 0 <= k < head.len() && head[k] == id;
            assert(refs[k] == id);
        }
        ids_are_taken(tasks, id, head, side);
        assert(has_id(tasks, last));
        id_resolves(tasks, last);
        position_iff(tasks, last);
        assert(refs.contains(last));
    }
}

/// The references are ids of tasks that stand before a row.
pub open spec fn stand_before(tasks: Seq<TaskModel>, refs: Seq<Seq<char>>, row: int) -> bool {
    are_ids(tasks, refs) && forall|j: int|
        row <= j < tasks.len() ==> !refs.contains((#[trigger] tasks[j]).id)
}

/// The references are ids of tasks that stand after a row.
pub open spec fn stand_after(tasks: Seq<TaskModel>, refs: Seq<Seq<char>>, row: int) -> bool {
    are_ids(tasks, refs) && forall|j: int|
        0 <= j <= row && j < tasks.len() ==> !refs.contains((#[trigger] tasks[j]).id)
}

/// A plan whose rows have the same ids, and wait for nothing new that does not stand before them, is in
/// order where the plan was.
proof fn order_stays(a: Seq<TaskModel>, b: Seq<TaskModel>)
    requires
        a.len() == b.len(),
        in_order(a),
        forall|i: int| 0 <= i < a.len() ==> (#[trigger] a[i]).id == b[i].id,
        forall|i: int, k: int|
            0 <= i < b.len() && 0 <= k < b[i].after.len() ==> a[i].after.contains(
                #[trigger] b[i].after[k],
            ) || id_before(a, b[i].after[k], i),
    ensures
        in_order(b),
{
    assert forall|i: int, k: int|
        0 <= i < b.len() && 0 <= k < b[i].after.len() && has_id(
            b,
            #[trigger] b[i].after[k],
        ) implies exists|j: int| 0 <= j < i && (#[trigger] b[j]).id == b[i].after[k] by {
        let id = b[i].after[k];
        found_by_rows(a, b, id);
        if a[i].after.contains(id) {
            let m = choose|m: int| 0 <= m < a[i].after.len() && a[i].after[m] == id;
            assert(has_id(a, a[i].after[m]));
            let j = choose|j: int| 0 <= j < i && (#[trigger] a[j]).id == a[i].after[m];
            assert(b[j].id == id);
        } else {
            assert(id_before(a, id, i));
            let j = choose|j: int| 0 <= j < i && (#[trigger] a[j]).id == id;
            assert(b[j].id == id);
        }
    }
}

/// The id is that of a row before this one.
pub open spec fn id_before(tasks: Seq<TaskModel>, id: Seq<char>, i: int) -> bool {
    exists|j: int| 0 <= j < i && j < tasks.len() && (#[trigger] tasks[j]).id == id
}

/// An id of the plan that is none of the rows from one on is that of a row before it.
proof fn stands_before(tasks: Seq<TaskModel>, refs: Seq<Seq<char>>, row: int, id: Seq<char>)
    requires
        stand_before(tasks, refs, row),
        refs.contains(id),
    ensures
        id_before(tasks, id, row),
{
    let k = choose|k: int| 0 <= k < refs.len() && refs[k] == id;
    assert(has_id(tasks, refs[k]));
    let j = choose|j: int| 0 <= j < tasks.len() && (#[trigger] tasks[j]).id == id;
    if row <= j {
        assert(!refs.contains(tasks[j].id));
    }
}

/// An entry about a task that is there, with fields that can be taken: every reference is an id, the
/// prerequisites stand before the task and its dependents after it, and a new name is free.
pub open spec fn can_be_taken(ledger: LedgerModel, entry: EntryModel, row: int) -> bool {
    let tasks = ledger.tasks;
    let task = tasks[row];
    &&& entry.invalid is None
    &&& entry.split is None
    &&& entry.merge is None
    &&& entry.status is None || entry.status == Some("pending"@) || entry.status == Some("done"@) || (
    entry.status == Some("active"@) && entry.after is None && !awaits(tasks, task))
    &&& entry.title matches Some(title) ==> entry.id == Some(task.id) && problem_with(
        name_of(title),
    ) is None && forall|j: int|
        0 <= j < tasks.len() && j != row && still_open(#[trigger] tasks[j]) ==> folded(
            tasks[j].title,
        ) != folded(name_of(title))
    &&& entry.after matches Some(Some(refs)) ==> stand_before(tasks, refs, row)
    &&& entry.before matches Some(Some(refs)) ==> stand_after(tasks, refs, row)
}

/// What the first two passes leave of an entry that can be taken.
proof fn first_passes_take(
    ledger: LedgerModel,
    entry: EntryModel,
    now: i64,
    row: int,
)
    requires
        distinct(ledger.tasks),
        0 <= row < ledger.tasks.len(),
        entry.id is Some,
        resolved(ledger.tasks, entry.id->0) == Some(ledger.tasks[row]),
        can_be_taken(ledger, entry, row),
    ensures
        ({
            let tasks = ledger.tasks;
            let id = tasks[row].id;
            let first = claimed(opened(ledger, 1), entry, 0, now);
            let second = amended(first, entry, 0, now);
            &&& second.applied.errors.len() == 0
            &&& second.applied.outcomes.len() == 1
            &&& second.applied.outcomes[0].task == Some(id)
            &&& !second.applied.outcomes[0].refused
            &&& !second.applied.outcomes[0].created
            &&& second.ledger == (LedgerModel {
                tasks: tasks.update(row, edited(tasks[row], id, entry, now)),
                ..ledger
            })
        }),
{
    let tasks = ledger.tasks;
    let id = tasks[row].id;
    status_words();
    rows_are_found(tasks, row);
    let start = opened(ledger, 1);
    let first = claimed(start, entry, 0, now);
    assert(first.ledger == ledger && first.applied.errors.len() == 0
        && first.applied.outcomes.len() == 1 && first.applied.outcomes[0].task == Some(id)
        && !first.applied.outcomes[0].refused && !first.applied.outcomes[0].created
        && first.applied.divided.len() == 0) by {
        reveal(claimed);
    }
    assert(naming_refusal(first, id, entry) is None) by {
        if let Some(title) = entry.title {
            if crate::ledger::write::taken_by_other(tasks, id, name_of(title)) {
                let j = choose|j: int|
                    0 <= j < tasks.len() && folded((#[trigger] tasks[j]).title) == folded(
                        name_of(title),
                    ) && tasks[j].id != id && !crate::ledger::model::terminal(tasks[j]);
                assert(still_open(tasks[j]));
            }
        }
    }
    reveal(amended);
}

/// What the relations of an entry that can be taken leave.
proof fn relations_are_taken(
    draft: Draft,
    entry: EntryModel,
    now: i64,
    tasks: Seq<TaskModel>,
    row: int,
)
    requires
        distinct(tasks),
        in_order(tasks),
        0 <= row < tasks.len(),
        draft.ledger.tasks.len() == tasks.len(),
        forall|i: int|
            0 <= i < tasks.len() ==> (#[trigger] draft.ledger.tasks[i]).id == tasks[i].id
                && draft.ledger.tasks[i].after == tasks[i].after,
        draft.applied.errors.len() == 0,
        draft.applied.outcomes.len() == 1,
        draft.applied.outcomes[0].task == Some(tasks[row].id),
        !draft.applied.outcomes[0].refused,
        entry.after matches Some(Some(refs)) ==> stand_before(tasks, refs, row),
        entry.before matches Some(Some(refs)) ==> stand_after(tasks, refs, row),
    ensures
        ({
            let third = related(draft, entry, 0, now);
            let last = third.ledger.tasks;
            &&& third.applied.errors.len() == 0
            &&& third.applied.outcomes.len() == 1
            &&& third.applied.outcomes[0].task == Some(tasks[row].id)
            &&& third.ledger == (LedgerModel { tasks: last, ..draft.ledger })
            &&& last.len() == tasks.len()
            &&& forall|i: int|
                #![trigger last[i]]
                0 <= i < tasks.len() ==> last[i].id == tasks[i].id && last[i].status
                    == draft.ledger.tasks[i].status && last[i].cancelled
                    == draft.ledger.tasks[i].cancelled
            &&& entry.after is None ==> last[row].after == tasks[row].after
            &&& in_order(last)
        }),
{
    reveal(related);
    let id = tasks[row].id;
    let mid = draft.ledger.tasks;
    let third = related(draft, entry, 0, now);
    let last = third.ledger.tasks;
    rows_are_found(tasks, row);
    assert forall|i: int| 0 <= i < tasks.len() implies (#[trigger] tasks[i]).id == mid[i].id by {
        assert(mid[i].id == tasks[i].id);
    }
    found_by_rows(tasks, mid, id);
    if let Some(Some(refs)) = entry.after {
        are_ids_again(tasks, mid, refs);
        assert(!refs.contains(tasks[row].id));
        ids_are_taken(mid, id, refs, "after"@);
        ids_resolve_to_themselves(mid, id, refs, "after"@);
    }
    let after = match entry.after {
        None => mid[row].after,
        Some(field) => relation_of(mid, id, field, "after"@)->Ok_0,
    };
    let set = mid.update(row, TaskModel { after, ..mid[row] });
    assert forall|i: int| 0 <= i < tasks.len() implies (#[trigger] tasks[i]).id == set[i].id by {
        assert(mid[i].id == tasks[i].id);
    }
    found_by_rows(tasks, set, id);
    if entry.after is None {
        assert(set =~= mid);
    } else {
        assert(with_after(mid, id, after) =~= set);
    }
    if let Some(Some(refs)) = entry.before {
        are_ids_again(tasks, set, refs);
        assert(!refs.contains(tasks[row].id));
        ids_are_taken(set, id, refs, "before"@);
        ids_resolve_to_themselves(set, id, refs, "before"@);
    }
    if let Some(field) = entry.before {
        let wanted = relation_of(set, id, field, "before"@)->Ok_0;
        let next = with_dependents(set, id, wanted, now);
        assert forall|i: int| 0 <= i < tasks.len() implies (#[trigger] tasks[i]).id == next[i].id by {
            assert(set[i].id == tasks[i].id);
        }
        found_by_rows(tasks, next, id);
        assert(next[row] == set[row]);
    }
    assert forall|i: int|
        #![trigger last[i]]
        0 <= i < tasks.len() implies last[i].id == tasks[i].id && last[i].status == mid[i].status
        && last[i].cancelled == mid[i].cancelled by {
        assert(set[i].id == tasks[i].id);
    }
    assert forall|i: int| 0 <= i < tasks.len() implies (#[trigger] tasks[i]).id == last[i].id by {
        assert(last[i].id == tasks[i].id);
    }
    assert forall|i: int, k: int|
        0 <= i < last.len() && 0 <= k < last[i].after.len() implies tasks[i].after.contains(
        #[trigger] last[i].after[k],
    ) || id_before(tasks, last[i].after[k], i) by {
        assert(mid[i].after == tasks[i].after);
        let x = last[i].after[k];
        if i == row {
            assert(last[row].after == after);
            if entry.after is None {
                assert(tasks[i].after[k] == x);
            } else if let Some(Some(refs)) = entry.after {
                assert(after.contains(x));
                stands_before(tasks, refs, row, x);
            }
        } else {
            assert(set[i] == mid[i]);
            match entry.before {
                None => {
                    assert(last[i].after == mid[i].after);
                    assert(tasks[i].after[k] == x);
                },
                Some(field) => {
                    let wanted = relation_of(set, id, field, "before"@)->Ok_0;
                    assert(tasks[i].id != id) by {
                        if i < row {
                            assert(tasks[i].id != tasks[row].id);
                        } else {
                            assert(tasks[row].id != tasks[i].id);
                        }
                    }
                    assert(last[i] == as_dependent(mid[i], id, wanted, now));
                    dependents_wait_for_little(mid[i], id, wanted, now, k);
                    if !tasks[i].after.contains(x) {
                        assert(x == id && wanted.contains(tasks[i].id));
                        if let Some(refs) = field {
                            assert(refs.contains(tasks[i].id));
                            if i <= row {
                                assert(!refs.contains(tasks[i].id));
                            }
                        }
                        assert(tasks[row].id == id);
                        assert(id_before(tasks, id, i));
                    }
                },
            }
        }
    }
    order_stays(tasks, last);
}

/// A dependent waits for what it waited for, and for the one task where it is wanted.
proof fn dependents_wait_for_little(
    task: TaskModel,
    id: Seq<char>,
    wanted: Seq<Seq<char>>,
    now: i64,
    k: int,
)
    requires
        0 <= k < as_dependent(task, id, wanted, now).after.len(),
    ensures
        ({
            let x = as_dependent(task, id, wanted, now).after[k];
            task.after.contains(x) || x == id && wanted.contains(task.id)
        }),
{
    let next = as_dependent(task, id, wanted, now);
    let x = next.after[k];
    if task.id == id || task.after.contains(id) == wanted.contains(task.id) {
        assert(task.after[k] == x);
    } else if wanted.contains(task.id) {
        if k < task.after.len() {
            assert(task.after[k] == x);
        }
    } else {
        assert(dropped_id(task.after, id).contains(x));
        dropping_adds_nothing(task.after, id, x);
    }
}

/// What is left of a list was in it.
proof fn dropping_adds_nothing(list: Seq<Seq<char>>, id: Seq<char>, x: Seq<char>)
    requires
        dropped_id(list, id).contains(x),
    ensures
        list.contains(x),
    decreases list.len(),
{
    reveal(Seq::filter);
    let head = list.drop_last();
    let before = dropped_id(head, id);
    let after = dropped_id(list, id);
    let k = choose|k: int| 0 <= k < after.len() && after[k] == x;
    if k < before.len() {
        assert(before[k] == x);
        dropping_adds_nothing(head, id, x);
        let m = choose|m: int| 0 <= m < head.len() && head[m] == x;
        assert(list[m] == x);
    } else {
        assert(list[list.len() - 1] == x);
    }
}

/// Ids of a plan are ids of a plan with the same ids.
proof fn are_ids_again(a: Seq<TaskModel>, b: Seq<TaskModel>, refs: Seq<Seq<char>>)
    requires
        a.len() == b.len(),
        forall|i: int| 0 <= i < a.len() ==> (#[trigger] a[i]).id == b[i].id,
        are_ids(a, refs),
    ensures
        are_ids(b, refs),
{
    assert forall|k: int| 0 <= k < refs.len() implies has_id(b, #[trigger] refs[k]) && forall|i: int|
        0 <= i < refs[k].len() ==> !crate::text::space(#[trigger] refs[k][i]) by {
        assert(has_id(a, refs[k]));
        found_by_rows(a, b, refs[k]);
    }
}

/// An entry on its own about a task that is there is accepted, where its fields can be taken, the plan
/// is in order and there are slots for all its tasks; and it is about that task.
pub proof fn edits_are_accepted(
    ledger: LedgerModel,
    entry: EntryModel,
    now: i64,
    row: int,
)
    requires
        distinct(ledger.tasks),
        in_order(ledger.tasks),
        slots_for(ledger, ledger.tasks.len()),
        0 <= row < ledger.tasks.len(),
        entry.id is Some,
        resolved(ledger.tasks, entry.id->0) == Some(ledger.tasks[row]),
        can_be_taken(ledger, entry, row),
    ensures
        edits(ledger, entry, now, ledger.tasks[row].id),
{
    let tasks = ledger.tasks;
    let id = tasks[row].id;
    let first = claimed(opened(ledger, 1), entry, 0, now);
    let second = amended(first, entry, 0, now);
    let third = related(second, entry, 0, now);
    let last = third.ledger.tasks;
    passes_of_one(ledger, entry, now);
    first_passes_take(ledger, entry, now, row);
    relations_are_taken(second, entry, now, tasks, row);
    status_words();
    assert(distinct(last)) by {
        assert forall|i: int, j: int| 0 <= i < j < last.len() implies (#[trigger] last[i]).id != (
        #[trigger] last[j]).id by {
            assert(tasks[i].id != tasks[j].id);
        }
    }
    if entry.status == Some("active"@) {
        assert forall|i: int| 0 <= i < last.len() && Some(id) == Some(
            (#[trigger] last[i]).id,
        ) implies !awaits(last, last[i]) by {
            assert(i == row) by {
                if i < row {
                    assert(tasks[i].id != tasks[row].id);
                } else if row < i {
                    assert(tasks[row].id != tasks[i].id);
                }
            }
            if awaits(last, last[row]) {
                let j = choose|j: int|
                    0 <= j < last.len() && still_open(#[trigger] last[j])
                        && last[row].after.contains(last[j].id);
                if j == row {
                    let k = choose|k: int|
                        0 <= k < tasks[row].after.len() && tasks[row].after[k] == id;
                    assert(tasks[row].id == id);
                    assert(has_id(tasks, tasks[row].after[k]));
                    let m = choose|m: int|
                        0 <= m < row && (#[trigger] tasks[m]).id == tasks[row].after[k];
                    assert(tasks[m].id != tasks[row].id);
                } else {
                    assert(still_open(tasks[j]));
                    assert(awaits(tasks, tasks[row]));
                }
            }
        }
    }
    settling_refuses_nothing(third, entry, ids_of(in_state(tasks, View::Active)), now);
    related_outcome(second, entry, now);
    accepted_throughout(ledger, entry, now);
}

/// An entry on its own without an id, whose title is a new name, is accepted, where its fields can be
/// taken, the plan is in order, and there is a number and a slot for one task more.
pub proof fn creations_are_accepted(ledger: LedgerModel, entry: EntryModel, now: i64)
    requires
        distinct(ledger.tasks),
        in_order(ledger.tasks),
        slots_for(ledger, ledger.tasks.len() + 1),
        highest(ledger.tasks) < u64::MAX,
        !has_id_after(ledger.tasks, crate::text::decimal_of(highest(ledger.tasks) + 1)),
        entry.id is None,
        entry.title is Some,
        !is_called(ledger.tasks, entry.title->0),
        problem_with(name_of(entry.title->0)) is None,
        entry.invalid is None,
        entry.split is None,
        entry.merge is None,
        entry.after is None,
        entry.before is None,
        entry.status is None || entry.status == Some("pending"@) || entry.status == Some("active"@)
            || entry.status == Some("done"@),
    ensures
        upserted(ledger, seq![entry], now).applied.errors.len() == 0,
{
    let tasks = ledger.tasks;
    let id = crate::text::decimal_of(highest(tasks) + 1);
    let first = claimed(opened(ledger, 1), entry, 0, now);
    let second = amended(first, entry, 0, now);
    let third = related(second, entry, 0, now);
    let title = entry.title->0;
    passes_of_one(ledger, entry, now);
    number_is_new(tasks, highest(tasks) + 1);
    status_words();
    preferred_is_called(tasks, title);
    let named = titled(tasks, title);
    assert(open_tasks(named).len() == 0) by {
        let open = open_tasks(named);
        if open.len() > 0 {
            assert(crate::ledger::query::preferred(named) is Some);
        }
    }
    let new = tasks.push(
        crate::ledger::split::fresh_task(id, name_of(title), Seq::empty(), now),
    );
    assert(first.ledger.tasks == new && first.ledger == (LedgerModel { tasks: new, ..ledger })
        && first.applied.errors.len() == 0 && first.applied.outcomes.len() == 1
        && first.applied.outcomes[0].task == Some(id) && !first.applied.outcomes[0].refused
        && first.applied.divided.len() == 0) by {
        reveal(claimed);
    }
    let row = tasks.len() as int;
    assert(distinct(new)) by {
        assert forall|i: int, j: int| 0 <= i < j < new.len() implies (#[trigger] new[i]).id != (
        #[trigger] new[j]).id by {
            if j < row {
                assert(tasks[i].id != tasks[j].id);
            } else {
                assert(tasks[i].id == new[i].id);
                assert(!has_id(tasks, id));
            }
        }
    }
    rows_are_found(new, row);
    assert(naming_refusal(first, id, entry) is None);
    assert(second.ledger == (LedgerModel {
        tasks: new.update(row, edited(new[row], id, entry, now)),
        ..ledger
    }) && second.applied.errors.len() == 0 && second.applied.outcomes.len() == 1
        && second.applied.outcomes[0].task == Some(id)
        && !second.applied.outcomes[0].refused) by {
        reveal(amended);
    }
    assert(third == second) by {
        reveal(related);
    }
    let last = third.ledger.tasks;
    assert(distinct(last)) by {
        assert forall|i: int, j: int| 0 <= i < j < last.len() implies (#[trigger] last[i]).id != (
        #[trigger] last[j]).id by {
            assert(new[i].id != new[j].id);
        }
    }
    assert forall|i: int, k: int|
        0 <= i < last.len() && 0 <= k < last[i].after.len() && has_id(
            last,
            #[trigger] last[i].after[k],
        ) implies exists|j: int| 0 <= j < i && (#[trigger] last[j]).id == last[i].after[k] by {
        assert(i < row);
        assert(last[i] == tasks[i]);
        let x = tasks[i].after[k];
        let m = choose|m: int| 0 <= m < last.len() && (#[trigger] last[m]).id == x;
        if m < row {
            assert(tasks[m].id == x);
        } else {
            assert(tasks[i].after.contains(x));
            assert(has_id_after(tasks, id));
        }
        assert(has_id(tasks, tasks[i].after[k]));
        let j = choose|j: int| 0 <= j < i && (#[trigger] tasks[j]).id == tasks[i].after[k];
        assert(last[j].id == x);
    }
    assert forall|i: int| 0 <= i < last.len() && Some(id) == Some(
        (#[trigger] last[i]).id,
    ) implies !awaits(last, last[i]) by {
        if i < row {
            assert(last[i].id != last[row].id);
        }
    }
    settling_refuses_nothing(third, entry, ids_of(in_state(tasks, View::Active)), now);
}

/// Some task waits for this id.
pub open spec fn has_id_after(tasks: Seq<TaskModel>, id: Seq<char>) -> bool {
    exists|i: int| 0 <= i < tasks.len() && (#[trigger] tasks[i]).after.contains(id)
}

/// An entry that only records: it names a task by its id, and gives a note, a body or an owner.
pub open spec fn only_records(tasks: Seq<TaskModel>, entry: EntryModel) -> bool {
    &&& entry.id matches Some(id) && has_id(tasks, id) && forall|i: int|
        0 <= i < id.len() ==> !crate::text::space(#[trigger] id[i])
    &&& entry.invalid is None
    &&& entry.title is None
    &&& entry.status is None
    &&& entry.cancelled is None
    &&& entry.waiting is None
    &&& entry.after is None
    &&& entry.before is None
    &&& entry.split is None
    &&& entry.merge is None
}

/// Every entry only records.
pub open spec fn all_only_record(tasks: Seq<TaskModel>, entries: Seq<EntryModel>) -> bool {
    forall|k: int| 0 <= k < entries.len() ==> only_records(tasks, #[trigger] entries[k])
}

/// The outcomes of the first entries stand for the tasks that they name, and no entry is refused.
spec fn name_their_tasks(draft: Draft, entries: Seq<EntryModel>, n: nat) -> bool {
    &&& draft.applied.errors.len() == 0
    &&& draft.applied.divided.len() == 0
    &&& draft.applied.outcomes.len() == entries.len()
    &&& forall|k: int|
        0 <= k < n ==> (#[trigger] draft.applied.outcomes[k]).task == entries[k].id
            && !draft.applied.outcomes[k].refused
}

/// The first pass over entries that only record leaves the ledger alone.
proof fn records_are_claimed(
    ledger: LedgerModel,
    entries: Seq<EntryModel>,
    n: nat,
    now: i64,
)
    requires
        all_only_record(ledger.tasks, entries),
        n <= entries.len(),
    ensures
        all_claimed(opened(ledger, entries.len()), entries, n, now).ledger == ledger,
        name_their_tasks(all_claimed(opened(ledger, entries.len()), entries, n, now), entries, n),
    decreases n,
{
    if n > 0 {
        records_are_claimed(ledger, entries, (n - 1) as nat, now);
        let entry = entries[n - 1];
        assert(only_records(ledger.tasks, entry));
        id_resolves(ledger.tasks, entry.id->0);
        position_iff(ledger.tasks, entry.id->0);
        reveal(claimed);
    }
}

/// The row holds what it held, and its id and its standing are as they were.
pub open spec fn only_recorded(a: TaskModel, b: TaskModel) -> bool {
    &&& b == TaskModel {
        body: b.body,
        owner: b.owner,
        findings: b.findings,
        updated: b.updated,
        ..a
    }
    &&& a.findings.is_prefix_of(b.findings)
}

/// The second pass over entries that only record changes nothing but what they record, and keeps each
/// of their notes.
proof fn records_are_amended(
    draft: Draft,
    entries: Seq<EntryModel>,
    n: nat,
    now: i64,
)
    requires
        distinct(draft.ledger.tasks),
        all_only_record(draft.ledger.tasks, entries),
        name_their_tasks(draft, entries, entries.len()),
        n <= entries.len(),
    ensures
        ({
            let next = all_amended(draft, entries, n, now);
            let tasks = draft.ledger.tasks;
            let last = next.ledger.tasks;
            &&& name_their_tasks(next, entries, entries.len())
            &&& next.ledger == (LedgerModel { tasks: last, ..draft.ledger })
            &&& last.len() == tasks.len()
            &&& forall|i: int| 0 <= i < tasks.len() ==> only_recorded(tasks[i], #[trigger] last[i])
            &&& forall|k: int, i: int|
                0 <= k < n && 0 <= i < tasks.len() && (#[trigger] entries[k]).id == Some(
                    (#[trigger] last[i]).id,
                ) ==> keeps_the_note(entries[k], last[i], now)
        }),
    decreases n,
{
    let tasks = draft.ledger.tasks;
    let next = all_amended(draft, entries, n, now);
    let last = next.ledger.tasks;
    if n > 0 {
        records_are_amended(draft, entries, (n - 1) as nat, now);
        let before = all_amended(draft, entries, (n - 1) as nat, now);
        let mid = before.ledger.tasks;
        let entry = entries[n - 1];
        let id = entry.id->0;
        assert(only_records(tasks, entry));
        assert forall|i: int| 0 <= i < tasks.len() implies (#[trigger] tasks[i]).id == mid[i].id by {
            assert(only_recorded(tasks[i], mid[i]));
        }
        found_by_rows(tasks, mid, id);
        let row = position(mid, id)->0;
        assert(before.applied.outcomes[n - 1].task == Some(id));
        reveal(amended);
        assert(last =~= mid.update(row, edited(mid[row], id, entry, now)));
        assert forall|i: int| 0 <= i < tasks.len() implies only_recorded(
            tasks[i],
            #[trigger] last[i],
        ) by {
            assert(only_recorded(tasks[i], mid[i]));
            if i == row {
                let a = tasks[i].findings;
                let b = mid[i].findings;
                assert(a.is_prefix_of(last[i].findings)) by {
                    assert(b.is_prefix_of(last[i].findings));
                    assert(a =~= last[i].findings.subrange(0, a.len() as int));
                }
            }
        }
        assert forall|k: int, i: int|
            0 <= k < n && 0 <= i < tasks.len() && (#[trigger] entries[k]).id == Some(
                (#[trigger] last[i]).id,
            ) implies keeps_the_note(entries[k], last[i], now) by {
            assert(only_recorded(tasks[i], last[i]));
            assert(only_recorded(tasks[i], mid[i]));
            assert(mid[i].id == last[i].id);
            if k < n - 1 {
                assert(keeps_the_note(entries[k], mid[i], now));
                if i == row {
                    notes_stay(entries[k], mid[i], last[i], now);
                }
            } else {
                assert(tasks[i].id == id);
                assert(i == row) by {
                    if i < row {
                        assert(tasks[i].id != tasks[row].id);
                    } else if row < i {
                        assert(tasks[row].id != tasks[i].id);
                    }
                }
                if let Some(note) = entry.note {
                    if crate::text::trimmed(note).len() > 0 {
                        let f = last[i].findings;
                        assert(f[f.len() - 1] == FindingModel { at: now, text: note, from: None });
                    }
                }
            }
        }
    } else {
        assert forall|i: int| 0 <= i < tasks.len() implies only_recorded(
            tasks[i],
            #[trigger] last[i],
        ) by {
            assert(last[i] == tasks[i]);
        }
    }
}

/// The note of an entry, where it gives one, is among the findings of the task.
pub open spec fn keeps_the_note(entry: EntryModel, task: TaskModel, now: i64) -> bool {
    entry.note matches Some(note) ==> (crate::text::trimmed(note).len() > 0
        ==> task.findings.contains(FindingModel { at: now, text: note, from: None }))
}

/// What is among findings is among those that go on from them.
proof fn notes_stay(entry: EntryModel, a: TaskModel, b: TaskModel, now: i64)
    requires
        keeps_the_note(entry, a, now),
        a.findings.is_prefix_of(b.findings),
    ensures
        keeps_the_note(entry, b, now),
{
    if let Some(note) = entry.note {
        let wanted = FindingModel { at: now, text: note, from: None };
        if a.findings.contains(wanted) {
            let k = choose|k: int| 0 <= k < a.findings.len() && a.findings[k] == wanted;
            assert(b.findings[k] == wanted);
        }
    }
}

/// The third pass over entries that only record changes nothing.
proof fn records_relate_nothing(draft: Draft, entries: Seq<EntryModel>, n: nat, now: i64)
    requires
        forall|k: int|
            0 <= k < entries.len() ==> (#[trigger] entries[k]).after is None && entries[k].before
                is None,
        n <= entries.len(),
    ensures
        all_related(draft, entries, n, now) == draft,
    decreases n,
{
    if n > 0 {
        records_relate_nothing(draft, entries, (n - 1) as nat, now);
        assert(entries[n - 1].after is None);
        reveal(related);
    }
}

/// A batch of any number of entries that only record, about tasks that are there, is accepted, where the
/// plan is in order and there are slots for all its tasks; it keeps every task, and each note is among the
/// findings of its task afterwards, with those that were there before.
pub proof fn records_are_always_accepted(
    ledger: LedgerModel,
    entries: Seq<EntryModel>,
    now: i64,
    k: int,
)
    requires
        distinct(ledger.tasks),
        in_order(ledger.tasks),
        slots_for(ledger, ledger.tasks.len()),
        all_only_record(ledger.tasks, entries),
        0 <= k < entries.len(),
    ensures
        ({
            let r = upserted(ledger, entries, now);
            let tasks = ledger.tasks;
            let last = r.ledger.tasks;
            &&& r.applied.errors.len() == 0
            &&& last.len() == tasks.len()
            &&& forall|i: int|
                0 <= i < tasks.len() ==> (#[trigger] last[i]).id == tasks[i].id && last[i].title
                    == tasks[i].title && last[i].after == tasks[i].after
                    && tasks[i].findings.is_prefix_of(last[i].findings)
            &&& forall|i: int|
                0 <= i < tasks.len() && entries[k].id == Some((#[trigger] last[i]).id)
                    ==> keeps_the_note(entries[k], last[i], now)
        }),
{
    let tasks = ledger.tasks;
    let n = entries.len();
    let first = all_claimed(opened(ledger, n), entries, n, now);
    let second = all_amended(first, entries, n, now);
    let third = all_related(second, entries, n, now);
    let ran = ids_of(in_state(tasks, View::Active));
    records_are_claimed(ledger, entries, n, now);
    records_are_amended(first, entries, n, now);
    assert forall|k: int| 0 <= k < entries.len() implies (#[trigger] entries[k]).after is None
        && entries[k].before is None && entries[k].status is None by {
        assert(only_records(tasks, entries[k]));
    }
    records_relate_nothing(second, entries, n, now);
    let mid = second.ledger.tasks;
    assert forall|i: int| 0 <= i < tasks.len() implies (#[trigger] tasks[i]).id == mid[i].id by {
        assert(only_recorded(tasks[i], mid[i]));
    }
    assert forall|i: int, k: int|
        0 <= i < mid.len() && 0 <= k < mid[i].after.len() implies tasks[i].after.contains(
        #[trigger] mid[i].after[k],
    ) || id_before(tasks, mid[i].after[k], i) by {
        assert(only_recorded(tasks[i], mid[i]));
        assert(tasks[i].after[k] == mid[i].after[k]);
    }
    order_stays(tasks, mid);
    assert(distinct(mid)) by {
        assert forall|i: int, j: int| 0 <= i < j < mid.len() implies (#[trigger] mid[i]).id != (
        #[trigger] mid[j]).id by {
            assert(tasks[i].id != tasks[j].id);
        }
    }
    records_settle(third, entries, ran, now);
    let last = upserted(ledger, entries, now).ledger.tasks;
    assert forall|i: int| 0 <= i < tasks.len() implies (#[trigger] last[i]).id == tasks[i].id
        && last[i].title == tasks[i].title && last[i].after == tasks[i].after
        && tasks[i].findings.is_prefix_of(last[i].findings) by {
        assert(only_recorded(tasks[i], mid[i]));
        assert(same_but_status(mid[i], last[i]));
    }
    assert forall|i: int| 0 <= i < tasks.len() && entries[k].id == Some(
        (#[trigger] last[i]).id,
    ) implies keeps_the_note(entries[k], last[i], now) by {
        assert(same_but_status(mid[i], last[i]));
        assert(mid[i].id == last[i].id);
        assert(keeps_the_note(entries[k], mid[i], now));
    }
}

/// The last pass over entries that ask for no status refuses nothing of a plan in order, where there are
/// slots for all.
proof fn records_settle(draft: Draft, entries: Seq<EntryModel>, ran: Seq<Seq<char>>, now: i64)
    requires
        draft.applied.errors.len() == 0,
        distinct(draft.ledger.tasks),
        in_order(draft.ledger.tasks),
        slots_for(draft.ledger, draft.ledger.tasks.len()),
        forall|k: int| 0 <= k < entries.len() ==> (#[trigger] entries[k]).status is None,
    ensures
        ({
            let tasks = draft.ledger.tasks;
            let low = settled(draft, entries, ran, now);
            &&& low.applied.errors.len() == 0
            &&& low.ledger.tasks.len() == tasks.len()
            &&& forall|i: int|
                0 <= i < tasks.len() ==> same_but_status(tasks[i], #[trigger] low.ledger.tasks[i])
        }),
{
    let tasks = draft.ledger.tasks;
    let sorted = put_in_order(draft, entries);
    assert(sorted.ledger == draft.ledger && sorted.applied == draft.applied) by {
        plans_in_order_stay_in_place(tasks);
    }
    let ids = premature(tasks);
    setting_back_refuses_nothing(sorted, entries, ids, now);
    demoted_rows(sorted, entries, ids, now);
    let low = demoted(sorted, entries, ids, now);
    few_are_active(low.ledger.tasks);
    capacity_refuses_what_exceeds_it(low, entries, ran);
    reveal(settled);
}

/// An entry on its own that only divides a task that is there, or only merges others into it, is accepted
/// exactly when the division or the merge can be made, where the parallelism is off and what comes of
/// it can be put in order.
pub proof fn reshaping_is_accepted(ledger: LedgerModel, entry: EntryModel, now: i64, row: int)
    requires
        distinct(ledger.tasks),
        ledger.parallelism == 0,
        0 <= row < ledger.tasks.len(),
        entry.id is Some,
        resolved(ledger.tasks, entry.id->0) == Some(ledger.tasks[row]),
        entry.invalid is None,
        entry.title is None,
        entry.status is None,
        entry.after is None,
        entry.before is None,
        entry.cancelled is None,
        entry.waiting is None,
        entry.owner is None,
        entry.body is None,
        entry.note is None,
        entry.split is None || entry.merge is None,
    ensures
        ({
            let id = ledger.tasks[row].id;
            let errors = upserted(ledger, seq![entry], now).applied.errors;
            &&& entry.split matches Some(pieces) ==> (divided(ledger.tasks, id, pieces, now)
                matches Ok((next, _)) ==> (ordered(next) is Ok ==> errors.len() == 0))
            &&& entry.split matches Some(pieces) ==> (divided(ledger.tasks, id, pieces, now) is Err
                ==> errors.len() > 0)
            &&& entry.merge matches Some(sources) ==> (absorbed_into(ledger, id, sources, now)
                matches Ok((next, _)) ==> (ordered(next) is Ok ==> errors.len() == 0))
            &&& entry.merge matches Some(sources) ==> (absorbed_into(ledger, id, sources, now)
                is Err ==> errors.len() > 0)
        }),
{
    let tasks = ledger.tasks;
    let id = tasks[row].id;
    let entries = seq![entry];
    let start = opened(ledger, 1);
    let first = claimed(start, entry, 0, now);
    let second = amended(first, entry, 0, now);
    let third = related(second, entry, 0, now);
    let ran = ids_of(in_state(tasks, View::Active));
    passes_of_one(ledger, entry, now);
    amended_refuses(first, entry, 0, now);
    related_refuses(second, entry, 0, now);
    assert(third == second) by {
        reveal(related);
    }
    if first.applied.errors.len() == 0 {
        assert(second.applied.errors.len() == 0) by {
            reveal(claimed);
            reveal(amended);
        }
        nothing_is_edited(first, entry, now);
        if ordered(first.ledger.tasks) is Ok {
            let sorted = put_in_order(third, entries);
            let ids = premature(sorted.ledger.tasks);
            setting_back_refuses_nothing(sorted, entries, ids, now);
            let low = demoted(sorted, entries, ids, now);
            assert(low.ledger.parallelism == 0) by {
                reveal(claimed);
                reveal(amended);
            }
            capacity_refuses_what_exceeds_it(low, entries, ran);
            reveal(settled);
        }
        reveal(claimed);
    } else {
        reveal(claimed);
        reveal(settled);
    }
}

/// An entry without fields edits nothing.
proof fn nothing_is_edited(draft: Draft, entry: EntryModel, now: i64)
    requires
        entry.title is None,
        entry.status is None,
        entry.cancelled is None,
        entry.waiting is None,
        entry.owner is None,
        entry.body is None,
        entry.note is None,
    ensures
        amended(draft, entry, 0, now).ledger.tasks == draft.ledger.tasks,
{
    reveal(amended);
    let a = draft.ledger.tasks;
    let b = amended(draft, entry, 0, now).ledger.tasks;
    if let Some(id) = assigned(draft, 0) {
        position_iff(a, id);
        if let Some(row) = position(a, id) {
            assert(edited(a[row], id, entry, now) == a[row]);
        }
    }
    assert(a =~= b);
}

/// A reference that names no task is not taken.
proof fn unknown_references_are_not_taken(
    tasks: Seq<TaskModel>,
    id: Seq<char>,
    refs: Seq<Seq<char>>,
    side: Seq<char>,
    k: int,
)
    requires
        0 <= k < refs.len(),
        resolved(tasks, refs[k]) is None || resolved(tasks, refs[k])->0.id == id,
    ensures
        resolved_all(tasks, id, refs, side) is Err,
    decreases refs.len(),
{
    if k < refs.len() - 1 {
        unknown_references_are_not_taken(tasks, id, refs.drop_last(), side, k);
    }
}

/// An entry on its own about a task that is there is refused where it gives a title that cannot be one, or
/// that another open task has.
pub proof fn bad_names_are_refused(
    ledger: LedgerModel,
    entry: EntryModel,
    now: i64,
    row: int,
)
    requires
        distinct(ledger.tasks),
        0 <= row < ledger.tasks.len(),
        entry.id == Some(ledger.tasks[row].id),
        resolved(ledger.tasks, entry.id->0) == Some(ledger.tasks[row]),
        entry.split is None,
        entry.merge is None,
        entry.title is Some,
        problem_with(name_of(entry.title->0)) is Some || exists|j: int|
            0 <= j < ledger.tasks.len() && j != row && still_open(#[trigger] ledger.tasks[j])
                && folded(ledger.tasks[j].title) == folded(name_of(entry.title->0)),
    ensures
        upserted(ledger, seq![entry], now).applied.errors.len() > 0,
{
    if upserted(ledger, seq![entry], now).applied.errors.len() == 0 {
        let tasks = ledger.tasks;
        let id = tasks[row].id;
        let first = claimed(opened(ledger, 1), entry, 0, now);
        accepted_throughout(ledger, entry, now);
        assert(first.ledger == ledger && first.applied.outcomes.len() == 1 && assigned(first, 0)
            == Some(id)) by {
            reveal(claimed);
        }
        assert(naming_refusal(first, id, entry) is Some) by {
            let title = name_of(entry.title->0);
            if problem_with(title) is None {
                let j = choose|j: int|
                    0 <= j < tasks.len() && j != row && still_open(#[trigger] tasks[j]) && folded(
                        tasks[j].title,
                    ) == folded(title);
                if j < row {
                    assert(tasks[j].id != tasks[row].id);
                } else {
                    assert(tasks[row].id != tasks[j].id);
                }
                assert(crate::ledger::write::taken_by_other(tasks, id, title));
            }
        }
        reveal(amended);
    }
}

/// An entry on its own that names its task by title cannot rename it: it is refused where the name that
/// it gives is not that of the task.
pub proof fn titles_do_not_rename(ledger: LedgerModel, entry: EntryModel, now: i64, row: int)
    requires
        distinct(ledger.tasks),
        0 <= row < ledger.tasks.len(),
        entry.id is Some,
        entry.id != Some(ledger.tasks[row].id),
        resolved(ledger.tasks, entry.id->0) == Some(ledger.tasks[row]),
        entry.split is None,
        entry.merge is None,
        entry.title is Some,
        folded(name_of(entry.title->0)) != folded(ledger.tasks[row].title),
    ensures
        upserted(ledger, seq![entry], now).applied.errors.len() > 0,
{
    if upserted(ledger, seq![entry], now).applied.errors.len() == 0 {
        let tasks = ledger.tasks;
        let id = tasks[row].id;
        let first = claimed(opened(ledger, 1), entry, 0, now);
        accepted_throughout(ledger, entry, now);
        rows_are_found(tasks, row);
        assert(first.ledger == ledger && first.applied.outcomes.len() == 1 && assigned(first, 0)
            == Some(id) && first.applied.divided.len() == 0) by {
            reveal(claimed);
        }
        assert(naming_refusal(first, id, entry) is Some);
        reveal(amended);
    }
}

/// An entry on its own whose title two open tasks have is refused: neither of them is meant.
pub proof fn shared_titles_are_refused(
    ledger: LedgerModel,
    entry: EntryModel,
    now: i64,
    i: int,
    j: int,
)
    requires
        entry.id is None,
        entry.title is Some,
        0 <= i < j < ledger.tasks.len(),
        still_open(ledger.tasks[i]),
        still_open(ledger.tasks[j]),
        ledger.tasks[i] != ledger.tasks[j],
        folded(ledger.tasks[i].title) == folded(entry.title->0),
        folded(ledger.tasks[j].title) == folded(entry.title->0),
    ensures
        upserted(ledger, seq![entry], now).applied.errors.len() > 0,
{
    if upserted(ledger, seq![entry], now).applied.errors.len() == 0 {
        let tasks = ledger.tasks;
        let title = entry.title->0;
        accepted_throughout(ledger, entry, now);
        let named = titled(tasks, title);
        let live = open_tasks(named);
        let one = |task: TaskModel| folded(task.title) == folded(title);
        assert(tasks.contains(tasks[i]) && tasks.contains(tasks[j]));
        kept_by_filter(tasks, one, tasks[i]);
        kept_by_filter(tasks, one, tasks[j]);
        open_tasks_are_open(named, tasks[i]);
        open_tasks_are_open(named, tasks[j]);
        let a = choose|a: int| 0 <= a < live.len() && live[a] == tasks[i];
        let b = choose|b: int| 0 <= b < live.len() && live[b] == tasks[j];
        assert(a != b);
        assert(live.len() > 1);
        reveal(claimed);
    }
}

/// An entry on its own is refused where it makes its task wait for itself, or for what names no task; and
/// where it makes itself or what names no task wait for its task.
pub proof fn bad_references_are_refused(
    ledger: LedgerModel,
    entry: EntryModel,
    now: i64,
    row: int,
    k: int,
)
    requires
        distinct(ledger.tasks),
        0 <= row < ledger.tasks.len(),
        entry.id is Some,
        resolved(ledger.tasks, entry.id->0) == Some(ledger.tasks[row]),
        can_be_taken(
            ledger,
            EntryModel { after: None, before: None, status: None, ..entry },
            row,
        ),
        entry.status is None,
        ({
            let id = ledger.tasks[row].id;
            let mid = ledger.tasks.update(row, edited(ledger.tasks[row], id, entry, now));
            ||| entry.after matches Some(Some(refs)) && 0 <= k < refs.len() && (resolved(
                mid,
                refs[k],
            ) is None || resolved(mid, refs[k])->0.id == id)
            ||| entry.before matches Some(Some(refs)) && entry.after is None && 0 <= k < refs.len()
                && (resolved(mid, refs[k]) is None || resolved(mid, refs[k])->0.id == id)
        }),
    ensures
        upserted(ledger, seq![entry], now).applied.errors.len() > 0,
{
    if upserted(ledger, seq![entry], now).applied.errors.len() == 0 {
        let tasks = ledger.tasks;
        let id = tasks[row].id;
        let first = claimed(opened(ledger, 1), entry, 0, now);
        let second = amended(first, entry, 0, now);
        accepted_throughout(ledger, entry, now);
        assert(first.ledger == ledger && first.applied.outcomes.len() == 1 && assigned(first, 0)
            == Some(id)) by {
            reveal(claimed);
        }
        rows_are_found(tasks, row);
        let mid = tasks.update(row, edited(tasks[row], id, entry, now));
        amended_outcome(first, entry, now);
        assert(second.ledger.tasks == mid && assigned(second, 0) == Some(id)) by {
            reveal(amended);
        }
        if let Some(Some(refs)) = entry.after {
            unknown_references_are_not_taken(mid, id, refs, "after"@, k);
        } else if let Some(Some(refs)) = entry.before {
            unknown_references_are_not_taken(mid, id, refs, "before"@, k);
        }
        reveal(related);
    }
}

} // verus!
