//! Where tasks stand, told by their fields alone.

use vstd::prelude::*;

use crate::ledger::laws::distinct;
use crate::ledger::model::Status;
use crate::ledger::model::TaskModel;
use crate::ledger::query::find;
use crate::ledger::query::first_at;
use crate::ledger::query::open_tasks;
use crate::ledger::query::position_is;
use crate::ledger::query::state_of;
use crate::ledger::query::unfinished;
use crate::ledger::query::View;

verus! {

/// Neither done nor abandoned.
pub open spec fn still_open(task: TaskModel) -> bool {
    task.status != Status::Done && task.cancelled is None
}

/// A prerequisite of the task is in the plan and still open.
pub open spec fn awaits(tasks: Seq<TaskModel>, task: TaskModel) -> bool {
    exists|j: int| 0 <= j < tasks.len() && still_open(#[trigger] tasks[j]) && task.after.contains(
        tasks[j].id,
    )
}

/// The task could be worked on: it is open, and waits neither for another task nor for anything
/// outside.
pub open spec fn workable(tasks: Seq<TaskModel>, task: TaskModel) -> bool {
    still_open(task) && task.waiting is None && !awaits(tasks, task)
}

/// Among tasks with distinct ids, each is found by its id.
pub proof fn rows_are_found(tasks: Seq<TaskModel>, i: int)
    requires
        distinct(tasks),
        0 <= i < tasks.len(),
    ensures
        find(tasks, tasks[i].id) == Some(tasks[i]),
        crate::ledger::query::position(tasks, tasks[i].id) == Some(i),
{
    assert forall|j: int| 0 <= j < i implies (#[trigger] tasks[j]).id != tasks[i].id by {
        assert(tasks[j].id != tasks[i].id);
    }
    assert(first_at(tasks, tasks[i].id, i));
    position_is(tasks, tasks[i].id, i);
}

/// What a task waits for are the open tasks among its prerequisites.
pub proof fn waits_for_open_prerequisites(
    tasks: Seq<TaskModel>,
    after: Seq<Seq<char>>,
    task: TaskModel,
)
    requires
        distinct(tasks),
    ensures
        unfinished(tasks, after).contains(task) <==> tasks.contains(task) && still_open(task)
            && after.contains(task.id),
    decreases after.len(),
{
    let list = unfinished(tasks, after);
    if after.len() > 0 {
        let head = after.drop_last();
        let before = unfinished(tasks, head);
        let id = after.last();
        waits_for_open_prerequisites(tasks, head, task);
        crate::ledger::query::position_iff(tasks, id);
        if head.contains(task.id) {
            let k = choose|k: int| 0 <= k < head.len() && head[k] == task.id;
            assert(after[k] == task.id);
        }
        if tasks.contains(task) {
            let i = choose|i: int| 0 <= i < tasks.len() && tasks[i] == task;
            rows_are_found(tasks, i);
        }
        if before.contains(task) {
            let k = choose|k: int| 0 <= k < before.len() && before[k] == task;
            assert(list[k] == task);
        }
        if list.contains(task) && !before.contains(task) {
            let k = choose|k: int| 0 <= k < list.len() && list[k] == task;
            assert(k == before.len());
            assert(find(tasks, id) == Some(task));
            let row = crate::ledger::query::position(tasks, id)->0;
            assert(tasks[row] == task);
            assert(after[after.len() - 1] == task.id);
        }
        if tasks.contains(task) && still_open(task) && after.contains(task.id) && !head.contains(
            task.id,
        ) {
            let k = choose|k: int| 0 <= k < after.len() && after[k] == task.id;
            if k < head.len() {
                assert(head[k] == task.id);
            }
            assert(list[list.len() - 1] == task);
        }
    }
}

/// Something is waited for exactly where an open prerequisite is in the plan.
pub proof fn waiting_is_for_open_tasks(tasks: Seq<TaskModel>, task: TaskModel)
    requires
        distinct(tasks),
    ensures
        (unfinished(tasks, task.after).len() > 0) == awaits(tasks, task),
{
    let list = unfinished(tasks, task.after);
    if list.len() > 0 {
        waits_for_open_prerequisites(tasks, task.after, list[0]);
        assert(list.contains(list[0]));
        let j = choose|j: int| 0 <= j < tasks.len() && tasks[j] == list[0];
        assert(still_open(tasks[j]) && task.after.contains(tasks[j].id));
    }
    if awaits(tasks, task) {
        let j = choose|j: int|
            0 <= j < tasks.len() && still_open(#[trigger] tasks[j]) && task.after.contains(
                tasks[j].id,
            );
        waits_for_open_prerequisites(tasks, task.after, tasks[j]);
        assert(tasks.contains(tasks[j]));
        assert(list.contains(tasks[j]));
    }
}

/// Where a task stands, by its fields: an abandoned task is cancelled, whatever its status; a done
/// one is done; an open one that waits for an open prerequisite or for something outside is blocked;
/// any other is active or ready as its status says.
pub proof fn standing_is_told_by_the_fields(tasks: Seq<TaskModel>, task: TaskModel)
    requires
        distinct(tasks),
    ensures
        state_of(tasks, task) == View::Cancelled <==> task.cancelled is Some,
        state_of(tasks, task) == View::Done <==> task.cancelled is None && task.status
            == Status::Done,
        state_of(tasks, task) == View::Blocked <==> still_open(task) && (task.waiting is Some
            || awaits(tasks, task)),
        state_of(tasks, task) == View::Active <==> workable(tasks, task) && task.status
            == Status::Active,
        state_of(tasks, task) == View::Ready <==> workable(tasks, task) && task.status
            == Status::Pending,
{
    waiting_is_for_open_tasks(tasks, task);
}

/// A filter keeps exactly what passes, in order.
pub proof fn kept_by_filter<A>(list: Seq<A>, keep: spec_fn(A) -> bool, item: A)
    ensures
        list.filter(keep).contains(item) <==> list.contains(item) && keep(item),
    decreases list.len(),
{
    reveal(Seq::filter);
    if list.len() > 0 {
        let head = list.drop_last();
        kept_by_filter(head, keep, item);
        let some = list.filter(keep);
        let before = head.filter(keep);
        if head.contains(item) {
            let k = choose|k: int| 0 <= k < head.len() && head[k] == item;
            assert(list[k] == item);
        }
        if list.contains(item) && !head.contains(item) {
            let k = choose|k: int| 0 <= k < list.len() && list[k] == item;
            if k < head.len() {
                assert(head[k] == item);
            }
            assert(list.last() == item);
        }
        if before.contains(item) {
            let k = choose|k: int| 0 <= k < before.len() && before[k] == item;
            assert(some[k] == item);
        }
        if keep(list.last()) {
            assert(some == before.push(list.last()));
            assert(some[some.len() - 1] == list.last());
            assert(list[list.len() - 1] == list.last());
            if some.contains(item) && !before.contains(item) {
                let k = choose|k: int| 0 <= k < some.len() && some[k] == item;
                if k < before.len() {
                    assert(before[k] == item);
                }
            }
        } else {
            assert(some == before);
        }
    }
}

/// The open tasks are those that are neither done nor abandoned.
pub proof fn open_tasks_are_open(tasks: Seq<TaskModel>, task: TaskModel)
    ensures
        open_tasks(tasks).contains(task) <==> tasks.contains(task) && still_open(task),
{
    let keep = |task: TaskModel| !crate::ledger::model::terminal(task);
    kept_by_filter(tasks, keep, task);
}

} // verus!
