//! The prerequisite graph: a stable order of work, and the cycle that makes one impossible.

use vstd::prelude::*;
use vstd::string::StringExecFns;
use vstd::view::View as _;

use crate::ledger::model::referred;
use crate::ledger::model::Ledger;
use crate::ledger::model::Task;
use crate::ledger::model::TaskModel;
use crate::ledger::query::filter_step;
use crate::ledger::query::find;
use crate::ledger::query::first_at;
use crate::ledger::query::has_id;
use crate::ledger::query::position;
use crate::ledger::query::position_iff;
use crate::ledger::query::position_is;
use crate::ledger::query::state_of;
use crate::ledger::query::titled_ids;
use crate::ledger::query::titled_list;
use crate::ledger::query::View;
use crate::text::join;
use crate::text::joined;
use crate::text::same;

verus! {

/// None of the task's prerequisites is among the remaining tasks.
pub open spec fn free(remaining: Seq<TaskModel>, task: TaskModel) -> bool {
    forall|k: int| 0 <= k < task.after.len() ==> !has_id(remaining, #[trigger] task.after[k])
}

/// Row `i` is the first free one.
pub open spec fn first_free_at(remaining: Seq<TaskModel>, i: int) -> bool {
    &&& 0 <= i < remaining.len()
    &&& free(remaining, remaining[i])
    &&& forall|j: int| 0 <= j < i ==> !#[trigger] free(remaining, remaining[j])
}

/// The first free row.
pub open spec fn next_free(remaining: Seq<TaskModel>) -> Option<int> {
    if exists|i: int| first_free_at(remaining, i) {
        Some(choose|i: int| first_free_at(remaining, i))
    } else {
        None
    }
}

/// The tasks with another id.
pub open spec fn without(tasks: Seq<TaskModel>, id: Seq<char>) -> Seq<TaskModel> {
    tasks.filter(|task: TaskModel| task.id != id)
}

/// The order in which the tasks can be taken, and those that are left when none is free: at each
/// step the first free task is taken, so that plan order breaks ties.
pub open spec fn scheduled(remaining: Seq<TaskModel>) -> (Seq<TaskModel>, Seq<TaskModel>)
    decreases remaining.len(),
    via scheduled_shrinks
{
    match next_free(remaining) {
        Some(i) => {
            let task = remaining[i];
            let (rest, stuck) = scheduled(without(remaining, task.id));
            (seq![task] + rest, stuck)
        },
        None => (Seq::empty(), remaining),
    }
}

#[via_fn]
proof fn scheduled_shrinks(remaining: Seq<TaskModel>) {
    if exists|i: int| first_free_at(remaining, i) {
        let i = choose|i: int| first_free_at(remaining, i);
        without_shorter(remaining, i);
    }
}

/// Taking a task's id away makes the list shorter.
proof fn without_shorter(tasks: Seq<TaskModel>, i: int)
    requires
        0 <= i < tasks.len(),
    ensures
        without(tasks, tasks[i].id).len() < tasks.len(),
{
    filter_skips(tasks, |task: TaskModel| task.id != tasks[i].id, i);
}

/// A filter that leaves a row out gives a shorter list.
proof fn filter_skips<A>(s: Seq<A>, keep: spec_fn(A) -> bool, i: int)
    requires
        0 <= i < s.len(),
        !keep(s[i]),
    ensures
        s.filter(keep).len() < s.len(),
    decreases s.len(),
{
    reveal(Seq::filter);
    if i == s.len() - 1 {
        s.drop_last().lemma_filter_len(keep);
    } else {
        filter_skips(s.drop_last(), keep, i);
    }
}

/// Nothing remaining is free, and something remains.
pub open spec fn stuck(remaining: Seq<TaskModel>) -> bool {
    remaining.len() > 0 && forall|i: int|
        0 <= i < remaining.len() ==> !#[trigger] free(remaining, remaining[i])
}

/// The index of the first id that some remaining task has, or the length.
pub open spec fn first_held(remaining: Seq<TaskModel>, after: Seq<Seq<char>>) -> int
    decreases after.len(),
{
    if after.len() == 0 || has_id(remaining, after[0]) {
        0
    } else {
        1 + first_held(remaining, after.skip(1))
    }
}

/// The remaining task that a task waits for first.
pub open spec fn blocker(remaining: Seq<TaskModel>, task: TaskModel) -> TaskModel {
    find(remaining, task.after[first_held(remaining, task.after)])->0
}

/// The cycle that following the first blockers from the end of a path comes to.
pub open spec fn trail(remaining: Seq<TaskModel>, path: Seq<TaskModel>) -> Seq<TaskModel>
    decreases remaining.len() + 1 - path.len(),
{
    let next = blocker(remaining, path.last());
    match position(path, next.id) {
        Some(at) => path.skip(at).push(next),
        None => if path.len() > remaining.len() {
            path
        } else {
            trail(remaining, path.push(next))
        },
    }
}

/// A cycle among tasks that are stuck.
pub open spec fn cycle_among(remaining: Seq<TaskModel>) -> Seq<TaskModel> {
    trail(remaining, seq![remaining[0]])
}

/// The ids and titles along a cycle among tasks that are stuck.
pub open spec fn route_of(remaining: Seq<TaskModel>) -> Seq<char> {
    joined(titled_ids(cycle_among(remaining)), " -> "@)
}

/// The cycle that keeps a plan from having an order; empty where it has one.
pub open spec fn cycle_of(plan: Seq<TaskModel>) -> Seq<TaskModel> {
    let (order, left) = scheduled(plan);
    if left.len() == 0 {
        Seq::empty()
    } else {
        cycle_among(left)
    }
}

/// Among the plan, the tasks whose ids are wanted.
pub open spec fn wanted(plan: Seq<TaskModel>, chosen: Seq<TaskModel>) -> Seq<TaskModel> {
    plan.filter(|task: TaskModel| has_id(chosen, task.id))
}

/// Every chosen task's id is an id of the plan.
pub open spec fn all_known(plan: Seq<TaskModel>, chosen: Seq<TaskModel>) -> bool {
    forall|i: int| 0 <= i < chosen.len() ==> has_id(plan, (#[trigger] chosen[i]).id)
}

/// The stable topological order of a plan, or why there is none.
pub open spec fn ordered(plan: Seq<TaskModel>) -> Result<Seq<TaskModel>, Seq<char>> {
    let (order, left) = scheduled(plan);
    if left.len() == 0 {
        Ok(order)
    } else {
        Err("task dependency cycle: "@ + route_of(left) + "."@)
    }
}

/// The tasks of a list that are in a state.
pub open spec fn of_state(plan: Seq<TaskModel>, list: Seq<TaskModel>, state: View) -> Seq<
    TaskModel,
> {
    list.filter(|task: TaskModel| state_of(plan, task) == state)
}

/// Operational priority first, graph order second: in flight, could start, cannot, behind you.
pub open spec fn arranged(plan: Seq<TaskModel>, chosen: Seq<TaskModel>) -> Seq<TaskModel> {
    let (order, left) = scheduled(wanted(plan, chosen));
    let list = if all_known(plan, chosen) && left.len() == 0 {
        order
    } else {
        chosen
    };
    of_state(plan, list, View::Active) + of_state(plan, list, View::Ready) + of_state(
        plan,
        list,
        View::Blocked,
    ) + of_state(plan, list, View::Done) + of_state(plan, list, View::Cancelled)
}

/// The first free row is the next one.
proof fn next_free_is(remaining: Seq<TaskModel>, i: int)
    requires
        first_free_at(remaining, i),
    ensures
        next_free(remaining) == Some(i),
{
    let k = choose|k: int| first_free_at(remaining, k);
    assert(first_free_at(remaining, k));
    if k < i {
        assert(!free(remaining, remaining[k]));
    } else if i < k {
        assert(!free(remaining, remaining[i]));
    }
}

/// A row that is free has a first free row at or before it.
proof fn next_free_exists(remaining: Seq<TaskModel>, i: int)
    requires
        0 <= i < remaining.len(),
        free(remaining, remaining[i]),
    ensures
        exists|k: int| first_free_at(remaining, k),
    decreases i,
{
    if forall|j: int| 0 <= j < i ==> !#[trigger] free(remaining, remaining[j]) {
        assert(first_free_at(remaining, i));
    } else {
        let j = choose|j: int| 0 <= j < i && #[trigger] free(remaining, remaining[j]);
        next_free_exists(remaining, j);
    }
}

/// An id is left after another is taken away exactly when it was there and differs.
pub proof fn without_ids(tasks: Seq<TaskModel>, id: Seq<char>, other: Seq<char>)
    ensures
        has_id(without(tasks, id), other) == (has_id(tasks, other) && other != id),
{
    let keep = |task: TaskModel| task.id != id;
    let left = without(tasks, id);
    if has_id(left, other) {
        let i = choose|i: int| 0 <= i < left.len() && (#[trigger] left[i]).id == other;
        tasks.lemma_filter_pred(keep, i);
        assert(left.contains(left[i]));
        tasks.lemma_filter_contains_rev(keep, left[i]);
        let j = choose|j: int| 0 <= j < tasks.len() && tasks[j] == left[i];
        assert(tasks[j].id == other);
    }
    if has_id(tasks, other) && other != id {
        let i = choose|i: int| 0 <= i < tasks.len() && (#[trigger] tasks[i]).id == other;
        tasks.lemma_filter_contains(keep, i);
        let j = choose|j: int| 0 <= j < left.len() && left[j] == tasks[i];
        assert(left[j].id == other);
    }
}

/// What is left over is stuck, and everything left over or taken comes from the list.
pub proof fn scheduled_leaves(remaining: Seq<TaskModel>)
    ensures
        scheduled(remaining).1.len() > 0 ==> stuck(scheduled(remaining).1),
        forall|id: Seq<char>| #[trigger]
            has_id(scheduled(remaining).1, id) ==> has_id(remaining, id),
        forall|id: Seq<char>| #[trigger]
            has_id(scheduled(remaining).0, id) ==> has_id(remaining, id),
        forall|id: Seq<char>| #[trigger]
            has_id(remaining, id) ==> has_id(scheduled(remaining).0, id) || has_id(
                scheduled(remaining).1,
                id,
            ),
    decreases remaining.len(),
{
    if exists|i: int| first_free_at(remaining, i) {
        let i = choose|i: int| first_free_at(remaining, i);
        let task = remaining[i];
        let rest = without(remaining, task.id);
        without_shorter(remaining, i);
        scheduled_leaves(rest);
        let (order, left) = scheduled(remaining);
        assert(order == seq![task] + scheduled(rest).0);
        assert forall|id: Seq<char>| #[trigger] has_id(left, id) implies has_id(remaining, id) by {
            without_ids(remaining, task.id, id);
        }
        assert forall|id: Seq<char>| #[trigger] has_id(order, id) implies has_id(remaining, id) by {
            let k = choose|k: int| 0 <= k < order.len() && (#[trigger] order[k]).id == id;
            if k > 0 {
                assert(scheduled(rest).0[k - 1].id == id);
                assert(has_id(scheduled(rest).0, id));
                without_ids(remaining, task.id, id);
            }
        }
        assert forall|id: Seq<char>| #[trigger] has_id(remaining, id) implies has_id(order, id)
            || has_id(left, id) by {
            without_ids(remaining, task.id, id);
            if id == task.id {
                assert(order[0].id == id);
            } else if has_id(scheduled(rest).0, id) {
                let k = choose|k: int|
                    0 <= k < scheduled(rest).0.len() && (#[trigger] scheduled(rest).0[k]).id == id;
                assert(order[k + 1].id == id);
            }
        }
    } else {
        assert forall|i: int| 0 <= i < remaining.len() implies !#[trigger] free(
            remaining,
            remaining[i],
        ) by {
            if free(remaining, remaining[i]) {
                next_free_exists(remaining, i);
            }
        }
    }
}

/// A scheduled task comes after every listed prerequisite of its, and no id is taken twice.
pub proof fn scheduled_respects(remaining: Seq<TaskModel>)
    ensures
        forall|i: int, k: int|
            0 <= i < scheduled(remaining).0.len() && 0 <= k < scheduled(
                remaining,
            ).0[i].after.len() && has_id(
                remaining,
                #[trigger] scheduled(remaining).0[i].after[k],
            ) ==> exists|j: int|
                0 <= j < i && (#[trigger] scheduled(remaining).0[j]).id == scheduled(
                    remaining,
                ).0[i].after[k],
        forall|i: int, j: int|
            0 <= i < j < scheduled(remaining).0.len() ==> (#[trigger] scheduled(
                remaining,
            ).0[i]).id != (#[trigger] scheduled(remaining).0[j]).id,
    decreases remaining.len(),
{
    if exists|i: int| first_free_at(remaining, i) {
        let first = choose|i: int| first_free_at(remaining, i);
        let task = remaining[first];
        let rest = without(remaining, task.id);
        without_shorter(remaining, first);
        scheduled_respects(rest);
        scheduled_leaves(rest);
        let tail = scheduled(rest).0;
        let order = scheduled(remaining).0;
        assert(order == seq![task] + tail);
        assert forall|i: int, k: int|
            0 <= i < order.len() && 0 <= k < order[i].after.len() && has_id(
                remaining,
                #[trigger] order[i].after[k],
            ) implies exists|j: int| 0 <= j < i && (#[trigger] order[j]).id == order[i].after[k] by {
            let id = order[i].after[k];
            if i == 0 {
                assert(free(remaining, task));
                assert(!has_id(remaining, task.after[k]));
            } else if id == task.id {
                assert(order[0].id == id);
            } else {
                without_ids(remaining, task.id, id);
                assert(tail[i - 1].after[k] == id);
                let j = choose|j: int| 0 <= j < i - 1 && (#[trigger] tail[j]).id == id;
                assert(order[j + 1].id == id);
            }
        }
        assert forall|i: int, j: int| 0 <= i < j < order.len() implies (#[trigger] order[i]).id != (
        #[trigger] order[j]).id by {
            assert(order[j] == tail[j - 1]);
            if i == 0 {
                assert(has_id(tail, tail[j - 1].id));
                without_ids(remaining, task.id, tail[j - 1].id);
            } else {
                assert(order[i] == tail[i - 1]);
            }
        }
    }
}

/// Everything that is taken is a row of the list.
pub proof fn scheduled_rows(remaining: Seq<TaskModel>, i: int)
    requires
        0 <= i < scheduled(remaining).0.len(),
    ensures
        remaining.contains(scheduled(remaining).0[i]),
    decreases remaining.len(),
{
    if exists|k: int| first_free_at(remaining, k) {
        let first = choose|k: int| first_free_at(remaining, k);
        let task = remaining[first];
        let rest = without(remaining, task.id);
        without_shorter(remaining, first);
        let order = scheduled(remaining).0;
        assert(order == seq![task] + scheduled(rest).0);
        if i == 0 {
            assert(remaining[first] == order[0]);
        } else {
            scheduled_rows(rest, i - 1);
            assert(order[i] == scheduled(rest).0[i - 1]);
            remaining.lemma_filter_contains_rev(
                |other: TaskModel| other.id != task.id,
                order[i],
            );
        }
    }
}

/// A path that follows first blockers: each task is the one that its id finds, and none recurs.
pub open spec fn followed(remaining: Seq<TaskModel>, path: Seq<TaskModel>) -> bool {
    &&& path.len() > 0
    &&& forall|i: int|
        0 <= i < path.len() ==> find(remaining, (#[trigger] path[i]).id) == Some(path[i])
    &&& forall|i: int, j: int|
        0 <= i < j < path.len() ==> (#[trigger] path[i]).id != (#[trigger] path[j]).id
    &&& forall|i: int|
        0 <= i < path.len() - 1 ==> #[trigger] blocker(remaining, path[i]) == path[i + 1]
}

/// A path of distinct tasks is no longer than the list it runs through.
proof fn followed_short(remaining: Seq<TaskModel>, path: Seq<TaskModel>)
    requires
        followed(remaining, path),
    ensures
        path.len() <= remaining.len(),
{
    let rows = Seq::new(path.len(), |i: int| position(remaining, path[i].id)->0);
    assert forall|i: int| 0 <= i < rows.len() implies 0 <= #[trigger] rows[i] < remaining.len()
        && remaining[rows[i]] == path[i] by {
        position_iff(remaining, path[i].id);
        assert(find(remaining, path[i].id) == Some(path[i]));
    }
    assert(rows.no_duplicates()) by {
        assert forall|i: int, j: int|
            0 <= i < rows.len() && 0 <= j < rows.len() && i != j implies rows[i] != rows[j] by {
            if i < j {
                assert(path[i].id != path[j].id);
            } else {
                assert(path[j].id != path[i].id);
            }
        }
    }
    rows.unique_seq_to_set();
    let range = vstd::set_lib::set_int_range(0, remaining.len() as int);
    vstd::set_lib::lemma_int_range(0, remaining.len() as int);
    assert(rows.to_set().subset_of(range));
    vstd::set_lib::lemma_len_subset(rows.to_set(), range);
}

/// Among stuck tasks each waits for another of them.
proof fn blocker_found(remaining: Seq<TaskModel>, task: TaskModel)
    requires
        stuck(remaining),
        remaining.contains(task),
    ensures
        0 <= first_held(remaining, task.after) < task.after.len(),
        find(remaining, task.after[first_held(remaining, task.after)]) is Some,
        find(remaining, blocker(remaining, task).id) == Some(blocker(remaining, task)),
        remaining.contains(blocker(remaining, task)),
{
    let i = choose|i: int| 0 <= i < remaining.len() && remaining[i] == task;
    assert(!free(remaining, remaining[i]));
    let k = choose|k: int|
        0 <= k < task.after.len() && has_id(remaining, #[trigger] task.after[k]);
    first_held_found(remaining, task.after, k);
    let held = task.after[first_held(remaining, task.after)];
    position_iff(remaining, held);
    let next = blocker(remaining, task);
    assert(remaining[position(remaining, held)->0] == next);
    position_iff(remaining, next.id);
}

/// Where some id is held, the first one that is held is found.
proof fn first_held_found(remaining: Seq<TaskModel>, after: Seq<Seq<char>>, k: int)
    requires
        0 <= k < after.len(),
        has_id(remaining, after[k]),
    ensures
        0 <= first_held(remaining, after) <= k,
        has_id(remaining, after[first_held(remaining, after)]),
    decreases after.len(),
{
    if !has_id(remaining, after[0]) {
        assert(after.skip(1)[k - 1] == after[k]);
        first_held_found(remaining, after.skip(1), k - 1);
        assert(after.skip(1)[first_held(remaining, after.skip(1))] == after[first_held(
            remaining,
            after.skip(1),
        ) + 1]);
    }
}

/// Where no earlier id is held and this one is, this one is the first.
proof fn first_held_is(remaining: Seq<TaskModel>, after: Seq<Seq<char>>, k: int)
    requires
        0 <= k < after.len(),
        has_id(remaining, after[k]),
        forall|j: int| 0 <= j < k ==> !has_id(remaining, #[trigger] after[j]),
    ensures
        first_held(remaining, after) == k,
    decreases after.len(),
{
    if k > 0 {
        assert(!has_id(remaining, after[0]));
        assert forall|j: int| 0 <= j < k - 1 implies !has_id(
            remaining,
            #[trigger] after.skip(1)[j],
        ) by {
            assert(after.skip(1)[j] == after[j + 1]);
        }
        assert(after.skip(1)[k - 1] == after[k]);
        first_held_is(remaining, after.skip(1), k - 1);
    }
}

/// The reported route is a cycle: each task waits for the next, and it ends where it starts.
pub proof fn trail_closes(remaining: Seq<TaskModel>, path: Seq<TaskModel>)
    requires
        stuck(remaining),
        followed(remaining, path),
    ensures
        trail(remaining, path).len() >= 2,
        trail(remaining, path)[0].id == trail(remaining, path).last().id,
        forall|i: int|
            0 <= i < trail(remaining, path).len() - 1 ==> #[trigger] blocker(
                remaining,
                trail(remaining, path)[i],
            ) == trail(remaining, path)[i + 1],
    decreases remaining.len() + 1 - path.len(),
{
    let next = blocker(remaining, path.last());
    position_iff(path, next.id);
    if position(path, next.id) is None {
        followed_further(remaining, path);
        trail_closes(remaining, path.push(next));
    } else {
        let at = position(path, next.id)->0;
        let cycle = path.skip(at).push(next);
        assert forall|i: int| 0 <= i < cycle.len() - 1 implies #[trigger] blocker(
            remaining,
            cycle[i],
        ) == cycle[i + 1] by {
            assert(cycle[i] == path[at + i]);
            if i < cycle.len() - 2 {
                assert(cycle[i + 1] == path[at + i + 1]);
            }
        }
    }
}

/// The row of the first task with this id.
fn row_in(list: &Vec<&Task>, id: &str) -> (row: Option<usize>)
    ensures
        (match row {
            Some(row) => Some(row as int),
            None => None,
        }) == position(referred(list@), id@),
        row is Some ==> row->0 < list@.len(),
{
    let ghost tasks = referred(list@);
    let mut i: usize = 0;
    while i < list.len()
        invariant
            i <= list@.len(),
            tasks == referred(list@),
            forall|j: int| 0 <= j < i ==> (#[trigger] tasks[j]).id != id@,
        decreases list@.len() - i,
    {
        if same(list[i].id.as_str(), id) {
            proof {
                assert(tasks[i as int].id == id@);
                position_is(tasks, id@, i as int);
            }
            return Some(i);
        }
        assert(tasks[i as int].id != id@);
        i += 1;
    }
    proof {
        position_iff(tasks, id@);
    }
    None
}

/// Whether some task of a list has this id.
fn has_task(list: &Vec<&Task>, id: &str) -> (r: bool)
    ensures
        r == has_id(referred(list@), id@),
{
    proof {
        position_iff(referred(list@), id@);
    }
    row_in(list, id).is_some()
}

/// Whether none of the task's prerequisites is among the remaining tasks.
fn is_free(remaining: &Vec<&Task>, task: &Task) -> (r: bool)
    ensures
        r == free(referred(remaining@), task@),
{
    let mut k: usize = 0;
    while k < task.after.len()
        invariant
            k <= task.after@.len(),
            forall|j: int|
                0 <= j < k ==> !has_id(referred(remaining@), #[trigger] task@.after[j]),
        decreases task.after@.len() - k,
    {
        if has_task(remaining, task.after[k].as_str()) {
            assert(has_id(referred(remaining@), task@.after[k as int]));
            return false;
        }
        k += 1;
    }
    true
}

/// The tasks with another id.
fn leave_out<'a>(tasks: &Vec<&'a Task>, id: &str) -> (left: Vec<&'a Task>)
    ensures
        referred(left@) == without(referred(tasks@), id@),
{
    let ghost all = referred(tasks@);
    let ghost keep = |task: TaskModel| task.id != id@;
    let mut left: Vec<&'a Task> = Vec::new();
    let mut i: usize = 0;
    assert(all.take(0) == Seq::<TaskModel>::empty());
    reveal(Seq::filter);
    while i < tasks.len()
        invariant
            i <= tasks@.len(),
            all == referred(tasks@),
            keep == (|task: TaskModel| task.id != id@),
            referred(left@) == all.take(i as int).filter(keep),
        decreases tasks@.len() - i,
    {
        proof {
            filter_step(all, keep, i as int);
        }
        let ghost before = left@;
        if !same(tasks[i].id.as_str(), id) {
            left.push(tasks[i]);
            assert(referred(left@) == referred(before).push(all[i as int]));
        }
        i += 1;
    }
    assert(all.take(all.len() as int) == all);
    left
}

/// The order in which tasks can be taken, and those that are left when none is free.
fn schedule<'a>(start: Vec<&'a Task>) -> (r: (Vec<&'a Task>, Vec<&'a Task>))
    ensures
        (referred(r.0@), referred(r.1@)) == scheduled(referred(start@)),
{
    let ghost whole = referred(start@);
    let mut remaining = start;
    let mut order: Vec<&'a Task> = Vec::new();
    assert(referred(order@) + scheduled(whole).0 == scheduled(whole).0);
    loop
        invariant
            whole == referred(start@),
            scheduled(whole).0 == referred(order@) + scheduled(referred(remaining@)).0,
            scheduled(whole).1 == scheduled(referred(remaining@)).1,
        decreases remaining@.len(),
    {
        let ghost list = referred(remaining@);
        let mut i: usize = 0;
        while i < remaining.len() && !is_free(&remaining, remaining[i])
            invariant
                i <= remaining@.len(),
                list == referred(remaining@),
                forall|j: int| 0 <= j < i ==> !#[trigger] free(list, list[j]),
            decreases remaining@.len() - i,
        {
            assert(!free(list, list[i as int]));
            i += 1;
        }
        if i == remaining.len() {
            assert forall|k: int| !first_free_at(list, k) by {
                if 0 <= k < list.len() {
                    assert(!free(list, list[k]));
                }
            }
            assert(referred(order@) + Seq::<TaskModel>::empty() == referred(order@));
            return (order, remaining);
        }
        let task = remaining[i];
        let next = leave_out(&remaining, task.id.as_str());
        proof {
            assert(list[i as int] == task@);
            next_free_is(list, i as int);
            without_shorter(list, i as int);
            assert(referred(next@).len() == next@.len());
            assert(referred(order@.push(task)) == referred(order@).push(task@));
            assert(referred(order@) + (seq![task@] + scheduled(referred(next@)).0) == referred(
                order@,
            ).push(task@) + scheduled(referred(next@)).0);
        }
        order.push(task);
        remaining = next;
    }
}

/// The remaining task that a task waits for first.
fn first_blocker<'a>(remaining: &Vec<&'a Task>, task: &Task) -> (next: &'a Task)
    requires
        stuck(referred(remaining@)),
        referred(remaining@).contains(task@),
    ensures
        next@ == blocker(referred(remaining@), task@),
{
    let ghost list = referred(remaining@);
    proof {
        blocker_found(list, task@);
        position_iff(list, task@.after[first_held(list, task@.after)]);
    }
    let mut k: usize = 0;
    while k < task.after.len() && !has_task(remaining, task.after[k].as_str())
        invariant
            k <= task.after@.len(),
            list == referred(remaining@),
            forall|j: int| 0 <= j < k ==> !has_id(list, #[trigger] task@.after[j]),
        decreases task.after@.len() - k,
    {
        assert(!has_id(list, task@.after[k as int]));
        k += 1;
    }
    proof {
        if k < task.after@.len() {
            assert(task@.after[k as int] == task.after@[k as int]@);
            first_held_is(list, task@.after, k as int);
        }
    }
    let row = row_in(remaining, task.after[k].as_str());
    remaining[row.unwrap()]
}

/// The end of a path from a row on, and one more task.
fn tail_with<'a>(path: &Vec<&'a Task>, at: usize, next: &'a Task) -> (cycle: Vec<&'a Task>)
    requires
        at <= path@.len(),
    ensures
        referred(cycle@) == referred(path@).skip(at as int).push(next@),
{
    let ghost walked = referred(path@);
    let mut cycle: Vec<&'a Task> = Vec::new();
    let mut i: usize = at;
    while i < path.len()
        invariant
            at <= i <= path@.len(),
            referred(cycle@) == walked.subrange(at as int, i as int),
            walked == referred(path@),
        decreases path@.len() - i,
    {
        let ghost before = cycle@;
        cycle.push(path[i]);
        assert(referred(cycle@) == referred(before).push(walked[i as int]));
        assert(walked.subrange(at as int, i + 1) == walked.subrange(at as int, i as int).push(
            walked[i as int],
        ));
        i += 1;
    }
    proof {
        assert(walked.subrange(at as int, walked.len() as int) == walked.skip(at as int));
        assert(referred(cycle@.push(next)) == referred(cycle@).push(next@));
    }
    cycle.push(next);
    cycle
}

/// A path that does not come back goes on.
proof fn followed_further(remaining: Seq<TaskModel>, path: Seq<TaskModel>)
    requires
        stuck(remaining),
        followed(remaining, path),
        position(path, blocker(remaining, path.last()).id) is None,
    ensures
        followed(remaining, path.push(blocker(remaining, path.last()))),
        path.len() < remaining.len(),
{
    let next = blocker(remaining, path.last());
    let longer = path.push(next);
    followed_within(remaining, path);
    blocker_found(remaining, path.last());
    position_iff(path, next.id);
    assert forall|i: int, j: int| 0 <= i < j < longer.len() implies (#[trigger] longer[i]).id != (
    #[trigger] longer[j]).id by {
        if j == path.len() && path[i].id == next.id {
            assert(has_id(path, next.id));
        }
    }
    assert(followed(remaining, longer));
    followed_short(remaining, longer);
}

/// The last task of a path is among the remaining ones.
proof fn followed_within(remaining: Seq<TaskModel>, path: Seq<TaskModel>)
    requires
        followed(remaining, path),
    ensures
        remaining.contains(path.last()),
{
    let last = path[path.len() - 1];
    position_iff(remaining, last.id);
    assert(find(remaining, last.id) == Some(last));
}

/// A cycle among tasks none of which is free. Each of them waits for another, so following the first
/// such prerequisite comes back to a task on the way.
fn find_cycle<'a>(remaining: &Vec<&'a Task>) -> (cycle: Vec<&'a Task>)
    requires
        stuck(referred(remaining@)),
    ensures
        referred(cycle@) == cycle_among(referred(remaining@)),
{
    let ghost list = referred(remaining@);
    let mut path: Vec<&'a Task> = Vec::new();
    path.push(remaining[0]);
    proof {
        assert(referred(path@) == seq![list[0]]);
        assert(first_at(list, list[0].id, 0));
        position_is(list, list[0].id, 0);
        followed_short(list, referred(path@));
    }
    loop
        invariant
            list == referred(remaining@),
            stuck(list),
            followed(list, referred(path@)),
            trail(list, referred(path@)) == trail(list, seq![list[0]]),
            path@.len() <= remaining@.len(),
        decreases remaining@.len() + 1 - path@.len(),
    {
        let ghost walked = referred(path@);
        let last = path[path.len() - 1];
        proof {
            assert(walked.last() == last@);
            followed_within(list, walked);
        }
        let next = first_blocker(remaining, last);
        match row_in(&path, next.id.as_str()) {
            Some(at) => {
                return tail_with(&path, at, next);
            },
            None => {
                proof {
                    followed_further(list, walked);
                    assert(referred(path@.push(next)) == walked.push(next@));
                }
                path.push(next);
            },
        }
    }
}

/// The ids and titles along a cycle among tasks none of which is free.
fn cycle_route(remaining: &Vec<&Task>) -> (route: String)
    requires
        stuck(referred(remaining@)),
    ensures
        route@ == route_of(referred(remaining@)),
{
    let cycle = find_cycle(remaining);
    let names = titled_list(&cycle);
    join(&names, " -> ")
}

impl Ledger {
    /// All tasks, in plan order.
    fn all_tasks(&self) -> (all: Vec<&Task>)
        ensures
            referred(all@) == self.model().tasks,
    {
        let mut all: Vec<&Task> = Vec::new();
        let mut i: usize = 0;
        while i < self.tasks.len()
            invariant
                i <= self.tasks@.len(),
                all@.len() == i,
                forall|j: int| 0 <= j < i ==> (#[trigger] all@[j])@ == self.tasks@[j]@,
            decreases self.tasks@.len() - i,
        {
            all.push(&self.tasks[i]);
            i += 1;
        }
        assert(referred(all@) == self.model().tasks);
        all
    }

    /// The cycle that keeps the plan from having an order.
    pub(crate) fn cycle(&self) -> (cycle: Vec<&Task>)
        ensures
            referred(cycle@) == cycle_of(self.model().tasks),
    {
        let (order, left) = schedule(self.all_tasks());
        assert(referred(left@).len() == left@.len());
        if left.len() == 0 {
            let none: Vec<&Task> = Vec::new();
            assert(referred(none@) =~= Seq::<TaskModel>::empty());
            none
        } else {
            proof {
                scheduled_leaves(self.model().tasks);
            }
            find_cycle(&left)
        }
    }

    /// Stable topological order of the tasks; plan order breaks ties.
    pub(crate) fn topological(&self) -> (r: Result<Vec<&Task>, String>)
        ensures
            match r {
                Ok(order) => ordered(self.model().tasks) == Ok::<Seq<TaskModel>, Seq<char>>(
                    referred(order@),
                ),
                Err(message) => ordered(self.model().tasks) == Err::<Seq<TaskModel>, Seq<char>>(
                    message@,
                ),
            },
    {
        let (order, left) = schedule(self.all_tasks());
        assert(referred(left@).len() == left@.len());
        if left.len() == 0 {
            Ok(order)
        } else {
            proof {
                scheduled_leaves(self.model().tasks);
            }
            let mut message = "task dependency cycle: ".to_string();
            message.append(cycle_route(&left).as_str());
            message.append(".");
            Err(message)
        }
    }

    /// Operational priority first, graph order second.
    pub fn arrange<'a>(&'a self, tasks: &[&'a Task]) -> (rows: Vec<&'a Task>)
        ensures
            referred(rows@) == arranged(self.model().tasks, referred(tasks@)),
    {
        let ghost plan = self.model().tasks;
        let ghost picks = referred(tasks@);
        let mut chosen: Vec<&'a Task> = Vec::new();
        let mut known: bool = true;
        let mut i: usize = 0;
        while i < tasks.len()
            invariant
                i <= tasks@.len(),
                plan == self.model().tasks,
                picks == referred(tasks@),
                chosen@.len() == i,
                forall|j: int| 0 <= j < i ==> (#[trigger] chosen@[j])@ == picks[j],
                known == forall|j: int| 0 <= j < i ==> has_id(plan, (#[trigger] picks[j]).id),
            decreases tasks@.len() - i,
        {
            proof {
                position_iff(plan, picks[i as int].id);
            }
            if self.find_by_id(tasks[i].id.as_str()).is_none() {
                known = false;
                assert(!has_id(plan, picks[i as int].id));
            }
            chosen.push(tasks[i]);
            i += 1;
        }
        assert(referred(chosen@) == picks);
        let mut candidates: Vec<&'a Task> = Vec::new();
        let ghost keep = |task: TaskModel| has_id(picks, task.id);
        assert(plan.take(0) == Seq::<TaskModel>::empty());
        reveal(Seq::filter);
        let mut i: usize = 0;
        while i < self.tasks.len()
            invariant
                i <= self.tasks@.len(),
                plan == self.model().tasks,
                picks == referred(chosen@),
                keep == (|task: TaskModel| has_id(picks, task.id)),
                referred(candidates@) == plan.take(i as int).filter(keep),
            decreases self.tasks@.len() - i,
        {
            proof {
                filter_step(plan, keep, i as int);
            }
            let ghost before = candidates@;
            if has_task(&chosen, self.tasks[i].id.as_str()) {
                candidates.push(&self.tasks[i]);
                assert(referred(candidates@) == referred(before).push(plan[i as int]));
            }
            i += 1;
        }
        assert(plan.take(plan.len() as int) == plan);
        let (order, left) = schedule(candidates);
        assert(referred(left@).len() == left@.len());
        let list = if known && left.len() == 0 {
            order
        } else {
            chosen
        };
        let mut rows: Vec<&'a Task> = Vec::new();
        self.add_state(&list, View::Active, &mut rows);
        self.add_state(&list, View::Ready, &mut rows);
        self.add_state(&list, View::Blocked, &mut rows);
        self.add_state(&list, View::Done, &mut rows);
        self.add_state(&list, View::Cancelled, &mut rows);
        proof {
            let listed = referred(list@);
            assert(Seq::<TaskModel>::empty() + of_state(plan, listed, View::Active) == of_state(
                plan,
                listed,
                View::Active,
            ));
        }
        rows
    }

    /// Adds the tasks of a list that are in a state.
    fn add_state<'a>(&'a self, list: &Vec<&'a Task>, state: View, rows: &mut Vec<&'a Task>)
        ensures
            referred(final(rows)@) == referred(old(rows)@) + of_state(
                self.model().tasks,
                referred(list@),
                state,
            ),
    {
        let ghost plan = self.model().tasks;
        let ghost all = referred(list@);
        let ghost keep = |task: TaskModel| state_of(plan, task) == state;
        let ghost start = referred(rows@);
        assert(all.take(0) == Seq::<TaskModel>::empty());
        reveal(Seq::filter);
        assert(start + Seq::<TaskModel>::empty() == start);
        let mut i: usize = 0;
        while i < list.len()
            invariant
                i <= list@.len(),
                plan == self.model().tasks,
                all == referred(list@),
                keep == (|task: TaskModel| state_of(plan, task) == state),
                referred(rows@) == start + all.take(i as int).filter(keep),
            decreases list@.len() - i,
        {
            proof {
                filter_step(all, keep, i as int);
            }
            let ghost before = rows@;
            let view = self.view(list[i]);
            if view.state == state {
                rows.push(list[i]);
                assert(referred(rows@) == referred(before).push(all[i as int]));
                assert((start + all.take(i as int).filter(keep)).push(all[i as int]) == start
                    + all.take(i as int).filter(keep).push(all[i as int]));
            }
            i += 1;
        }
        assert(all.take(all.len() as int) == all);
    }
}

} // verus!
