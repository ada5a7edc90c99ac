//! What is shown of a plan, told by the fields of its tasks.

use vstd::prelude::*;
use vstd::view::View as _;

use crate::ledger::graph::arranged;
use crate::ledger::graph::of_state;
use crate::ledger::laws::distinct;
use crate::ledger::model::FindingModel;
use crate::ledger::model::LedgerModel;
use crate::ledger::model::Status;
use crate::ledger::model::TaskModel;
use crate::ledger::model::terminal;
use crate::ledger::query::View;
use crate::ledger::query::counted;
use crate::ledger::query::counted_part;
use crate::ledger::query::free_slots;
use crate::ledger::query::state_of;
use crate::ledger::query::summary_of;
use crate::ledger::query::summary_parts;
use crate::ledger::query::titled_ids;
use crate::ledger::query::unfinished;
use crate::ledger::query::viewed;
use crate::ledger::render::arranging_keeps_tasks;
use crate::ledger::render::later;
use crate::ledger::render::later_count;
use crate::ledger::render::preview_of;
use crate::ledger::render::previews_of;
use crate::ledger::render::recent_ids;
use crate::ledger::render::visible_rows;
use crate::ledger::standing::awaits;
use crate::ledger::standing::kept_by_filter;
use crate::ledger::standing::standing_is_told_by_the_fields;
use crate::ledger::standing::still_open;
use crate::ledger::standing::waiting_is_for_open_tasks;
use crate::ledger::standing::waits_for_open_prerequisites;
use crate::ledger::standing::workable;
use crate::text::decimal_of;
use crate::text::joined;
use crate::text::name_of;
use crate::text_laws::both_tell;
use crate::text_laws::joined_lines_tell;
use crate::text_laws::joined_mentions;
use crate::text_laws::line_tells;
use crate::text_laws::mentioned_after;
use crate::text_laws::mentioned_before;
use crate::text_laws::mentions;
use crate::text_laws::mentions_itself;
use crate::text_laws::tells;
use crate::time::stamp_of;

verus! {

/// What is said of where a task stands: of an abandoned one its reason, of one that awaits others the id
/// and title of each of them, of one that waits for something outside what that is, and nothing else.
pub proof fn standing_is_explained(tasks: Seq<TaskModel>, task: TaskModel, j: int)
    requires
        distinct(tasks),
    ensures
        task.cancelled is Some ==> viewed(tasks, task).note == task.cancelled,
        still_open(task) && 0 <= j < tasks.len() && still_open(tasks[j]) && task.after.contains(
            tasks[j].id,
        ) ==> (viewed(tasks, task).note matches Some(note) && mentions(
            note,
            tasks[j].id + " "@ + tasks[j].title,
        )),
        still_open(task) && !awaits(tasks, task) ==> (task.waiting matches Some(text) ==> (viewed(
            tasks,
            task,
        ).note matches Some(note) && mentions(note, text))),
        task.cancelled is None && (task.status == Status::Done || workable(tasks, task))
            ==> viewed(tasks, task).note is None,
{
    let list = unfinished(tasks, task.after);
    waiting_is_for_open_tasks(tasks, task);
    if still_open(task) && 0 <= j < tasks.len() && still_open(tasks[j]) && task.after.contains(
        tasks[j].id,
    ) {
        waits_for_open_prerequisites(tasks, task.after, tasks[j]);
        assert(tasks.contains(tasks[j]));
        let k = choose|k: int| 0 <= k < list.len() && list[k] == tasks[j];
        let names = titled_ids(list);
        assert(names[k] == tasks[j].id + " "@ + tasks[j].title);
        joined_mentions(names, ", "@, k);
        mentioned_after("waiting for "@, joined(names, ", "@), names[k]);
    }
    if let Some(text) = task.waiting {
        mentions_itself(text);
        mentioned_after("waiting: "@, text, text);
    }
}

/// How many of the first tasks are as asked.
pub open spec fn tally(tasks: Seq<TaskModel>, asked: spec_fn(TaskModel) -> bool, n: nat) -> nat
    decreases n,
{
    if n == 0 {
        0
    } else {
        tally(tasks, asked, (n - 1) as nat) + if asked(tasks[n - 1]) {
            1nat
        } else {
            0nat
        }
    }
}

/// What is kept of a list is as much as there is of it.
proof fn kept_are_tallied(
    tasks: Seq<TaskModel>,
    keep: spec_fn(TaskModel) -> bool,
    asked: spec_fn(TaskModel) -> bool,
    n: nat,
)
    requires
        n <= tasks.len(),
        forall|i: int| 0 <= i < tasks.len() ==> keep(#[trigger] tasks[i]) == asked(tasks[i]),
    ensures
        tasks.take(n as int).filter(keep).len() == tally(tasks, asked, n),
    decreases n,
{
    reveal(Seq::filter);
    if n > 0 {
        kept_are_tallied(tasks, keep, asked, (n - 1) as nat);
        let some = tasks.take(n as int);
        assert(some.drop_last() =~= tasks.take(n - 1));
        assert(some.last() == tasks[n - 1]);
    } else {
        assert(tasks.take(0) =~= Seq::<TaskModel>::empty());
    }
}

/// The counts of a ledger tell how many tasks are abandoned, done, blocked, active and ready; the free slots
/// are those that active tasks leave.
pub proof fn counts_tell_how_many(ledger: LedgerModel)
    requires
        distinct(ledger.tasks),
    ensures
        ({
            let tasks = ledger.tasks;
            let n = tasks.len();
            let active = tally(
                tasks,
                |task: TaskModel| workable(tasks, task) && task.status == Status::Active,
                n,
            );
            &&& counted(ledger, View::Cancelled) == tally(
                tasks,
                |task: TaskModel| task.cancelled is Some,
                n,
            )
            &&& counted(ledger, View::Done) == tally(
                tasks,
                |task: TaskModel| task.cancelled is None && task.status == Status::Done,
                n,
            )
            &&& counted(ledger, View::Blocked) == tally(
                tasks,
                |task: TaskModel| still_open(task) && !workable(tasks, task),
                n,
            )
            &&& counted(ledger, View::Active) == active
            &&& counted(ledger, View::Ready) == tally(
                tasks,
                |task: TaskModel| workable(tasks, task) && task.status == Status::Pending,
                n,
            )
            &&& active + free_slots(ledger) == if active < ledger.parallelism {
                ledger.parallelism as nat
            } else {
                active
            }
        }),
{
    let tasks = ledger.tasks;
    let n = tasks.len();
    assert(tasks.take(n as int) =~= tasks);
    assert forall|task: TaskModel| true implies (#[trigger] state_of(tasks, task) == View::Cancelled
        <==> task.cancelled is Some) && (state_of(tasks, task) == View::Done <==> task.cancelled
        is None && task.status == Status::Done) && (state_of(tasks, task) == View::Blocked
        <==> still_open(task) && !workable(tasks, task)) && (state_of(tasks, task) == View::Active
        <==> workable(tasks, task) && task.status == Status::Active) && (state_of(tasks, task)
        == View::Ready <==> workable(tasks, task) && task.status == Status::Pending) by {
        standing_is_told_by_the_fields(tasks, task);
    }
    kept_are_tallied(
        tasks,
        |task: TaskModel| state_of(tasks, task) == View::Cancelled,
        |task: TaskModel| task.cancelled is Some,
        n,
    );
    kept_are_tallied(
        tasks,
        |task: TaskModel| state_of(tasks, task) == View::Done,
        |task: TaskModel| task.cancelled is None && task.status == Status::Done,
        n,
    );
    kept_are_tallied(
        tasks,
        |task: TaskModel| state_of(tasks, task) == View::Blocked,
        |task: TaskModel| still_open(task) && !workable(tasks, task),
        n,
    );
    kept_are_tallied(
        tasks,
        |task: TaskModel| state_of(tasks, task) == View::Active,
        |task: TaskModel| workable(tasks, task) && task.status == Status::Active,
        n,
    );
    kept_are_tallied(
        tasks,
        |task: TaskModel| state_of(tasks, task) == View::Ready,
        |task: TaskModel| workable(tasks, task) && task.status == Status::Pending,
        n,
    );
}

/// The summary tells the number of active and of ready tasks, of blocked and of done ones where there
/// are any, and of free slots where more than one task may be active.
pub proof fn summaries_tell_the_counts(ledger: LedgerModel)
    ensures
        mentions(summary_of(ledger), decimal_of(counted(ledger, View::Active)) + " active"@),
        mentions(summary_of(ledger), decimal_of(counted(ledger, View::Ready)) + " ready"@),
        counted(ledger, View::Blocked) > 0 ==> mentions(
            summary_of(ledger),
            decimal_of(counted(ledger, View::Blocked)) + " blocked"@,
        ),
        counted(ledger, View::Done) > 0 ==> mentions(
            summary_of(ledger),
            decimal_of(counted(ledger, View::Done)) + " done"@,
        ),
        ledger.parallelism > 1 ==> mentions(
            summary_of(ledger),
            decimal_of(free_slots(ledger)) + " of "@ + decimal_of(ledger.parallelism as nat)
                + " slots free"@,
        ),
{
    let free = decimal_of(free_slots(ledger)) + " of "@ + decimal_of(ledger.parallelism as nat)
        + " slots free"@;
    let active = decimal_of(counted(ledger, View::Active)) + " active"@;
    let ready = decimal_of(counted(ledger, View::Ready)) + " ready"@;
    let blocked = decimal_of(counted(ledger, View::Blocked)) + " blocked"@;
    let done = decimal_of(counted(ledger, View::Done)) + " done"@;
    let a = seq![active];
    let b = if ledger.parallelism > 1 {
        seq![free]
    } else {
        Seq::empty()
    };
    let c = seq![ready];
    let d = counted_part(counted(ledger, View::Blocked), " blocked"@);
    let e = counted_part(counted(ledger, View::Done), " done"@);
    lines_tell(active);
    parts_tell(ledger, a, b, c, d, e, active);
    lines_tell(ready);
    parts_tell(ledger, a, b, c, d, e, ready);
    if counted(ledger, View::Blocked) > 0 {
        lines_tell(blocked);
        parts_tell(ledger, a, b, c, d, e, blocked);
    }
    if counted(ledger, View::Done) > 0 {
        lines_tell(done);
        parts_tell(ledger, a, b, c, d, e, done);
    }
    if ledger.parallelism > 1 {
        lines_tell(free);
        parts_tell(ledger, a, b, c, d, e, free);
    }
}

proof fn lines_tell(line: Seq<char>)
    ensures
        tells(seq![line], line),
{
    mentions_itself(line);
    line_tells(line, line);
}

proof fn parts_tell(
    ledger: LedgerModel,
    a: Seq<Seq<char>>,
    b: Seq<Seq<char>>,
    c: Seq<Seq<char>>,
    d: Seq<Seq<char>>,
    e: Seq<Seq<char>>,
    part: Seq<char>,
)
    requires
        summary_parts(ledger) == a + b + c + d + e,
        tells(a, part) || tells(b, part) || tells(c, part) || tells(d, part) || tells(e, part),
    ensures
        mentions(summary_of(ledger), part),
{
    if tells(a, part) || tells(b, part) {
        both_tell(a, b, part);
    }
    if tells(a + b, part) || tells(c, part) {
        both_tell(a + b, c, part);
    }
    if tells(a + b + c, part) || tells(d, part) {
        both_tell(a + b + c, d, part);
    }
    both_tell(a + b + c + d, e, part);
    joined_lines_tell(summary_parts(ledger), " · "@, part);
}

/// Where a task stands in what is arranged: what is active first, then what is ready, blocked, done and
/// abandoned.
pub open spec fn rank(tasks: Seq<TaskModel>, task: TaskModel) -> int {
    if task.cancelled is Some {
        4
    } else if task.status == Status::Done {
        3
    } else if !workable(tasks, task) {
        2
    } else if task.status == Status::Active {
        0
    } else {
        1
    }
}

/// Arranging keeps the tasks that were chosen, all of them and no others, and puts what is active first,
/// then what is ready, what is blocked, what is done and what is abandoned.
pub proof fn arranged_tasks_go_by_their_state(
    plan: Seq<TaskModel>,
    chosen: Seq<TaskModel>,
    task: TaskModel,
    i: int,
    j: int,
)
    requires
        distinct(plan),
        forall|i: int| 0 <= i < chosen.len() ==> plan.contains(#[trigger] chosen[i]),
    ensures
        arranged(plan, chosen).contains(task) <==> chosen.contains(task),
        0 <= i <= j < arranged(plan, chosen).len() ==> rank(plan, arranged(plan, chosen)[i])
            <= rank(plan, arranged(plan, chosen)[j]),
{
    arranging_keeps_tasks(plan, chosen, task);
    let (order, left) = crate::ledger::graph::scheduled(crate::ledger::graph::wanted(plan, chosen));
    let list = if crate::ledger::graph::all_known(plan, chosen) && left.len() == 0 {
        order
    } else {
        chosen
    };
    let a = of_state(plan, list, View::Active);
    let b = of_state(plan, list, View::Ready);
    let c = of_state(plan, list, View::Blocked);
    let d = of_state(plan, list, View::Done);
    let e = of_state(plan, list, View::Cancelled);
    let all = arranged(plan, chosen);
    assert(all == a + b + c + d + e);
    if 0 <= i <= j < all.len() {
        one_rank(plan, list, View::Active, 0);
        one_rank(plan, list, View::Ready, 1);
        one_rank(plan, list, View::Blocked, 2);
        one_rank(plan, list, View::Done, 3);
        one_rank(plan, list, View::Cancelled, 4);
        group_at(a, b, c, d, e, i);
        group_at(a, b, c, d, e, j);
    }
}

/// Every task of a state has its rank.
proof fn one_rank(plan: Seq<TaskModel>, list: Seq<TaskModel>, state: View, r: int)
    requires
        distinct(plan),
        state == View::Active ==> r == 0,
        state == View::Ready ==> r == 1,
        state == View::Blocked ==> r == 2,
        state == View::Done ==> r == 3,
        state == View::Cancelled ==> r == 4,
    ensures
        forall|k: int|
            0 <= k < of_state(plan, list, state).len() ==> rank(
                plan,
                #[trigger] of_state(plan, list, state)[k],
            ) == r,
{
    let group = of_state(plan, list, state);
    assert forall|k: int| 0 <= k < group.len() implies rank(plan, #[trigger] group[k]) == r by {
        assert(group.contains(group[k]));
        kept_by_filter(list, |task: TaskModel| state_of(plan, task) == state, group[k]);
        standing_is_told_by_the_fields(plan, group[k]);
    }
}

/// In which of five lists one after the other an item stands.
proof fn group_at<A>(a: Seq<A>, b: Seq<A>, c: Seq<A>, d: Seq<A>, e: Seq<A>, i: int)
    requires
        0 <= i < (a + b + c + d + e).len(),
    ensures
        ({
            let x = (a + b + c + d + e)[i];
            let ab = a.len() + b.len();
            let abc = ab + c.len();
            let abcd = abc + d.len();
            &&& i < a.len() ==> x == a[i]
            &&& a.len() <= i < ab ==> x == b[i - a.len()]
            &&& ab <= i < abc ==> x == c[i - ab]
            &&& abc <= i < abcd ==> x == d[i - abc]
            &&& abcd <= i ==> x == e[i - abcd]
        }),
{
}

/// An overview shows every open task. It shows every finished task too, where there are no more of them
/// than it has room for.
pub proof fn open_tasks_are_visible(tasks: Seq<TaskModel>, tail: nat, task: TaskModel)
    ensures
        tasks.contains(task) && still_open(task) ==> visible_rows(tasks, tail).contains(task),
        visible_rows(tasks, tail).contains(task) ==> tasks.contains(task),
        tasks.len() <= tail && tasks.contains(task) ==> visible_rows(tasks, tail).contains(task),
{
    let keep = recent_ids(tasks, tail, tasks.len());
    let shown = |task: TaskModel| !terminal(task) || keep.contains(task.id);
    kept_by_filter(tasks, shown, task);
    if tasks.len() <= tail && tasks.contains(task) && terminal(task) {
        let i = choose|i: int| 0 <= i < tasks.len() && tasks[i] == task;
        all_are_recent(tasks, tail, tasks.len(), i);
    }
}

/// Fewer than all tasks are later than one of them.
proof fn few_are_later(tasks: Seq<TaskModel>, i: int, n: nat)
    requires
        0 <= i < tasks.len(),
        n <= tasks.len(),
    ensures
        later_count(tasks, i, n) <= n,
        i < n ==> later_count(tasks, i, n) < n,
    decreases n,
{
    if n > 0 {
        few_are_later(tasks, i, (n - 1) as nat);
    }
}

/// Where there is room for all, every finished task is recent.
proof fn all_are_recent(tasks: Seq<TaskModel>, tail: nat, n: nat, i: int)
    requires
        0 <= i < n <= tasks.len() <= tail,
        terminal(tasks[i]),
    ensures
        recent_ids(tasks, tail, n).contains(tasks[i].id),
    decreases n,
{
    let before = recent_ids(tasks, tail, (n - 1) as nat);
    let after = recent_ids(tasks, tail, n);
    few_are_later(tasks, n - 1, tasks.len());
    if i == n - 1 {
        if !before.contains(tasks[i].id) {
            assert(after[before.len() as int] == tasks[i].id);
        }
    } else {
        all_are_recent(tasks, tail, (n - 1) as nat, i);
        let k = choose|k: int| 0 <= k < before.len() && before[k] == tasks[i].id;
        assert(after[k] == tasks[i].id);
    }
}

/// A finished task is shown exactly when fewer finished tasks than there is room for came later, by when
/// they were last changed and then by their place.
pub proof fn the_latest_finished_tasks_are_visible(tasks: Seq<TaskModel>, tail: nat, i: int)
    requires
        distinct(tasks),
        0 <= i < tasks.len(),
        terminal(tasks[i]),
    ensures
        visible_rows(tasks, tail).contains(tasks[i]) <==> later_count(tasks, i, tasks.len()) < tail,
{
    let keep = recent_ids(tasks, tail, tasks.len());
    let shown = |task: TaskModel| !terminal(task) || keep.contains(task.id);
    assert(tasks.contains(tasks[i]));
    kept_by_filter(tasks, shown, tasks[i]);
    recent_are_latest(tasks, tail, tasks.len(), i);
}

/// An id is recent exactly when fewer tasks than there is room for came later.
proof fn recent_are_latest(tasks: Seq<TaskModel>, tail: nat, n: nat, i: int)
    requires
        distinct(tasks),
        n <= tasks.len(),
        0 <= i < tasks.len(),
        terminal(tasks[i]),
    ensures
        recent_ids(tasks, tail, n).contains(tasks[i].id) <==> i < n && later_count(
            tasks,
            i,
            tasks.len(),
        ) < tail,
    decreases n,
{
    if n > 0 {
        recent_are_latest(tasks, tail, (n - 1) as nat, i);
        let before = recent_ids(tasks, tail, (n - 1) as nat);
        let after = recent_ids(tasks, tail, n);
        if before.contains(tasks[i].id) {
            let k = choose|k: int| 0 <= k < before.len() && before[k] == tasks[i].id;
            assert(after[k] == tasks[i].id);
        }
        if after != before {
            assert(after == before.push(tasks[n - 1].id));
            assert(after[before.len() as int] == tasks[n - 1].id);
            if after.contains(tasks[i].id) && !before.contains(tasks[i].id) {
                let k = choose|k: int| 0 <= k < after.len() && after[k] == tasks[i].id;
                if k < before.len() {
                    assert(before[k] == tasks[i].id);
                }
                if i < n - 1 {
                    assert(tasks[i].id != tasks[n - 1].id);
                } else if n - 1 < i {
                    assert(tasks[n - 1].id != tasks[i].id);
                }
            }
        }
    }
}

/// Of a task being worked on the latest four findings are shown, in order.
pub proof fn latest_findings_are_shown(task: TaskModel, k: int)
    ensures
        previews_of(task).len() == if task.findings.len() < 4 {
            task.findings.len()
        } else {
            4
        },
        0 <= k < previews_of(task).len() ==> previews_of(task)[k] == preview_of(
            task.findings[task.findings.len() - previews_of(task).len() + k],
        ),
{
}

/// A finding that is short enough is shown with its whole text.
pub proof fn short_findings_are_shown_whole(finding: FindingModel)
    requires
        name_of(finding.text).len() <= 160,
    ensures
        mentions(preview_of(finding), name_of(finding.text)),
        mentions(preview_of(finding), stamp_of(finding.at as int)),
{
    let stamp = stamp_of(finding.at as int);
    let text = name_of(finding.text);
    let lead = stamp + " · "@;
    mentions_itself(text);
    mentioned_after(lead, text, text);
    mentioned_before(lead + text, crate::ledger::render::origin_note(finding), text);
    mentions_itself(stamp);
    mentioned_before(stamp, " · "@, stamp);
    mentioned_before(lead, text, stamp);
    mentioned_before(lead + text, crate::ledger::render::origin_note(finding), stamp);
}

/// One task came later than another exactly when it was changed later, or as late and stands behind it.
pub proof fn later_tasks_were_changed_later(tasks: Seq<TaskModel>, i: int, j: int)
    ensures
        tasks[j].updated > tasks[i].updated ==> later(tasks, i, j) && !later(tasks, j, i),
        tasks[j].updated == tasks[i].updated ==> (later(tasks, i, j) <==> i < j),
{
}

} // verus!
