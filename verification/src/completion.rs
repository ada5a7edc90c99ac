//! Whether a turn may end while the ledger holds unfinished work.

use vstd::prelude::*;
use vstd::string::StringExecFns;
use vstd::view::View as _;

use crate::ledger::laws::distinct;
use crate::ledger::model::ExecutionModel;
use crate::ledger::model::Ledger;
use crate::ledger::model::LedgerModel;
use crate::ledger::model::Task;
use crate::ledger::model::TaskModel;
use crate::ledger::model::referred;
use crate::ledger::query::View;
use crate::ledger::query::filter_step;
use crate::ledger::query::label_of;
use crate::ledger::query::open_tasks;
use crate::ledger::query::state_of;
use crate::ledger::standing::kept_by_filter;
use crate::ledger::standing::open_tasks_are_open;
use crate::ledger::standing::standing_is_told_by_the_fields;
use crate::ledger::standing::still_open;
use crate::ledger::standing::workable;
use crate::table::lookup;
use crate::text::maybe;
use crate::text_laws::mentioned_after;
use crate::text_laws::mentioned_before;
use crate::text_laws::mentioned_within;
use crate::text_laws::mentions;
use crate::text_laws::mentions_itself;

verus! {

/// The tasks that are in flight or could start.
pub open spec fn executable(tasks: Seq<TaskModel>) -> Seq<TaskModel> {
    tasks.filter(
        |task: TaskModel|
            state_of(tasks, task) == View::Active || state_of(tasks, task) == View::Ready,
    )
}

/// Some worker is running.
pub open spec fn any_running(executions: Seq<(Seq<char>, ExecutionModel)>) -> bool {
    exists|i: int| 0 <= i < executions.len() && (#[trigger] executions[i]).1.running
}

/// A worker has stopped whose task could still be worked on.
pub open spec fn any_returned(ledger: LedgerModel, list: Seq<TaskModel>) -> bool {
    exists|i: int|
        0 <= i < list.len() && returned(ledger, #[trigger] list[i])
}

/// The task's worker has stopped.
pub open spec fn returned(ledger: LedgerModel, task: TaskModel) -> bool {
    &&& task.owner is Some
    &&& lookup(ledger.executions, task.owner->0) is Some
    &&& !lookup(ledger.executions, task.owner->0)->0.running
}

/// The lines of the first `n` tasks of a list.
pub open spec fn task_lines(tasks: Seq<TaskModel>, list: Seq<TaskModel>, n: nat) -> Seq<char>
    decreases n,
{
    if n == 0 {
        Seq::empty()
    } else {
        task_lines(tasks, list, (n - 1) as nat) + ("\n"@ + label_of(state_of(tasks, list[n - 1]))
            + " "@ + list[n - 1].id + ": "@ + list[n - 1].title)
    }
}

/// The lesser of two numbers.
pub open spec fn least(a: nat, b: nat) -> nat {
    if a < b {
        a
    } else {
        b
    }
}

/// What the root session is told about its unfinished work.
pub open spec fn root_reason(ledger: LedgerModel) -> Seq<char> {
    let list = executable(ledger.tasks);
    (if any_running(ledger.executions) {
        "Delegated work is running. Call wait_agent on its owners or take up independent ready work before finishing."@
    } else {
        "Unfinished work remains. Finish the next coherent batch, review it, and mark accepted work done."@
    }) + (if any_returned(ledger, list) {
        " Returned worker results need review and integration."@
    } else {
        Seq::empty()
    }) + " Record external waits on tasks; use ledger pause for a session-wide stop."@ + task_lines(
        ledger.tasks,
        list,
        least(list.len(), 3),
    )
}

/// Why a turn should not end yet, if it should not: there is unfinished work that somebody could
/// do or is doing, and nobody paused it.
pub open spec fn reason_of(ledger: LedgerModel, child: bool) -> Option<Seq<char>> {
    if ledger.pause is Some || open_tasks(ledger.tasks).len() == 0 {
        None
    } else if executable(ledger.tasks).len() == 0 && !any_running(ledger.executions) {
        None
    } else if child {
        Some(
            "Your ledger holds unfinished work. Finish what is executable. If a premise is false or a decision belongs to the parent, preserve partial work, record the external wait or pause, and report what remains and what unblocks it."@,
        )
    } else {
        Some(root_reason(ledger))
    }
}

/// The tasks that are in flight or could start.
fn executable_of(ledger: &Ledger) -> (rows: Vec<&Task>)
    ensures
        referred(rows@) == executable(ledger.model().tasks),
{
    let ghost tasks = ledger.model().tasks;
    let ghost keep = |task: TaskModel|
        state_of(tasks, task) == View::Active || state_of(tasks, task) == View::Ready;
    let mut rows: Vec<&Task> = Vec::new();
    let mut i: usize = 0;
    assert(tasks.take(0) == Seq::<TaskModel>::empty());
    reveal(Seq::filter);
    while i < ledger.tasks.len()
        invariant
            i <= ledger.tasks@.len(),
            tasks == ledger.model().tasks,
            keep == (|task: TaskModel|
                state_of(tasks, task) == View::Active || state_of(tasks, task) == View::Ready),
            referred(rows@) == tasks.take(i as int).filter(keep),
        decreases ledger.tasks@.len() - i,
    {
        proof {
            filter_step(tasks, keep, i as int);
        }
        let ghost before = rows@;
        let state = ledger.view(&ledger.tasks[i]).state;
        if state == View::Active || state == View::Ready {
            rows.push(&ledger.tasks[i]);
            assert(referred(rows@) =~= referred(before).push(tasks[i as int]));
        }
        i += 1;
    }
    assert(tasks.take(tasks.len() as int) == tasks);
    rows
}

/// Whether some worker is running.
fn is_any_running(ledger: &Ledger) -> (r: bool)
    ensures
        r == any_running(ledger.model().executions),
{
    let count: usize = ledger.executions.len();
    let mut i: usize = 0;
    while i < count
        invariant
            i <= count,
            count == ledger.executions@.len(),
            forall|j: int| 0 <= j < i ==> !(#[trigger] ledger.executions@[j]).1.running,
        decreases count - i,
    {
        if ledger.executions.value(i).running {
            assert(ledger.executions@[i as int].1.running);
            return true;
        }
        i += 1;
    }
    false
}

/// Whether a worker has stopped whose task could still be worked on.
fn is_any_returned(ledger: &Ledger, rows: &Vec<&Task>) -> (r: bool)
    ensures
        r == any_returned(ledger.model(), referred(rows@)),
{
    let ghost list = referred(rows@);
    let mut i: usize = 0;
    while i < rows.len()
        invariant
            i <= rows@.len(),
            list == referred(rows@),
            forall|j: int| 0 <= j < i ==> !returned(ledger.model(), #[trigger] list[j]),
        decreases rows@.len() - i,
    {
        assert(list[i as int] == rows@[i as int]@);
        if let Some(owner) = &rows[i].owner {
            if let Some(execution) = ledger.executions.get(owner.as_str()) {
                if !execution.running {
                    assert(returned(ledger.model(), list[i as int]));
                    return true;
                }
            }
        }
        i += 1;
    }
    false
}

/// Why a turn should not end yet, if it should not.
pub fn reason(ledger: &Ledger, child: bool) -> (r: Option<String>)
    ensures
        maybe(r) == reason_of(ledger.model(), child),
{
    let open = ledger.outstanding();
    assert(referred(open@).len() == open@.len());
    if ledger.pause.is_some() || open.len() == 0 {
        return None;
    }
    let rows = executable_of(ledger);
    let ghost list = referred(rows@);
    assert(list.len() == rows@.len());
    let running = is_any_running(ledger);
    if rows.len() == 0 && !running {
        return None;
    }
    if child {
        return Some(
            "Your ledger holds unfinished work. Finish what is executable. If a premise is false or a decision belongs to the parent, preserve partial work, record the external wait or pause, and report what remains and what unblocks it.".to_string(),
        );
    }
    let mut message = if running {
        "Delegated work is running. Call wait_agent on its owners or take up independent ready work before finishing.".to_string()
    } else {
        "Unfinished work remains. Finish the next coherent batch, review it, and mark accepted work done.".to_string()
    };
    if is_any_returned(ledger, &rows) {
        message.append(" Returned worker results need review and integration.");
    } else {
        assert(message@ + Seq::<char>::empty() == message@);
    }
    message.append(" Record external waits on tasks; use ledger pause for a session-wide stop.");
    let count: usize = if rows.len() < 3 {
        rows.len()
    } else {
        3
    };
    let ghost start = message@;
    let ghost tasks = ledger.model().tasks;
    assert(start + task_lines(tasks, list, 0) == start);
    let mut i: usize = 0;
    while i < count
        invariant
            i <= count <= rows@.len(),
            tasks == ledger.model().tasks,
            list == referred(rows@),
            message@ == start + task_lines(tasks, list, i as nat),
        decreases count - i,
    {
        let mut line = "\n".to_string();
        line.append(ledger.view(rows[i]).state.label());
        line.append(" ");
        line.append(rows[i].id.as_str());
        line.append(": ");
        line.append(rows[i].title.as_str());
        message.append(line.as_str());
        assert(start + task_lines(tasks, list, i as nat) + line@ == start + task_lines(
            tasks,
            list,
            (i + 1) as nat,
        ));
        i += 1;
    }
    Some(message)
}

/// What a session is told at an attempt to end its turn, and whether it has now been told: with
/// the ledger off or capacity zero nothing; a spawned session is told once in a turn.
pub open spec fn attempt_of(
    enabled: bool,
    ledger: LedgerModel,
    child: bool,
    told: bool,
) -> (Option<Seq<char>>, bool) {
    let why = reason_of(ledger, child);
    if !enabled || ledger.parallelism == 0 || why is None {
        (None, told)
    } else if child && told {
        (None, true)
    } else {
        (why, told || child)
    }
}

/// What a session is told at an attempt to end its turn, and whether it has now been told.
pub fn completion_attempt(enabled: bool, ledger: &Ledger, child: bool, told: bool) -> (r: (
    Option<String>,
    bool,
))
    ensures
        (maybe(r.0), r.1) == attempt_of(enabled, ledger.model(), child, told),
{
    if !enabled || ledger.parallelism == 0 {
        return (None, told);
    }
    match reason(ledger, child) {
        None => (None, told),
        Some(why) => if child && told {
            (None, true)
        } else {
            (Some(why), told || child)
        },
    }
}

/// A spawned session is held back at most once in a turn: after it has been told, it is not told
/// again.
pub proof fn child_told_once(enabled: bool, first: LedgerModel, later: LedgerModel)
    requires
        attempt_of(enabled, first, true, false).0 is Some,
    ensures
        attempt_of(enabled, later, true, attempt_of(enabled, first, true, false).1).0 is None,
{
}

/// Capacity zero turns completion reminders off, and so does a pause.
pub proof fn off_or_paused_is_silent(enabled: bool, ledger: LedgerModel, child: bool, told: bool)
    requires
        ledger.parallelism == 0 || ledger.pause is Some,
    ensures
        attempt_of(enabled, ledger, child, told).0 is None,
{
}

/// The tasks that are in flight or could start are those that wait for nothing.
proof fn executable_are_workable(tasks: Seq<TaskModel>, task: TaskModel)
    requires
        distinct(tasks),
    ensures
        executable(tasks).contains(task) <==> tasks.contains(task) && workable(tasks, task),
{
    let keep = |task: TaskModel|
        state_of(tasks, task) == View::Active || state_of(tasks, task) == View::Ready;
    kept_by_filter(tasks, keep, task);
    standing_is_told_by_the_fields(tasks, task);
}

/// A root session is told to go on whenever some task is open and waits neither for another task nor
/// for anything outside, be it pending or active; and a spawned session is, once.
pub proof fn workable_tasks_hold_the_turn(
    ledger: LedgerModel,
    child: bool,
    told: bool,
    i: int,
)
    requires
        distinct(ledger.tasks),
        ledger.parallelism > 0,
        ledger.pause is None,
        0 <= i < ledger.tasks.len(),
        workable(ledger.tasks, ledger.tasks[i]),
        !(child && told),
    ensures
        attempt_of(true, ledger, child, told).0 is Some,
        child ==> attempt_of(true, ledger, child, told).1,
        !child ==> attempt_of(true, ledger, child, told).1 == told,
{
    let tasks = ledger.tasks;
    assert(tasks.contains(tasks[i]));
    executable_are_workable(tasks, tasks[i]);
    open_tasks_are_open(tasks, tasks[i]);
    let list = executable(tasks);
    let k = choose|k: int| 0 <= k < list.len() && list[k] == tasks[i];
    let open = open_tasks(tasks);
    let j = choose|j: int| 0 <= j < open.len() && open[j] == tasks[i];
}

/// While a worker runs and some task is open, a session that has not been told is told to go on.
pub proof fn running_workers_hold_the_turn(
    ledger: LedgerModel,
    child: bool,
    told: bool,
    i: int,
    w: int,
)
    requires
        ledger.parallelism > 0,
        ledger.pause is None,
        0 <= i < ledger.tasks.len(),
        still_open(ledger.tasks[i]),
        0 <= w < ledger.executions.len(),
        ledger.executions[w].1.running,
        !(child && told),
    ensures
        attempt_of(true, ledger, child, told).0 is Some,
{
    assert(ledger.tasks.contains(ledger.tasks[i]));
    open_tasks_are_open(ledger.tasks, ledger.tasks[i]);
    let open = open_tasks(ledger.tasks);
    let j = choose|j: int| 0 <= j < open.len() && open[j] == ledger.tasks[i];
}

/// A turn may end where there is nothing left that anybody could do or is doing: no task waits for
/// nothing, and no worker runs; or every task is done or abandoned.
pub proof fn settled_work_lets_the_turn_end(
    enabled: bool,
    ledger: LedgerModel,
    child: bool,
    told: bool,
)
    requires
        distinct(ledger.tasks),
        (forall|i: int|
            0 <= i < ledger.tasks.len() ==> !workable(ledger.tasks, #[trigger] ledger.tasks[i]))
            && (forall|w: int|
            0 <= w < ledger.executions.len() ==> !(#[trigger] ledger.executions[w]).1.running)
            || (forall|i: int| 0 <= i < ledger.tasks.len() ==> !still_open(#[trigger] ledger.tasks[i])),
    ensures
        attempt_of(enabled, ledger, child, told).0 is None,
        attempt_of(enabled, ledger, child, told).1 == told,
{
    let tasks = ledger.tasks;
    let list = executable(tasks);
    let open = open_tasks(tasks);
    if open.len() > 0 {
        open_tasks_are_open(tasks, open[0]);
        assert(open.contains(open[0]));
        let i = choose|i: int| 0 <= i < tasks.len() && tasks[i] == open[0];
        assert(still_open(tasks[i]));
        if list.len() > 0 {
            executable_are_workable(tasks, list[0]);
            assert(list.contains(list[0]));
            let i = choose|i: int| 0 <= i < tasks.len() && tasks[i] == list[0];
            assert(workable(tasks, tasks[i]));
        }
    }
}

/// Where four texts meet does not matter.
proof fn line_ends(a: Seq<char>, b: Seq<char>, c: Seq<char>, d: Seq<char>)
    ensures
        a + (b + c + d) + Seq::<char>::empty() == a + b + c + d,
{
    assert(a + (b + c + d) + Seq::<char>::empty() =~= a + b + c + d);
}

/// A line for each of the first tasks.
proof fn lines_name_tasks(tasks: Seq<TaskModel>, list: Seq<TaskModel>, n: nat, k: int)
    requires
        0 <= k < n <= list.len(),
    ensures
        mentions(task_lines(tasks, list, n), list[k].id + ": "@ + list[k].title),
    decreases n,
{
    let part = list[k].id + ": "@ + list[k].title;
    let before = task_lines(tasks, list, (n - 1) as nat);
    let none = Seq::<char>::empty();
    let lead = "\n"@ + label_of(state_of(tasks, list[n - 1])) + " "@;
    let line = lead + list[n - 1].id + ": "@ + list[n - 1].title;
    assert(task_lines(tasks, list, n) == before + line);
    if k == n - 1 {
        mentions_itself(part);
        mentioned_within(lead, part, none, part);
        line_ends(lead, list[k].id, ": "@, list[k].title);
        mentioned_within(before, line, none, part);
        assert(before + line + none =~= before + line);
    } else {
        lines_name_tasks(tasks, list, (n - 1) as nat, k);
        mentioned_within(none, before, line, part);
        assert(none + before + line =~= before + line);
    }
}

/// Where no more than three tasks wait for nothing, a root session that is held back is told of each
/// of them by its id and title.
pub proof fn workable_tasks_are_named(ledger: LedgerModel, told: bool, i: int)
    requires
        distinct(ledger.tasks),
        ledger.parallelism > 0,
        ledger.pause is None,
        0 <= i < ledger.tasks.len(),
        workable(ledger.tasks, ledger.tasks[i]),
        executable(ledger.tasks).len() <= 3,
    ensures
        attempt_of(true, ledger, false, told).0 matches Some(text) && mentions(
            text,
            ledger.tasks[i].id + ": "@ + ledger.tasks[i].title,
        ),
{
    let tasks = ledger.tasks;
    let list = executable(tasks);
    workable_tasks_hold_the_turn(ledger, false, told, i);
    assert(tasks.contains(tasks[i]));
    executable_are_workable(tasks, tasks[i]);
    let k = choose|k: int| 0 <= k < list.len() && list[k] == tasks[i];
    lines_name_tasks(tasks, list, list.len(), k);
    let text = root_reason(ledger);
    let lines = task_lines(tasks, list, list.len());
    let none = Seq::<char>::empty();
    let lead = text.take(text.len() - lines.len());
    assert(text =~= lead + lines + none);
    mentioned_within(lead, lines, none, tasks[i].id + ": "@ + tasks[i].title);
}

/// A root session is told that delegated work runs exactly when a worker runs, and that results came back
/// exactly when a task that could be worked on is delegated to a worker that no longer runs.
pub proof fn reminders_tell_of_workers(ledger: LedgerModel, i: int)
    requires
        distinct(ledger.tasks),
    ensures
        any_running(ledger.executions) ==> mentions(
            root_reason(ledger),
            "Delegated work is running. Call wait_agent on its owners or take up independent ready work before finishing."@,
        ),
        !any_running(ledger.executions) ==> mentions(
            root_reason(ledger),
            "Unfinished work remains. Finish the next coherent batch, review it, and mark accepted work done."@,
        ),
        0 <= i < ledger.tasks.len() && workable(ledger.tasks, ledger.tasks[i]) && (
        ledger.tasks[i].owner matches Some(owner) && lookup(ledger.executions, owner) matches Some(
            execution,
        ) && !execution.running) ==> mentions(
            root_reason(ledger),
            " Returned worker results need review and integration."@,
        ),
{
    let list = executable(ledger.tasks);
    let a = if any_running(ledger.executions) {
        "Delegated work is running. Call wait_agent on its owners or take up independent ready work before finishing."@
    } else {
        "Unfinished work remains. Finish the next coherent batch, review it, and mark accepted work done."@
    };
    let back = " Returned worker results need review and integration."@;
    let b = if any_returned(ledger, list) {
        back
    } else {
        Seq::empty()
    };
    let c = " Record external waits on tasks; use ledger pause for a session-wide stop."@;
    let d = task_lines(ledger.tasks, list, least(list.len(), 3));
    mentions_itself(a);
    mentioned_before(a, b, a);
    mentioned_before(a + b, c, a);
    mentioned_before(a + b + c, d, a);
    if 0 <= i < ledger.tasks.len() && workable(ledger.tasks, ledger.tasks[i]) && returned(
        ledger,
        ledger.tasks[i],
    ) {
        assert(ledger.tasks.contains(ledger.tasks[i]));
        executable_are_workable(ledger.tasks, ledger.tasks[i]);
        let k = choose|k: int| 0 <= k < list.len() && list[k] == ledger.tasks[i];
        assert(returned(ledger, list[k]));
        mentions_itself(back);
        mentioned_after(a, back, back);
        mentioned_before(a + b, c, back);
        mentioned_before(a + b + c, d, back);
    }
}

} // verus!
