//! The ledger as text: previews, the bounded overview and the complete recall.

use vstd::prelude::*;
use vstd::string::StringExecFns;
use vstd::view::View as _;

use crate::ledger::graph::arranged;
use crate::ledger::graph::of_state;
use crate::ledger::laws::distinct;
use crate::ledger::model::ExecutionModel;
use crate::ledger::model::Finding;
use crate::ledger::model::FindingModel;
use crate::ledger::model::Ledger;
use crate::ledger::model::LedgerModel;
use crate::ledger::model::Task;
use crate::ledger::model::TaskModel;
use crate::ledger::model::referred;
use crate::ledger::model::terminal;
use crate::ledger::query::View;
use crate::ledger::query::counted;
use crate::ledger::query::filter_step;
use crate::ledger::query::glyph_of;
use crate::ledger::query::has_id;
use crate::ledger::query::label_of;
use crate::ledger::query::open_tasks;
use crate::ledger::query::state_of;
use crate::ledger::query::summary_of;
use crate::ledger::query::summary_parts;
use crate::ledger::query::viewed;
use crate::ledger::standing::kept_by_filter;
use crate::ledger::standing::open_tasks_are_open;
use crate::ledger::standing::still_open;
use crate::text::byte_count;
use crate::text::bytes_concat;
use crate::text::bytes_of;
use crate::text::char_bytes;
use crate::text::chars_of;
use crate::text::decimal;
use crate::text::decimal_of;
use crate::text::holds;
use crate::text::join;
use crate::text::joined;
use crate::text::lines;
use crate::text::lines_of;
use crate::text::maybe;
use crate::text::name;
use crate::text::name_of;
use crate::text::same;
use crate::text::text_of;
use crate::text::texts;
use crate::text::trim_end;
use crate::text::trimmed_end;
use crate::text_laws::both_tell;
use crate::text_laws::joined_lines_tell;
use crate::text_laws::joined_mentions;
use crate::text_laws::line_tells;
use crate::text_laws::listed_line_tells;
use crate::text_laws::mentioned_after;
use crate::text_laws::mentioned_before;
use crate::text_laws::mentioned_by_way_of;
use crate::text_laws::mentions;
use crate::text_laws::mentions_itself;
use crate::text_laws::stands_at;
use crate::text_laws::tells;
use crate::time::format_timestamp;
use crate::time::stamp_of;

verus! {

/// Finished rows kept visible after the open ones.
pub const TERMINAL_TAIL: usize = 5;

/// Findings previewed for each active task; the rest stay stored for recall.
pub const FINDING_TAIL: usize = 4;

/// The longest preview line, in characters.
pub const LINE_LIMIT: usize = 160;

/// The longest body preview, in characters.
pub const BODY_PREVIEW_LENGTH: usize = 1_600;

/// The largest overview, in bytes.
pub const CONTEXT_BYTES: usize = 24_000;

/// A text cut to a number of characters, the last of them an ellipsis where something is cut.
pub open spec fn clamped(s: Seq<char>, limit: nat) -> Seq<char> {
    if s.len() > limit {
        trimmed_end(s.take(if limit > 0 {
            limit - 1
        } else {
            0
        })).push('…')
    } else {
        s
    }
}

/// A text on one line, cut to a number of characters.
pub open spec fn one_line_of(s: Seq<char>, limit: nat) -> Seq<char> {
    clamped(name_of(s), limit)
}

/// Where a finding came from, in brackets.
pub open spec fn origin_note(finding: FindingModel) -> Seq<char> {
    match finding.from {
        Some(from) => " (from "@ + from.task + " "@ + from.title + ")"@,
        None => Seq::empty(),
    }
}

/// A finding on one line.
pub open spec fn preview_of(finding: FindingModel) -> Seq<char> {
    stamp_of(finding.at as int) + " · "@ + one_line_of(finding.text, LINE_LIMIT as nat)
        + origin_note(finding)
}

/// How many findings come before the previewed ones.
pub open spec fn unshown(task: TaskModel) -> int {
    if task.findings.len() > FINDING_TAIL {
        task.findings.len() - FINDING_TAIL
    } else {
        0
    }
}

/// The latest few findings, one line each.
pub open spec fn previews_of(task: TaskModel) -> Seq<Seq<char>> {
    let recent = task.findings.skip(unshown(task));
    Seq::new(recent.len(), |i: int| preview_of(recent[i]))
}

/// Each line with a mark before it.
pub open spec fn marked(mark: Seq<char>, list: Seq<Seq<char>>) -> Seq<Seq<char>> {
    Seq::new(list.len(), |i: int| mark + list[i])
}

/// The findings that go with active work.
pub open spec fn finding_context_of(task: TaskModel) -> Seq<char> {
    let previews = previews_of(task);
    if previews.len() == 0 {
        Seq::empty()
    } else {
        let header = "Findings: "@ + decimal_of(previews.len()) + " of "@ + decimal_of(
            task.findings.len(),
        ) + " shown (previews). Recall "@ + task.id + " for complete context and notes."@;
        joined(seq![header] + marked("- "@, previews), "\n"@)
    }
}

/// The body that goes with active work.
pub open spec fn body_context_of(task: TaskModel) -> Seq<char> {
    let body = clamped(task.body, BODY_PREVIEW_LENGTH as nat);
    if body != task.body {
        body + ("\nBody shortened. Recall "@ + task.id + " for complete context."@)
    } else {
        body
    }
}

/// What goes with active work: the body and the findings, shortened.
pub open spec fn task_context_of(task: TaskModel) -> Seq<char> {
    let body = body_context_of(task);
    let findings = finding_context_of(task);
    if body.len() == 0 {
        findings
    } else if findings.len() == 0 {
        body
    } else {
        body + "\n"@ + findings
    }
}

/// The first lines of a text, each shortened.
pub open spec fn short_lines(source: Seq<Seq<char>>, most: nat) -> Seq<Seq<char>> {
    let shown = source.take(if source.len() < most {
        source.len() as int
    } else {
        most as int
    });
    Seq::new(shown.len(), |i: int| clamped(shown[i], LINE_LIMIT as nat))
}

/// Lines of a text were left out or shortened.
pub open spec fn lines_lost(source: Seq<Seq<char>>, shown: Seq<Seq<char>>) -> bool {
    ||| source.len() > shown.len()
    ||| exists|i: int| 0 <= i < shown.len() && #[trigger] shown[i] != source[i]
}

/// A text cut to a number of lines and of characters.
pub open spec fn bounded_lines_of(s: Seq<char>, most: nat, limit: nat) -> Seq<Seq<char>> {
    let source = lines_of(s);
    let shown = short_lines(source, most);
    let output = clamped(joined(shown, "\n"@), limit);
    lines_of(
        if lines_lost(source, shown) {
            clamped(output + "…"@, limit)
        } else {
            output
        },
    )
}

/// Row `j` settled later than row `i`; among rows of one time the later row counts as later.
pub open spec fn later(tasks: Seq<TaskModel>, i: int, j: int) -> bool {
    tasks[j].updated > tasks[i].updated || (tasks[j].updated == tasks[i].updated && j > i)
}

/// How many of the first `n` rows are finished and settled later than row `i`.
pub open spec fn later_count(tasks: Seq<TaskModel>, i: int, n: nat) -> nat
    decreases n,
{
    if n == 0 {
        0
    } else {
        later_count(tasks, i, (n - 1) as nat) + if terminal(tasks[n - 1]) && later(
            tasks,
            i,
            n - 1,
        ) {
            1nat
        } else {
            0nat
        }
    }
}

/// The ids, each once, of those of the first `n` rows that are among the `tail` most recently
/// settled.
pub open spec fn recent_ids(tasks: Seq<TaskModel>, tail: nat, n: nat) -> Seq<Seq<char>>
    decreases n,
{
    if n == 0 {
        Seq::empty()
    } else {
        let before = recent_ids(tasks, tail, (n - 1) as nat);
        let task = tasks[n - 1];
        if terminal(task) && later_count(tasks, n - 1, tasks.len()) < tail && !before.contains(
            task.id,
        ) {
            before.push(task.id)
        } else {
            before
        }
    }
}

/// The finished or abandoned tasks.
pub open spec fn finished(tasks: Seq<TaskModel>) -> Seq<TaskModel> {
    tasks.filter(|task: TaskModel| terminal(task))
}

/// Everything still open plus the most recently settled few.
pub open spec fn visible_rows(tasks: Seq<TaskModel>, tail: nat) -> Seq<TaskModel> {
    let keep = recent_ids(tasks, tail, tasks.len());
    tasks.filter(|task: TaskModel| !terminal(task) || keep.contains(task.id))
}

/// How many finished tasks are left out.
pub open spec fn hidden_count(tasks: Seq<TaskModel>, tail: nat) -> int {
    let all = finished(tasks).len();
    let keep = recent_ids(tasks, tail, tasks.len()).len();
    if all > keep {
        all - keep
    } else {
        0
    }
}

/// A text cut to a number of characters.
pub(crate) fn clamp(text: &str, limit: usize) -> (r: String)
    ensures
        r@ == clamped(text@, limit as nat),
{
    let chars = chars_of(text);
    if chars.len() > limit {
        let keep: usize = if limit > 0 {
            limit - 1
        } else {
            0
        };
        let cut = text_of(&chars, 0, keep);
        assert(cut@ == text@.take(keep as int));
        let mut out = trim_end(cut.as_str());
        out.push('…');
        out
    } else {
        text.to_string()
    }
}

/// A text on one line, cut to a number of characters.
fn one_line(text: &str, limit: usize) -> (r: String)
    ensures
        r@ == one_line_of(text@, limit as nat),
{
    clamp(name(text).as_str(), limit)
}

/// Where a finding came from, in brackets.
fn origin_text(finding: &Finding) -> (r: String)
    ensures
        r@ == origin_note(finding@),
{
    match &finding.from {
        Some(from) => {
            let mut out = " (from ".to_string();
            out.append(from.task.as_str());
            out.append(" ");
            out.append(from.title.as_str());
            out.append(")");
            out
        },
        None => String::new(),
    }
}

/// The bounded finding previews carried with active work: the latest few, one line each.
pub fn finding_previews(task: &Task) -> (previews: Vec<String>)
    ensures
        texts(previews@) == previews_of(task@),
{
    let total: usize = task.findings.len();
    let skip: usize = if total > FINDING_TAIL {
        total - FINDING_TAIL
    } else {
        0
    };
    let mut previews: Vec<String> = Vec::new();
    let mut i: usize = skip;
    while i < total
        invariant
            skip <= i <= total,
            total == task.findings@.len(),
            previews@.len() == i - skip,
            forall|j: int|
                0 <= j < i - skip ==> (#[trigger] previews@[j])@ == preview_of(
                    task.findings@[j + skip]@,
                ),
        decreases total - i,
    {
        let finding = &task.findings[i];
        let mut line = format_timestamp(finding.at);
        line.append(" · ");
        line.append(one_line(finding.text.as_str(), LINE_LIMIT).as_str());
        line.append(origin_text(finding).as_str());
        previews.push(line);
        i += 1;
    }
    assert(skip == unshown(task@));
    assert(texts(previews@) =~= previews_of(task@));
    previews
}

/// Adds lines, each with a mark before it.
fn add_marked(list: &mut Vec<String>, mark: &str, more: &Vec<String>)
    ensures
        texts(final(list)@) == texts(old(list)@) + marked(mark@, texts(more@)),
{
    let ghost start = texts(list@);
    let ghost extra = marked(mark@, texts(more@));
    let mut i: usize = 0;
    assert(start + extra.take(0) == start);
    while i < more.len()
        invariant
            i <= more@.len(),
            extra == marked(mark@, texts(more@)),
            texts(list@) == start + extra.take(i as int),
        decreases more@.len() - i,
    {
        let mut line = mark.to_string();
        line.append(more[i].as_str());
        let ghost before = list@;
        list.push(line);
        assert(texts(list@) =~= texts(before).push(extra[i as int]));
        assert((start + extra.take(i as int)).push(extra[i as int]) =~= start + extra.take(i + 1));
        i += 1;
    }
    assert(extra.take(extra.len() as int) == extra);
}

/// The findings that go with active work.
pub(crate) fn finding_context(task: &Task) -> (r: String)
    ensures
        r@ == finding_context_of(task@),
{
    let previews = finding_previews(task);
    assert(texts(previews@).len() == previews@.len());
    if previews.len() == 0 {
        return String::new();
    }
    let mut header = "Findings: ".to_string();
    header.append(decimal(previews.len() as u64).as_str());
    header.append(" of ");
    header.append(decimal(task.findings.len() as u64).as_str());
    header.append(" shown (previews). Recall ");
    header.append(task.id.as_str());
    header.append(" for complete context and notes.");
    let mut list: Vec<String> = Vec::new();
    list.push(header);
    assert(texts(list@) =~= seq![header@]);
    add_marked(&mut list, "- ", &previews);
    join(&list, "\n")
}

/// What goes with active work: the body and the findings, shortened.
pub(crate) fn task_context(task: &Task) -> (r: String)
    ensures
        r@ == task_context_of(task@),
{
    let mut body = clamp(task.body.as_str(), BODY_PREVIEW_LENGTH);
    if !same(body.as_str(), task.body.as_str()) {
        let mut note = "\nBody shortened. Recall ".to_string();
        note.append(task.id.as_str());
        note.append(" for complete context.");
        body.append(note.as_str());
    }
    assert(body@ == body_context_of(task@));
    let findings = finding_context(task);
    if body.as_str().is_empty() {
        findings
    } else if findings.as_str().is_empty() {
        body
    } else {
        body.append("\n");
        body.append(findings.as_str());
        body
    }
}

/// A text cut to a number of lines and of characters.
fn bounded_lines(text: &str, max_lines: usize, max_chars: usize) -> (r: Vec<String>)
    ensures
        texts(r@) == bounded_lines_of(text@, max_lines as nat, max_chars as nat),
{
    let source = lines(text);
    let ghost all = texts(source@);
    let count: usize = if source.len() < max_lines {
        source.len()
    } else {
        max_lines
    };
    let mut shown: Vec<String> = Vec::new();
    let mut differs: bool = false;
    let mut i: usize = 0;
    while i < count
        invariant
            i <= count <= source@.len(),
            all == texts(source@),
            shown@.len() == i,
            forall|j: int|
                0 <= j < i ==> (#[trigger] shown@[j])@ == clamped(all[j], LINE_LIMIT as nat),
            differs == exists|j: int| 0 <= j < i && #[trigger] texts(shown@)[j] != all[j],
        decreases count - i,
    {
        let line = clamp(source[i].as_str(), LINE_LIMIT);
        let lost = !same(line.as_str(), source[i].as_str());
        let ghost before = texts(shown@);
        shown.push(line);
        proof {
            assert(texts(shown@) =~= before.push(line@));
            assert(texts(shown@)[i as int] == line@);
            if differs {
                let j = choose|j: int| 0 <= j < i && #[trigger] before[j] != all[j];
                assert(texts(shown@)[j] == before[j]);
            }
            if exists|j: int| 0 <= j < i + 1 && #[trigger] texts(shown@)[j] != all[j] {
                let j = choose|j: int| 0 <= j < i + 1 && #[trigger] texts(shown@)[j] != all[j];
                if j < i {
                    assert(before[j] == texts(shown@)[j]);
                }
            }
        }
        if lost {
            differs = true;
        }
        i += 1;
    }
    assert(texts(shown@) =~= short_lines(all, max_lines as nat));
    assert(all.len() == source@.len());
    let mut output = clamp(join(&shown, "\n").as_str(), max_chars);
    if source.len() > shown.len() || differs {
        output.append("…");
        output = clamp(output.as_str(), max_chars);
    }
    lines(output.as_str())
}

/// The finished row counts as recent when fewer than `tail` others settled later.
fn settled_later(ledger: &Ledger, i: usize) -> (n: usize)
    requires
        i < ledger.tasks@.len(),
    ensures
        n == later_count(ledger.model().tasks, i as int, ledger.model().tasks.len()),
{
    let ghost tasks = ledger.model().tasks;
    let mut n: usize = 0;
    let mut j: usize = 0;
    while j < ledger.tasks.len()
        invariant
            j <= ledger.tasks@.len(),
            i < ledger.tasks@.len(),
            tasks == ledger.model().tasks,
            n == later_count(tasks, i as int, j as nat),
            n <= j,
        decreases ledger.tasks@.len() - j,
    {
        if ledger.tasks[j].terminal() && (ledger.tasks[j].updated > ledger.tasks[i].updated || (
        ledger.tasks[j].updated == ledger.tasks[i].updated && j > i)) {
            n += 1;
        }
        j += 1;
    }
    n
}

/// Everything still open plus the most recently settled few, and how many are left out.
pub fn visible(ledger: &Ledger, tail: usize) -> (r: (Vec<&Task>, usize))
    ensures
        referred(r.0@) == visible_rows(ledger.model().tasks, tail as nat),
        r.1 == hidden_count(ledger.model().tasks, tail as nat),
{
    let ghost tasks = ledger.model().tasks;
    let mut keep: Vec<String> = Vec::new();
    let mut total: usize = 0;
    let ghost ended = |task: TaskModel| terminal(task);
    let mut i: usize = 0;
    assert(tasks.take(0) == Seq::<TaskModel>::empty());
    reveal(Seq::filter);
    assert(texts(keep@) == recent_ids(tasks, tail as nat, 0));
    while i < ledger.tasks.len()
        invariant
            i <= ledger.tasks@.len(),
            tasks == ledger.model().tasks,
            ended == (|task: TaskModel| terminal(task)),
            texts(keep@) == recent_ids(tasks, tail as nat, i as nat),
            total == tasks.take(i as int).filter(ended).len(),
            total <= i,
        decreases ledger.tasks@.len() - i,
    {
        proof {
            filter_step(tasks, ended, i as int);
        }
        let ghost before = keep@;
        if ledger.tasks[i].terminal() {
            total += 1;
            if settled_later(ledger, i) < tail && !holds(&keep, ledger.tasks[i].id.as_str()) {
                keep.push(ledger.tasks[i].id.clone());
                assert(texts(keep@) =~= texts(before).push(tasks[i as int].id));
            }
        }
        i += 1;
    }
    let ghost kept = texts(keep@);
    assert(tasks.take(tasks.len() as int) == tasks);
    let mut rows: Vec<&Task> = Vec::new();
    let ghost shown = |task: TaskModel| !terminal(task) || kept.contains(task.id);
    let mut i: usize = 0;
    while i < ledger.tasks.len()
        invariant
            i <= ledger.tasks@.len(),
            tasks == ledger.model().tasks,
            kept == texts(keep@),
            shown == (|task: TaskModel| !terminal(task) || kept.contains(task.id)),
            referred(rows@) == tasks.take(i as int).filter(shown),
        decreases ledger.tasks@.len() - i,
    {
        proof {
            filter_step(tasks, shown, i as int);
        }
        let ghost before = rows@;
        if !ledger.tasks[i].terminal() || holds(&keep, ledger.tasks[i].id.as_str()) {
            rows.push(&ledger.tasks[i]);
            assert(referred(rows@) =~= referred(before).push(tasks[i as int]));
        }
        i += 1;
    }
    assert(kept.len() == keep@.len());
    let hidden: usize = if total > keep.len() {
        total - keep.len()
    } else {
        0
    };
    (rows, hidden)
}

/// The first line of the overview.
pub open spec fn capacity_line(ledger: LedgerModel) -> Seq<char> {
    if ledger.parallelism == 0 {
        "Task parallelism: off. No capacity limits or completion reminders."@
    } else {
        "Task parallelism: "@ + decimal_of(ledger.parallelism as nat)
            + " independent active outcomes."@
    }
}

/// A line for what is there, or none.
pub open spec fn optional_line(lead: Seq<char>, text: Option<Seq<char>>) -> Seq<Seq<char>> {
    match text {
        Some(text) => seq![lead + text],
        None => Seq::empty(),
    }
}

/// A piece of a line for what is there, or nothing.
pub open spec fn optional_piece(lead: Seq<char>, text: Option<Seq<char>>) -> Seq<char> {
    match text {
        Some(text) => lead + text,
        None => Seq::empty(),
    }
}

/// The lines of an open task: full rows, prose only for what is being worked right now, and a
/// glimpse of what could start.
pub open spec fn open_lines(tasks: Seq<TaskModel>, task: TaskModel) -> Seq<Seq<char>> {
    let view = viewed(tasks, task);
    let row = glyph_of(view.state) + " "@ + task.id + " "@ + task.title + optional_piece(
        " @"@,
        task.owner,
    ) + optional_piece(" — "@, view.note);
    seq![row] + marked(
        "    "@,
        if view.state == View::Active {
            lines_of(task_context_of(task))
        } else if view.state == View::Ready && task.body.len() > 0 {
            bounded_lines_of(task.body, 2, 240)
        } else {
            Seq::empty()
        },
    )
}

/// The lines of the first `n` open tasks.
pub open spec fn all_open_lines(tasks: Seq<TaskModel>, list: Seq<TaskModel>, n: nat) -> Seq<
    Seq<char>,
>
    decreases n,
{
    if n == 0 {
        Seq::empty()
    } else {
        all_open_lines(tasks, list, (n - 1) as nat) + open_lines(tasks, list[n - 1])
    }
}

/// A heading with a count, where there is anything to count.
pub open spec fn heading(word: Seq<char>, count: nat) -> Seq<Seq<char>> {
    if count == 0 {
        Seq::empty()
    } else {
        seq![word + " ("@ + decimal_of(count) + ")"@]
    }
}

/// The row of a finished task.
pub open spec fn recent_line(tasks: Seq<TaskModel>, task: TaskModel) -> Seq<char> {
    task.id + " ["@ + label_of(state_of(tasks, task)) + "] "@ + task.title
}

/// The rows of finished tasks.
pub open spec fn recent_lines(tasks: Seq<TaskModel>, list: Seq<TaskModel>) -> Seq<Seq<char>> {
    Seq::new(list.len(), |i: int| recent_line(tasks, list[i]))
}

/// Some task of the list is delegated to this worker.
pub open spec fn owns_any(list: Seq<TaskModel>, owner: Seq<char>) -> bool {
    exists|i: int| 0 <= i < list.len() && (#[trigger] list[i]).owner == Some(owner)
}

/// What a worker is doing.
pub open spec fn worker_state(execution: ExecutionModel) -> Seq<char> {
    if execution.running {
        "running"@
    } else {
        match execution.outcome {
            Some(outcome) => outcome,
            None => "settled"@,
        }
    }
}

/// The workers among the first `n` that still run or whose open work waits to be accepted.
pub open spec fn worker_notes(
    executions: Seq<(Seq<char>, ExecutionModel)>,
    list: Seq<TaskModel>,
    n: nat,
) -> Seq<Seq<char>>
    decreases n,
{
    if n == 0 {
        Seq::empty()
    } else {
        let before = worker_notes(executions, list, (n - 1) as nat);
        let (owner, execution) = executions[n - 1];
        if execution.running || owns_any(list, owner) {
            before.push(owner + " "@ + worker_state(execution))
        } else {
            before
        }
    }
}

/// The line of the workers, where there is any to name.
pub open spec fn worker_line(ledger: LedgerModel, list: Seq<TaskModel>) -> Seq<Seq<char>> {
    let notes = worker_notes(ledger.executions, list, ledger.executions.len());
    if notes.len() == 0 {
        Seq::empty()
    } else {
        seq!["Workers: "@ + joined(notes, " · "@)]
    }
}

/// The open tasks that the overview shows, in the order in which they are worth reading.
pub open spec fn overview_open(tasks: Seq<TaskModel>) -> Seq<TaskModel> {
    arranged(tasks, open_tasks(visible_rows(tasks, TERMINAL_TAIL as nat)))
}

/// The lines of the overview before its summary.
pub open spec fn overview_lines(ledger: LedgerModel) -> Seq<Seq<char>> {
    let tasks = ledger.tasks;
    let list = overview_open(tasks);
    let recent = finished(visible_rows(tasks, TERMINAL_TAIL as nat));
    seq![capacity_line(ledger)] + optional_line("Paused: "@, ledger.pause) + heading(
        "Open"@,
        list.len(),
    ) + all_open_lines(tasks, list, list.len()) + heading("Recent"@, recent.len()) + recent_lines(
        tasks,
        recent,
    ) + worker_line(ledger, list)
}

/// The longest beginning of a text that takes at most this many bytes.
pub open spec fn fitting(s: Seq<char>, limit: int) -> Seq<char>
    decreases s.len(),
{
    if s.len() == 0 || bytes_of(s) <= limit {
        s
    } else {
        fitting(s.drop_last(), limit)
    }
}

/// What comes before the last newline, where there is one.
pub open spec fn whole_lines(s: Seq<char>) -> Option<Seq<char>>
    decreases s.len(),
{
    if s.len() == 0 {
        None
    } else if s.last() == '\n' {
        Some(s.drop_last())
    } else {
        whole_lines(s.drop_last())
    }
}

/// The beginning of a text, in whole lines where it has any, that takes at most this many bytes.
pub open spec fn cut_at_line(s: Seq<char>, limit: int) -> Seq<char> {
    let cut = fitting(s, limit);
    match whole_lines(cut) {
        Some(whole) => whole,
        None => cut,
    }
}

/// The end of an overview that is too long.
pub open spec fn shortened_note(summary: Seq<char>) -> Seq<char> {
    "\nOverview shortened. Read the ledger file to locate omitted tasks; recall named tasks for complete notes.\n"@
        + summary
}

/// The overview: full rows for open work, prose only for what is being worked right now, findings
/// as bounded previews with a recall pointer, and terminal rows collapsed to a tail.
pub open spec fn rendered_of(ledger: LedgerModel) -> Seq<char> {
    let body = joined(overview_lines(ledger), "\n"@);
    let summary = summary_of(ledger);
    let note = shortened_note(summary);
    if bytes_of(body) + bytes_of(summary) + 1 > CONTEXT_BYTES {
        cut_at_line(body, CONTEXT_BYTES - bytes_of(note)) + note
    } else {
        body + "\n"@ + summary
    }
}

/// Ten to a power.
spec fn pow10(k: nat) -> nat
    decreases k,
{
    if k == 0 {
        1
    } else {
        10 * pow10((k - 1) as nat)
    }
}

/// A number below ten to a power has at most that many digits.
proof fn decimal_short(n: nat, k: nat)
    requires
        k >= 1,
        n < pow10(k),
    ensures
        decimal_of(n).len() <= k,
    decreases k,
{
    if n >= 10 {
        reveal_with_fuel(pow10, 2);
        assert(n / 10 < pow10((k - 1) as nat));
        decimal_short(n / 10, (k - 1) as nat);
    }
}

/// A number below 2^64 has at most twenty digits.
pub proof fn decimal_twenty(n: nat)
    requires
        n <= u64::MAX,
    ensures
        decimal_of(n).len() <= 20,
{
    assert(pow10(20) == 100_000_000_000_000_000_000) by {
        reveal_with_fuel(pow10, 21);
    }
    decimal_short(n, 20);
}

/// A character takes at most four bytes.
pub proof fn bytes_at_most(s: Seq<char>)
    ensures
        bytes_of(s) <= 4 * s.len(),
    decreases s.len(),
{
    if s.len() > 0 {
        bytes_at_most(s.drop_last());
    }
}

/// Parts that are short make a whole that is short.
proof fn joined_short(parts: Seq<Seq<char>>, separator: Seq<char>, most: nat)
    requires
        separator.len() <= most,
        forall|i: int| 0 <= i < parts.len() ==> (#[trigger] parts[i]).len() <= most,
    ensures
        joined(parts, separator).len() <= 2 * most * parts.len(),
    decreases parts.len(),
{
    if parts.len() > 1 {
        joined_short(parts.drop_last(), separator, most);
        assert(2 * most * parts.len() == 2 * most * (parts.len() - 1) + 2 * most)
            by (nonlinear_arith);
        assert(parts.drop_last().len() == parts.len() - 1);
    } else if parts.len() == 1 {
        assert(2 * most * parts.len() >= most) by (nonlinear_arith)
            requires
                parts.len() == 1,
        ;
    }
}

/// The summary is short, whatever it counts.
pub proof fn summary_short(ledger: LedgerModel)
    requires
        ledger.tasks.len() <= u64::MAX,
    ensures
        summary_of(ledger).len() <= 600,
{
    let parts = summary_parts(ledger);
    reveal_strlit(" active");
    reveal_strlit(" of ");
    reveal_strlit(" slots free");
    reveal_strlit(" ready");
    reveal_strlit(" blocked");
    reveal_strlit(" done");
    reveal_strlit(" · ");
    counted_bounded(ledger, View::Active);
    counted_bounded(ledger, View::Ready);
    counted_bounded(ledger, View::Blocked);
    counted_bounded(ledger, View::Done);
    decimal_twenty(counted(ledger, View::Active));
    decimal_twenty(counted(ledger, View::Ready));
    decimal_twenty(counted(ledger, View::Blocked));
    decimal_twenty(counted(ledger, View::Done));
    decimal_twenty(ledger.parallelism as nat);
    decimal_twenty(crate::ledger::query::free_slots(ledger));
    assert(parts.len() <= 5);
    assert forall|i: int| 0 <= i < parts.len() implies (#[trigger] parts[i]).len() <= 60 by {}
    joined_short(parts, " · "@, 60);
    assert(2 * 60 * parts.len() <= 600) by (nonlinear_arith)
        requires
            parts.len() <= 5,
    ;
}

/// A state has at most as many tasks as there are.
proof fn counted_bounded(ledger: LedgerModel, state: View)
    ensures
        counted(ledger, state) <= ledger.tasks.len(),
{
    ledger.tasks.lemma_filter_len(
        |task: TaskModel| state_of(ledger.tasks, task) == state,
    );
}

/// The note at the end of a shortened overview fits in it.
pub proof fn note_fits(ledger: LedgerModel)
    requires
        ledger.tasks.len() <= u64::MAX,
    ensures
        bytes_of(shortened_note(summary_of(ledger))) <= 4_000,
        bytes_of(summary_of(ledger)) + 1 < bytes_of(shortened_note(summary_of(ledger))),
{
    let summary = summary_of(ledger);
    let lead =
        "\nOverview shortened. Read the ledger file to locate omitted tasks; recall named tasks for complete notes.\n"@;
    reveal_strlit(
        "\nOverview shortened. Read the ledger file to locate omitted tasks; recall named tasks for complete notes.\n",
    );
    summary_short(ledger);
    bytes_at_most(summary);
    bytes_at_most(lead);
    bytes_at_least(lead);
    bytes_concat(lead, summary);
}

/// A character takes at least one byte.
proof fn bytes_at_least(s: Seq<char>)
    ensures
        bytes_of(s) >= s.len(),
    decreases s.len(),
{
    if s.len() > 0 {
        bytes_at_least(s.drop_last());
    }
}

/// A beginning that fits takes at most the bytes it may.
proof fn fitting_fits(s: Seq<char>, limit: int)
    requires
        limit >= 0,
    ensures
        bytes_of(fitting(s, limit)) <= limit,
    decreases s.len(),
{
    if s.len() > 0 && bytes_of(s) > limit {
        fitting_fits(s.drop_last(), limit);
    }
}

/// Whole lines take no more bytes than the text they come from.
proof fn whole_lines_fit(s: Seq<char>)
    ensures
        whole_lines(s) is Some ==> bytes_of(whole_lines(s)->0) <= bytes_of(s),
    decreases s.len(),
{
    if s.len() > 0 {
        whole_lines_fit(s.drop_last());
    }
}

/// The overview never takes more than its share of bytes, whatever the ledger holds.
pub proof fn overview_bounded(ledger: LedgerModel)
    requires
        ledger.tasks.len() <= u64::MAX,
    ensures
        bytes_of(rendered_of(ledger)) <= CONTEXT_BYTES,
{
    let body = joined(overview_lines(ledger), "\n"@);
    let summary = summary_of(ledger);
    let note = shortened_note(summary);
    note_fits(ledger);
    if bytes_of(body) + bytes_of(summary) + 1 > CONTEXT_BYTES {
        let limit = CONTEXT_BYTES - bytes_of(note);
        fitting_fits(body, limit);
        whole_lines_fit(fitting(body, limit));
        bytes_concat(cut_at_line(body, limit), note);
    } else {
        reveal_strlit("\n");
        assert("\n"@ == seq!['\n']);
        bytes_concat(body + "\n"@, summary);
        bytes_concat(body, "\n"@);
        reveal_with_fuel(bytes_of, 2);
        assert("\n"@.drop_last() == Seq::<char>::empty());
        assert(bytes_of("\n"@) == 1);
    }
}

/// Adds a line for what is there.
fn add_optional(list: &mut Vec<String>, lead: &str, text: &Option<String>)
    ensures
        texts(final(list)@) == texts(old(list)@) + optional_line(lead@, maybe(*text)),
{
    let ghost start = list@;
    if let Some(text) = text {
        let mut line = lead.to_string();
        line.append(text.as_str());
        list.push(line);
        assert(texts(list@) =~= texts(start) + seq![line@]);
    } else {
        assert(texts(start) + Seq::<Seq<char>>::empty() =~= texts(start));
    }
}

/// Adds a piece of a line for what is there.
fn append_optional(line: &mut String, lead: &str, text: &Option<String>)
    ensures
        final(line)@ == old(line)@ + optional_piece(lead@, maybe(*text)),
{
    let ghost start = line@;
    if let Some(text) = text {
        let mut piece = lead.to_string();
        piece.append(text.as_str());
        line.append(piece.as_str());
    } else {
        assert(start + Seq::<char>::empty() == start);
    }
}

/// Adds a heading with a count, where there is anything to count.
fn add_heading(list: &mut Vec<String>, word: &str, count: usize)
    ensures
        texts(final(list)@) == texts(old(list)@) + heading(word@, count as nat),
{
    let ghost start = list@;
    if count > 0 {
        let mut line = word.to_string();
        line.append(" (");
        line.append(decimal(count as u64).as_str());
        line.append(")");
        list.push(line);
        assert(texts(list@) =~= texts(start) + seq![line@]);
    } else {
        assert(texts(start) + Seq::<Seq<char>>::empty() =~= texts(start));
    }
}

/// Adds the lines of an open task.
fn add_open(list: &mut Vec<String>, ledger: &Ledger, task: &Task)
    ensures
        texts(final(list)@) == texts(old(list)@) + open_lines(ledger.model().tasks, task@),
{
    let ghost start = texts(list@);
    let view = ledger.view(task);
    let mut row = view.state.glyph().to_string();
    row.append(" ");
    row.append(task.id.as_str());
    row.append(" ");
    row.append(task.title.as_str());
    append_optional(&mut row, " @", &task.owner);
    append_optional(&mut row, " — ", &view.note);
    let ghost held = list@;
    list.push(row);
    assert(texts(list@) =~= start + seq![row@]);
    let more: Vec<String> = if view.state == View::Active {
        lines(task_context(task).as_str())
    } else if view.state == View::Ready && !task.body.as_str().is_empty() {
        bounded_lines(task.body.as_str(), 2, 240)
    } else {
        let none: Vec<String> = Vec::new();
        assert(texts(none@) =~= Seq::<Seq<char>>::empty());
        none
    };
    let ghost extra = marked("    "@, texts(more@));
    add_marked(list, "    ", &more);
    assert((start + seq![row@]) + extra =~= start + (seq![row@] + extra));
}

/// The tasks of a list that are finished, or that are not.
fn pick<'a>(rows: &Vec<&'a Task>, ended: bool) -> (r: Vec<&'a Task>)
    ensures
        ended ==> referred(r@) == finished(referred(rows@)),
        !ended ==> referred(r@) == open_tasks(referred(rows@)),
{
    let ghost all = referred(rows@);
    let ghost keep = if ended {
        |task: TaskModel| terminal(task)
    } else {
        |task: TaskModel| !terminal(task)
    };
    let mut r: Vec<&'a Task> = Vec::new();
    let mut i: usize = 0;
    assert(all.take(0) == Seq::<TaskModel>::empty());
    reveal(Seq::filter);
    while i < rows.len()
        invariant
            i <= rows@.len(),
            all == referred(rows@),
            forall|task: TaskModel| #[trigger] keep(task) == (terminal(task) == ended),
            referred(r@) == all.take(i as int).filter(keep),
        decreases rows@.len() - i,
    {
        proof {
            filter_step(all, keep, i as int);
        }
        let ghost before = r@;
        if rows[i].terminal() == ended {
            r.push(rows[i]);
            assert(referred(r@) =~= referred(before).push(all[i as int]));
        }
        i += 1;
    }
    assert(all.take(all.len() as int) == all);
    r
}

/// Adds the rows of finished tasks.
fn add_recent(list: &mut Vec<String>, ledger: &Ledger, rows: &Vec<&Task>)
    ensures
        texts(final(list)@) == texts(old(list)@) + recent_lines(
            ledger.model().tasks,
            referred(rows@),
        ),
{
    let ghost start = texts(list@);
    let ghost extra = recent_lines(ledger.model().tasks, referred(rows@));
    let mut i: usize = 0;
    assert(start + extra.take(0) =~= start);
    while i < rows.len()
        invariant
            i <= rows@.len(),
            extra == recent_lines(ledger.model().tasks, referred(rows@)),
            texts(list@) == start + extra.take(i as int),
        decreases rows@.len() - i,
    {
        let mut line = rows[i].id.clone();
        line.append(" [");
        line.append(ledger.view(rows[i]).state.label());
        line.append("] ");
        line.append(rows[i].title.as_str());
        let ghost before = list@;
        list.push(line);
        assert(texts(list@) =~= texts(before).push(extra[i as int]));
        assert((start + extra.take(i as int)).push(extra[i as int]) =~= start + extra.take(i + 1));
        i += 1;
    }
    assert(extra.take(extra.len() as int) == extra);
}

/// Whether some task of the list is delegated to this worker.
fn owned_by(list: &Vec<&Task>, owner: &str) -> (r: bool)
    ensures
        r == owns_any(referred(list@), owner@),
{
    let ghost all = referred(list@);
    let mut i: usize = 0;
    while i < list.len()
        invariant
            i <= list@.len(),
            all == referred(list@),
            forall|j: int| 0 <= j < i ==> (#[trigger] all[j]).owner != Some(owner@),
        decreases list@.len() - i,
    {
        assert(all[i as int] == list@[i as int]@);
        if let Some(held) = &list[i].owner {
            if same(held.as_str(), owner) {
                return true;
            }
        }
        i += 1;
    }
    false
}

/// Adds the line of the workers, where there is any to name.
fn add_workers(list: &mut Vec<String>, ledger: &Ledger, open: &Vec<&Task>)
    ensures
        texts(final(list)@) == texts(old(list)@) + worker_line(ledger.model(), referred(open@)),
{
    let ghost start = texts(list@);
    let ghost executions = ledger.model().executions;
    let mut notes: Vec<String> = Vec::new();
    let count: usize = ledger.executions.len();
    let mut i: usize = 0;
    assert(texts(notes@) =~= worker_notes(executions, referred(open@), 0));
    while i < count
        invariant
            i <= count,
            count == ledger.executions@.len(),
            executions == ledger.executions@,
            texts(notes@) == worker_notes(executions, referred(open@), i as nat),
        decreases count - i,
    {
        let owner = ledger.executions.key(i);
        let execution = ledger.executions.value(i);
        if execution.running || owned_by(open, owner.as_str()) {
            let mut note = owner.clone();
            note.append(" ");
            if execution.running {
                note.append("running");
            } else {
                match &execution.outcome {
                    Some(outcome) => {
                        note.append(outcome.as_str());
                    },
                    None => {
                        note.append("settled");
                    },
                }
            }
            let ghost before = notes@;
            notes.push(note);
            assert(texts(notes@) =~= texts(before).push(note@));
        }
        i += 1;
    }
    assert(texts(notes@).len() == notes@.len());
    let ghost held = list@;
    if notes.len() > 0 {
        let mut line = "Workers: ".to_string();
        line.append(join(&notes, " · ").as_str());
        list.push(line);
        assert(texts(list@) =~= start + seq![line@]);
    } else {
        assert(start + Seq::<Seq<char>>::empty() =~= start);
    }
}

/// The beginning of a text, in whole lines where it has any, that takes at most this many bytes.
fn cut_lines(text: &str, limit: usize) -> (r: String)
    ensures
        r@ == cut_at_line(text@, limit as int),
{
    let chars = chars_of(text);
    let mut size: usize = byte_count(text);
    let mut end: usize = chars.len();
    assert(chars@.take(end as int) == text@);
    while end > 0 && size > limit
        invariant
            end <= chars@.len(),
            chars@ == text@,
            size == bytes_of(chars@.take(end as int)),
            fitting(text@, limit as int) == fitting(chars@.take(end as int), limit as int),
        decreases end,
    {
        assert(chars@.take(end as int).drop_last() == chars@.take(end - 1));
        size -= char_size(chars[end - 1]);
        end -= 1;
    }
    let ghost cut = chars@.take(end as int);
    assert(cut == fitting(text@, limit as int));
    let mut last: usize = end;
    while last > 0 && chars[last - 1] != '\n'
        invariant
            last <= end <= chars@.len(),
            cut == chars@.take(end as int),
            whole_lines(cut) == whole_lines(chars@.take(last as int)),
        decreases last,
    {
        assert(chars@.take(last as int).drop_last() == chars@.take(last - 1));
        last -= 1;
    }
    if last > 0 {
        assert(chars@.take(last as int).drop_last() == chars@.take(last - 1));
        let r = text_of(&chars, 0, last - 1);
        assert(r@ == chars@.take(last - 1));
        r
    } else {
        let r = text_of(&chars, 0, end);
        assert(r@ == cut);
        r
    }
}

/// The number of bytes a character takes in UTF-8.
fn char_size(c: char) -> (n: usize)
    ensures
        n == char_bytes(c),
{
    let code: u32 = c as u32;
    if code < 0x80 {
        1
    } else if code < 0x800 {
        2
    } else if code < 0x10000 {
        3
    } else {
        4
    }
}

/// The bounded overview of a ledger.
pub fn render(ledger: &Ledger) -> (r: String)
    ensures
        r@ == rendered_of(ledger.model()),
        bytes_of(r@) <= CONTEXT_BYTES,
{
    let ghost model = ledger.model();
    let mut list: Vec<String> = Vec::new();
    if ledger.parallelism == 0 {
        list.push("Task parallelism: off. No capacity limits or completion reminders.".to_string());
    } else {
        let mut line = "Task parallelism: ".to_string();
        line.append(decimal(ledger.parallelism as u64).as_str());
        line.append(" independent active outcomes.");
        list.push(line);
    }
    assert(texts(list@) =~= seq![capacity_line(model)]);
    add_optional(&mut list, "Paused: ", &ledger.pause);
    let (rows, _) = visible(ledger, TERMINAL_TAIL);
    let open_rows = pick(&rows, false);
    let open = ledger.arrange(open_rows.as_slice());
    let ghost shown = referred(open@);
    assert(shown == overview_open(model.tasks));
    assert(shown.len() == open@.len());
    add_heading(&mut list, "Open", open.len());
    let ghost start = texts(list@);
    assert(start + all_open_lines(model.tasks, shown, 0) =~= start);
    let mut i: usize = 0;
    while i < open.len()
        invariant
            i <= open@.len(),
            model == ledger.model(),
            shown == referred(open@),
            texts(list@) == start + all_open_lines(model.tasks, shown, i as nat),
        decreases open@.len() - i,
    {
        add_open(&mut list, ledger, open[i]);
        assert(start + all_open_lines(model.tasks, shown, i as nat) + open_lines(
            model.tasks,
            shown[i as int],
        ) =~= start + all_open_lines(model.tasks, shown, (i + 1) as nat));
        i += 1;
    }
    let recent = pick(&rows, true);
    assert(referred(recent@).len() == recent@.len());
    add_heading(&mut list, "Recent", recent.len());
    add_recent(&mut list, ledger, &recent);
    add_workers(&mut list, ledger, &open);
    assert(texts(list@) == overview_lines(model));
    let summary = ledger.summary();
    let mut body = join(&list, "\n");
    let mut note =
        "\nOverview shortened. Read the ledger file to locate omitted tasks; recall named tasks for complete notes.\n".to_string();
    note.append(summary.as_str());
    let count: usize = ledger.tasks.len();
    proof {
        note_fits(model);
        overview_bounded(model);
    }
    if byte_count(body.as_str()) > CONTEXT_BYTES - 1 - byte_count(summary.as_str()) {
        let mut cut = cut_lines(body.as_str(), CONTEXT_BYTES - byte_count(note.as_str()));
        cut.append(note.as_str());
        cut
    } else {
        body.append("\n");
        body.append(summary.as_str());
        body
    }
}

/// A finding in full.
pub open spec fn full_finding(finding: FindingModel) -> Seq<char> {
    "- "@ + stamp_of(finding.at as int) + " ·"@ + origin_note(finding) + " "@ + finding.text
}

/// Findings in full.
pub open spec fn full_findings(findings: Seq<FindingModel>) -> Seq<Seq<char>> {
    Seq::new(findings.len(), |i: int| full_finding(findings[i]))
}

/// A line of what is joined, where there is anything.
pub open spec fn joined_line(
    lead: Seq<char>,
    parts: Seq<Seq<char>>,
    separator: Seq<char>,
) -> Seq<Seq<char>> {
    if parts.len() > 0 {
        seq![lead + joined(parts, separator)]
    } else {
        Seq::empty()
    }
}

/// The complete detail of a task, in parts.
pub open spec fn recall_parts(
    tasks: Seq<TaskModel>,
    task: TaskModel,
    prefix: Seq<char>,
) -> Seq<Seq<char>> {
    seq![
        "# "@ + prefix + task.id + " "@ + task.title,
        "State: ["@ + label_of(state_of(tasks, task)) + "]"@,
    ] + optional_line("Owner: "@, task.owner) + joined_line(
        "Prerequisites: "@,
        marked("#"@, task.after),
        ", "@,
    ) + optional_line("Waiting: "@, task.waiting) + optional_line("Cancelled by: "@, task.cancelled)
        + if task.body.len() > 0 {
        seq!["Context:\n"@ + task.body]
    } else {
        Seq::empty()
    } + joined_line("Findings:\n"@, full_findings(task.findings), "\n"@)
}

/// The complete detail of a task, the answer to a recall.
pub open spec fn recall_of(
    tasks: Seq<TaskModel>,
    task: TaskModel,
    prefix: Seq<char>,
) -> Seq<char> {
    joined(recall_parts(tasks, task, prefix), "\n"@)
}

/// Adds a line of what is joined, where there is anything.
fn add_joined(list: &mut Vec<String>, lead: &str, parts: &Vec<String>, separator: &str)
    ensures
        texts(final(list)@) == texts(old(list)@) + joined_line(
            lead@,
            texts(parts@),
            separator@,
        ),
{
    let ghost start = list@;
    assert(texts(parts@).len() == parts@.len());
    if parts.len() > 0 {
        let mut line = lead.to_string();
        line.append(join(parts, separator).as_str());
        list.push(line);
        assert(texts(list@) =~= texts(start) + seq![line@]);
    } else {
        assert(texts(start) + Seq::<Seq<char>>::empty() =~= texts(start));
    }
}

/// Complete detail for one task, the answer to a recall.
pub fn render_recall(ledger: &Ledger, task: &Task, prefix: &str) -> (r: String)
    ensures
        r@ == recall_of(ledger.model().tasks, task@, prefix@),
{
    let mut list: Vec<String> = Vec::new();
    let mut head = "# ".to_string();
    head.append(prefix);
    head.append(task.id.as_str());
    head.append(" ");
    head.append(task.title.as_str());
    let mut state = "State: [".to_string();
    state.append(ledger.view(task).state.label());
    state.append("]");
    list.push(head);
    list.push(state);
    assert(texts(list@) =~= seq![head@, state@]);
    add_optional(&mut list, "Owner: ", &task.owner);
    let mut after: Vec<String> = Vec::new();
    assert(texts(after@) + marked("#"@, texts(task.after@)) =~= marked("#"@, texts(task.after@)));
    add_marked(&mut after, "#", &task.after);
    add_joined(&mut list, "Prerequisites: ", &after, ", ");
    add_optional(&mut list, "Waiting: ", &task.waiting);
    add_optional(&mut list, "Cancelled by: ", &task.cancelled);
    let ghost start = texts(list@);
    if !task.body.as_str().is_empty() {
        let mut body = "Context:\n".to_string();
        body.append(task.body.as_str());
        list.push(body);
        assert(texts(list@) =~= start + seq![body@]);
    } else {
        assert(start + Seq::<Seq<char>>::empty() =~= start);
    }
    let mut findings: Vec<String> = Vec::new();
    let mut i: usize = 0;
    while i < task.findings.len()
        invariant
            i <= task.findings@.len(),
            findings@.len() == i,
            forall|j: int|
                0 <= j < i ==> (#[trigger] findings@[j])@ == full_finding(task.findings@[j]@),
        decreases task.findings@.len() - i,
    {
        let finding = &task.findings[i];
        let mut line = "- ".to_string();
        line.append(format_timestamp(finding.at).as_str());
        line.append(" ·");
        line.append(origin_text(finding).as_str());
        line.append(" ");
        line.append(finding.text.as_str());
        findings.push(line);
        i += 1;
    }
    assert(texts(findings@) =~= full_findings(task@.findings));
    add_joined(&mut list, "Findings:\n", &findings, "\n");
    join(&list, "\n")
}

/// Lists one after the other tell what any of them tells.
proof fn some_tells(
    a: Seq<Seq<char>>,
    b: Seq<Seq<char>>,
    c: Seq<Seq<char>>,
    d: Seq<Seq<char>>,
    e: Seq<Seq<char>>,
    f: Seq<Seq<char>>,
    g: Seq<Seq<char>>,
    part: Seq<char>,
)
    requires
        tells(a, part) || tells(b, part) || tells(c, part) || tells(d, part) || tells(e, part)
            || tells(f, part) || tells(g, part),
    ensures
        tells(a + b + c + d + e + f + g, part),
{
    if tells(a, part) || tells(b, part) {
        both_tell(a, b, part);
    }
    if tells(a + b, part) || tells(c, part) {
        both_tell(a + b, c, part);
    }
    if tells(a + b + c, part) || tells(d, part) {
        both_tell(a + b + c, d, part);
    }
    if tells(a + b + c + d, part) || tells(e, part) {
        both_tell(a + b + c + d, e, part);
    }
    if tells(a + b + c + d + e, part) || tells(f, part) {
        both_tell(a + b + c + d + e, f, part);
    }
    both_tell(a + b + c + d + e + f, g, part);
}

/// The first lines of a recall.
spec fn recall_lead(tasks: Seq<TaskModel>, task: TaskModel, prefix: Seq<char>) -> Seq<Seq<char>> {
    seq![
        "# "@ + prefix + task.id + " "@ + task.title,
        "State: ["@ + label_of(state_of(tasks, task)) + "]"@,
    ]
}

/// The line of a recall with the body.
spec fn recall_body(task: TaskModel) -> Seq<Seq<char>> {
    if task.body.len() > 0 {
        seq!["Context:\n"@ + task.body]
    } else {
        Seq::empty()
    }
}

/// What a group of lines of a recall tells, the recall mentions.
proof fn recall_tells(tasks: Seq<TaskModel>, task: TaskModel, prefix: Seq<char>, part: Seq<char>)
    requires
        tells(recall_lead(tasks, task, prefix), part) || tells(
            optional_line("Owner: "@, task.owner),
            part,
        ) || tells(joined_line("Prerequisites: "@, marked("#"@, task.after), ", "@), part) || tells(
            optional_line("Waiting: "@, task.waiting),
            part,
        ) || tells(optional_line("Cancelled by: "@, task.cancelled), part) || tells(
            recall_body(task),
            part,
        ) || tells(joined_line("Findings:\n"@, full_findings(task.findings), "\n"@), part),
    ensures
        mentions(recall_of(tasks, task, prefix), part),
{
    some_tells(
        recall_lead(tasks, task, prefix),
        optional_line("Owner: "@, task.owner),
        joined_line("Prerequisites: "@, marked("#"@, task.after), ", "@),
        optional_line("Waiting: "@, task.waiting),
        optional_line("Cancelled by: "@, task.cancelled),
        recall_body(task),
        joined_line("Findings:\n"@, full_findings(task.findings), "\n"@),
        part,
    );
    joined_lines_tell(recall_parts(tasks, task, prefix), "\n"@, part);
}

/// A line for what is there tells it.
proof fn optional_line_tells(lead: Seq<char>, text: Seq<char>)
    ensures
        tells(optional_line(lead, Some(text)), text),
{
    mentions_itself(text);
    mentioned_after(lead, text, text);
    line_tells(lead + text, text);
}

/// A line of what is joined tells what each part mentions.
proof fn joined_line_tells(
    lead: Seq<char>,
    parts: Seq<Seq<char>>,
    separator: Seq<char>,
    k: int,
    part: Seq<char>,
)
    requires
        0 <= k < parts.len(),
        mentions(parts[k], part),
    ensures
        tells(joined_line(lead, parts, separator), part),
{
    let text = joined(parts, separator);
    joined_mentions(parts, separator, k);
    mentioned_by_way_of(text, parts[k], part);
    mentioned_after(lead, text, part);
    line_tells(lead + text, part);
}

/// A row with a mark before it mentions itself.
proof fn marked_mentions(a: Seq<char>, b: Seq<char>, c: Seq<char>, d: Seq<char>, e: Seq<char>)
    ensures
        mentions(a + b + c + d + e, b + c + d + e),
{
    let text = b + c + d + e;
    mentions_itself(text);
    mentioned_after(a, text, text);
    regrouped_mark(a, b, c, d, e);
}

/// A mark may be grouped with what comes after it.
proof fn regrouped_mark(a: Seq<char>, b: Seq<char>, c: Seq<char>, d: Seq<char>, e: Seq<char>)
    ensures
        a + b + c + d + e == a + (b + c + d + e),
{
    assert(a + b + c + d + e =~= a + (b + c + d + e));
}

/// A finding in full tells its text and when it was made.
proof fn finding_is_told(finding: FindingModel)
    ensures
        mentions(full_finding(finding), finding.text),
        mentions(full_finding(finding), stamp_of(finding.at as int)),
{
    let stamp = stamp_of(finding.at as int);
    let a = "- "@ + stamp;
    let b = a + " ·"@;
    let c = b + origin_note(finding);
    let d = c + " "@;
    mentions_itself(finding.text);
    mentioned_after(d, finding.text, finding.text);
    mentions_itself(stamp);
    mentioned_after("- "@, stamp, stamp);
    mentioned_before(a, " ·"@, stamp);
    mentioned_before(b, origin_note(finding), stamp);
    mentioned_before(c, " "@, stamp);
    mentioned_before(d, finding.text, stamp);
}

/// A recall of a task holds its id and title, its state, owner, wait and reason, and its complete body.
pub proof fn recalls_hold_the_task(tasks: Seq<TaskModel>, task: TaskModel, prefix: Seq<char>)
    ensures
        mentions(recall_of(tasks, task, prefix), prefix + task.id + " "@ + task.title),
        mentions(
            recall_of(tasks, task, prefix),
            "State: ["@ + label_of(state_of(tasks, task)) + "]"@,
        ),
        task.body.len() > 0 ==> mentions(recall_of(tasks, task, prefix), task.body),
        task.owner matches Some(owner) ==> mentions(recall_of(tasks, task, prefix), owner),
        task.waiting matches Some(text) ==> mentions(recall_of(tasks, task, prefix), text),
        task.cancelled matches Some(text) ==> mentions(recall_of(tasks, task, prefix), text),
{
    let lead = recall_lead(tasks, task, prefix);
    let name = prefix + task.id + " "@ + task.title;
    marked_mentions("# "@, prefix, task.id, " "@, task.title);
    listed_line_tells(lead, 0, name);
    recall_tells(tasks, task, prefix, name);
    let state = "State: ["@ + label_of(state_of(tasks, task)) + "]"@;
    mentions_itself(state);
    listed_line_tells(lead, 1, state);
    recall_tells(tasks, task, prefix, state);
    if let Some(owner) = task.owner {
        optional_line_tells("Owner: "@, owner);
        recall_tells(tasks, task, prefix, owner);
    }
    if let Some(text) = task.waiting {
        optional_line_tells("Waiting: "@, text);
        recall_tells(tasks, task, prefix, text);
    }
    if let Some(text) = task.cancelled {
        optional_line_tells("Cancelled by: "@, text);
        recall_tells(tasks, task, prefix, text);
    }
    if task.body.len() > 0 {
        mentions_itself(task.body);
        mentioned_after("Context:\n"@, task.body, task.body);
        line_tells("Context:\n"@ + task.body, task.body);
        recall_tells(tasks, task, prefix, task.body);
    }
}

/// A recall of a task names every prerequisite, and holds the complete text of every finding and when
/// it was made.
pub proof fn recalls_hold_notes_in_full(
    tasks: Seq<TaskModel>,
    task: TaskModel,
    prefix: Seq<char>,
    k: int,
    f: int,
)
    ensures
        0 <= k < task.after.len() ==> mentions(
            recall_of(tasks, task, prefix),
            "#"@ + task.after[k],
        ),
        0 <= f < task.findings.len() ==> mentions(
            recall_of(tasks, task, prefix),
            task.findings[f].text,
        ) && mentions(recall_of(tasks, task, prefix), stamp_of(task.findings[f].at as int)),
{
    if 0 <= k < task.after.len() {
        let marks = marked("#"@, task.after);
        let mark = "#"@ + task.after[k];
        mentions_itself(mark);
        joined_line_tells("Prerequisites: "@, marks, ", "@, k, mark);
        recall_tells(tasks, task, prefix, mark);
    }
    if 0 <= f < task.findings.len() {
        let all = full_findings(task.findings);
        let finding = task.findings[f];
        finding_is_told(finding);
        joined_line_tells("Findings:\n"@, all, "\n"@, f, finding.text);
        recall_tells(tasks, task, prefix, finding.text);
        let stamp = stamp_of(finding.at as int);
        joined_line_tells("Findings:\n"@, all, "\n"@, f, stamp);
        recall_tells(tasks, task, prefix, stamp);
    }
}

/// The tasks that are arranged are those that were chosen.
pub(crate) proof fn arranging_keeps_tasks(plan: Seq<TaskModel>, chosen: Seq<TaskModel>, task: TaskModel)
    requires
        distinct(plan),
        forall|i: int| 0 <= i < chosen.len() ==> plan.contains(#[trigger] chosen[i]),
    ensures
        arranged(plan, chosen).contains(task) <==> chosen.contains(task),
{
    let wanted_rows = crate::ledger::graph::wanted(plan, chosen);
    let (order, left) = crate::ledger::graph::scheduled(wanted_rows);
    let ordered = crate::ledger::graph::all_known(plan, chosen) && left.len() == 0;
    let list = if ordered {
        order
    } else {
        chosen
    };
    let a = of_state(plan, list, View::Active);
    let b = of_state(plan, list, View::Ready);
    let c = of_state(plan, list, View::Blocked);
    let d = of_state(plan, list, View::Done);
    let e = of_state(plan, list, View::Cancelled);
    kept_by_filter(list, |task: TaskModel| state_of(plan, task) == View::Active, task);
    kept_by_filter(list, |task: TaskModel| state_of(plan, task) == View::Ready, task);
    kept_by_filter(list, |task: TaskModel| state_of(plan, task) == View::Blocked, task);
    kept_by_filter(list, |task: TaskModel| state_of(plan, task) == View::Done, task);
    kept_by_filter(list, |task: TaskModel| state_of(plan, task) == View::Cancelled, task);
    concat_holds(a, b, task);
    concat_holds(a + b, c, task);
    concat_holds(a + b + c, d, task);
    concat_holds(a + b + c + d, e, task);
    assert(arranged(plan, chosen).contains(task) <==> list.contains(task));
    if ordered {
        let keep = |task: TaskModel| has_id(chosen, task.id);
        kept_by_filter(plan, keep, task);
        crate::ledger::graph::scheduled_leaves(wanted_rows);
        if list.contains(task) {
            let k = choose|k: int| 0 <= k < order.len() && order[k] == task;
            crate::ledger::graph::scheduled_rows(wanted_rows, k);
            let i = choose|i: int| 0 <= i < chosen.len() && (#[trigger] chosen[i]).id == task.id;
            same_row(plan, task, chosen[i]);
            assert(chosen[i] == task);
        }
        if chosen.contains(task) {
            let i = choose|i: int| 0 <= i < chosen.len() && chosen[i] == task;
            assert(plan.contains(chosen[i]));
            assert(has_id(chosen, task.id));
            let w = choose|w: int| 0 <= w < wanted_rows.len() && wanted_rows[w] == task;
            assert(wanted_rows[w].id == task.id);
            assert(has_id(wanted_rows, task.id));
            assert(has_id(order, task.id));
            let k = choose|k: int| 0 <= k < order.len() && (#[trigger] order[k]).id == task.id;
            crate::ledger::graph::scheduled_rows(wanted_rows, k);
            kept_by_filter(plan, keep, order[k]);
            same_row(plan, task, order[k]);
        }
    }
}

/// Among tasks with distinct ids, tasks of one id are one.
proof fn same_row(plan: Seq<TaskModel>, a: TaskModel, b: TaskModel)
    requires
        distinct(plan),
        plan.contains(a),
        plan.contains(b),
        a.id == b.id,
    ensures
        a == b,
{
    let i = choose|i: int| 0 <= i < plan.len() && plan[i] == a;
    let j = choose|j: int| 0 <= j < plan.len() && plan[j] == b;
    if i < j {
        assert(plan[i].id != plan[j].id);
    } else if j < i {
        assert(plan[j].id != plan[i].id);
    }
}

/// Two lists one after the other hold what either holds.
proof fn concat_holds(a: Seq<TaskModel>, b: Seq<TaskModel>, task: TaskModel)
    ensures
        (a + b).contains(task) <==> a.contains(task) || b.contains(task),
{
    let both = a + b;
    if a.contains(task) {
        let k = choose|k: int| 0 <= k < a.len() && a[k] == task;
        assert(both[k] == task);
    }
    if b.contains(task) {
        let k = choose|k: int| 0 <= k < b.len() && b[k] == task;
        assert(both[a.len() + k] == task);
    }
    if both.contains(task) {
        let k = choose|k: int| 0 <= k < both.len() && both[k] == task;
        if k < a.len() {
            assert(a[k] == task);
        } else {
            assert(b[k - a.len()] == task);
        }
    }
}

/// The open tasks of the overview are all the open tasks.
proof fn overview_shows_open_tasks(tasks: Seq<TaskModel>, task: TaskModel)
    requires
        distinct(tasks),
    ensures
        overview_open(tasks).contains(task) <==> tasks.contains(task) && still_open(task),
{
    let rows = visible_rows(tasks, TERMINAL_TAIL as nat);
    let keep = recent_ids(tasks, TERMINAL_TAIL as nat, tasks.len());
    let shown = |task: TaskModel| !terminal(task) || keep.contains(task.id);
    let chosen = open_tasks(rows);
    open_tasks_are_open(rows, task);
    kept_by_filter(tasks, shown, task);
    assert forall|i: int| 0 <= i < chosen.len() implies tasks.contains(#[trigger] chosen[i]) by {
        open_tasks_are_open(rows, chosen[i]);
        assert(chosen.contains(chosen[i]));
        kept_by_filter(tasks, shown, chosen[i]);
    }
    arranging_keeps_tasks(tasks, chosen, task);
}

/// The row of an open task tells its id and title.
proof fn open_row_tells(tasks: Seq<TaskModel>, task: TaskModel)
    ensures
        tells(open_lines(tasks, task), task.id + " "@ + task.title),
{
    let view = viewed(tasks, task);
    let part = task.id + " "@ + task.title;
    let row = glyph_of(view.state) + " "@ + task.id + " "@ + task.title;
    mentions_itself(part);
    mentioned_after(glyph_of(view.state) + " "@, part, part);
    regrouped_row(glyph_of(view.state), " "@, task.id, " "@, task.title);
    let owner = optional_piece(" @"@, task.owner);
    let note = optional_piece(" — "@, view.note);
    mentioned_before(row, owner, part);
    mentioned_before(row + owner, note, part);
    line_tells(row + owner + note, part);
    both_tell(
        seq![row + owner + note],
        marked(
            "    "@,
            if view.state == View::Active {
                lines_of(task_context_of(task))
            } else if view.state == View::Ready && task.body.len() > 0 {
                bounded_lines_of(task.body, 2, 240)
            } else {
                Seq::empty()
            },
        ),
        part,
    );
}

/// Pieces one after the other may be grouped.
proof fn regrouped_row(a: Seq<char>, b: Seq<char>, c: Seq<char>, d: Seq<char>, e: Seq<char>)
    ensures
        a + b + c + d + e == a + b + (c + d + e),
{
    assert(a + b + c + d + e =~= a + b + (c + d + e));
}

/// The lines of open tasks tell the id and title of each.
proof fn open_task_has_a_row(tasks: Seq<TaskModel>, list: Seq<TaskModel>, n: nat, k: int)
    requires
        0 <= k < n <= list.len(),
    ensures
        tells(all_open_lines(tasks, list, n), list[k].id + " "@ + list[k].title),
    decreases n,
{
    let part = list[k].id + " "@ + list[k].title;
    let before = all_open_lines(tasks, list, (n - 1) as nat);
    if k == n - 1 {
        open_row_tells(tasks, list[k]);
    } else {
        open_task_has_a_row(tasks, list, (n - 1) as nat, k);
    }
    both_tell(before, open_lines(tasks, list[n - 1]), part);
}

/// What a group of lines of the overview tells, its lines mention when they are joined.
proof fn overview_tells(ledger: LedgerModel, part: Seq<char>)
    requires
        tells(seq![capacity_line(ledger)], part) || tells(
            optional_line("Paused: "@, ledger.pause),
            part,
        ) || tells(
            all_open_lines(
                ledger.tasks,
                overview_open(ledger.tasks),
                overview_open(ledger.tasks).len(),
            ),
            part,
        ) || tells(
            recent_lines(
                ledger.tasks,
                finished(visible_rows(ledger.tasks, TERMINAL_TAIL as nat)),
            ),
            part,
        ),
    ensures
        mentions(joined(overview_lines(ledger), "\n"@), part),
{
    let tasks = ledger.tasks;
    let list = overview_open(tasks);
    let recent = finished(visible_rows(tasks, TERMINAL_TAIL as nat));
    some_tells(
        seq![capacity_line(ledger)],
        optional_line("Paused: "@, ledger.pause),
        heading("Open"@, list.len()),
        all_open_lines(tasks, list, list.len()),
        heading("Recent"@, recent.len()),
        recent_lines(tasks, recent),
        worker_line(ledger, list),
        part,
    );
    joined_lines_tell(overview_lines(ledger), "\n"@, part);
}

/// The overview ends in the summary, and one that is shortened says so.
pub proof fn overviews_end_in_the_summary(ledger: LedgerModel)
    ensures
        mentions(rendered_of(ledger), summary_of(ledger)),
        bytes_of(joined(overview_lines(ledger), "\n"@)) + bytes_of(summary_of(ledger)) + 1 > 24_000
            ==> mentions(rendered_of(ledger), "Overview shortened."@),
{
    let body = joined(overview_lines(ledger), "\n"@);
    let summary = summary_of(ledger);
    mentions_itself(summary);
    if bytes_of(body) + bytes_of(summary) + 1 > CONTEXT_BYTES {
        let note = shortened_note(summary);
        let cut = cut_at_line(body, CONTEXT_BYTES - bytes_of(note));
        shortened_note_says_so(summary);
        mentioned_after(cut, note, summary);
        mentioned_after(cut, note, "Overview shortened."@);
    } else {
        mentioned_after(body + "\n"@, summary, summary);
    }
}

/// The note on a shortened overview says that it is, and tells the summary.
proof fn shortened_note_says_so(summary: Seq<char>)
    ensures
        mentions(shortened_note(summary), summary),
        mentions(shortened_note(summary), "Overview shortened."@),
{
    let long =
        "\nOverview shortened. Read the ledger file to locate omitted tasks; recall named tasks for complete notes.\n"@;
    let short = "Overview shortened."@;
    reveal_strlit(
        "\nOverview shortened. Read the ledger file to locate omitted tasks; recall named tasks for complete notes.\n",
    );
    reveal_strlit("Overview shortened.");
    assert(long.subrange(1, 1 + short.len() as int) =~= short);
    assert(stands_at(long, short, 1));
    mentioned_before(long, summary, short);
    mentions_itself(summary);
    mentioned_after(long, summary, summary);
}

/// The overview that is not shortened has a row for every open task, with its id and title, and tells
/// why the work is paused where it is.
pub proof fn overviews_show_open_work(ledger: LedgerModel, i: int)
    requires
        distinct(ledger.tasks),
        bytes_of(joined(overview_lines(ledger), "\n"@)) + bytes_of(summary_of(ledger)) + 1 <= 24_000,
    ensures
        0 <= i < ledger.tasks.len() && still_open(ledger.tasks[i]) ==> mentions(
            rendered_of(ledger),
            ledger.tasks[i].id + " "@ + ledger.tasks[i].title,
        ),
        ledger.pause matches Some(reason) ==> mentions(rendered_of(ledger), reason),
{
    let tasks = ledger.tasks;
    let body = joined(overview_lines(ledger), "\n"@);
    let summary = summary_of(ledger);
    if let Some(reason) = ledger.pause {
        optional_line_tells("Paused: "@, reason);
        overview_tells(ledger, reason);
        mentioned_before(body, "\n"@, reason);
        mentioned_before(body + "\n"@, summary, reason);
    }
    if 0 <= i < tasks.len() && still_open(tasks[i]) {
        let part = tasks[i].id + " "@ + tasks[i].title;
        let list = overview_open(tasks);
        assert(tasks.contains(tasks[i]));
        overview_shows_open_tasks(tasks, tasks[i]);
        let k = choose|k: int| 0 <= k < list.len() && list[k] == tasks[i];
        open_task_has_a_row(tasks, list, list.len(), k);
        overview_tells(ledger, part);
        mentioned_before(body, "\n"@, part);
        mentioned_before(body + "\n"@, summary, part);
    }
}

/// The notes on workers tell each that runs, and each that an open task is delegated to.
proof fn workers_are_noted(
    executions: Seq<(Seq<char>, ExecutionModel)>,
    list: Seq<TaskModel>,
    n: nat,
    w: int,
)
    requires
        0 <= w < n <= executions.len(),
        executions[w].1.running || owns_any(list, executions[w].0),
    ensures
        tells(
            worker_notes(executions, list, n),
            executions[w].0 + " "@ + worker_state(executions[w].1),
        ),
    decreases n,
{
    let part = executions[w].0 + " "@ + worker_state(executions[w].1);
    let before = worker_notes(executions, list, (n - 1) as nat);
    let after = worker_notes(executions, list, n);
    if w == n - 1 {
        mentions_itself(part);
        assert(after[before.len() as int] == part);
        listed_line_tells(after, before.len() as int, part);
    } else {
        workers_are_noted(executions, list, (n - 1) as nat, w);
        if after != before {
            let (owner, execution) = executions[n - 1];
            both_tell(before, seq![owner + " "@ + worker_state(execution)], part);
            assert(after =~= before + seq![owner + " "@ + worker_state(execution)]);
        }
    }
}

/// The overview that is not shortened tells every worker that runs, and every worker that an open task is
/// delegated to with what came of it.
pub proof fn overviews_tell_workers(ledger: LedgerModel, w: int, i: int)
    requires
        distinct(ledger.tasks),
        bytes_of(joined(overview_lines(ledger), "\n"@)) + bytes_of(summary_of(ledger)) + 1 <= 24_000,
        0 <= w < ledger.executions.len(),
    ensures
        ledger.executions[w].1.running ==> mentions(
            rendered_of(ledger),
            ledger.executions[w].0 + " "@ + "running"@,
        ),
        !ledger.executions[w].1.running && 0 <= i < ledger.tasks.len() && still_open(
            ledger.tasks[i],
        ) && ledger.tasks[i].owner == Some(ledger.executions[w].0) ==> (
        ledger.executions[w].1.outcome matches Some(outcome) ==> mentions(
            rendered_of(ledger),
            ledger.executions[w].0 + " "@ + outcome,
        )),
{
    let tasks = ledger.tasks;
    let list = overview_open(tasks);
    let recent = finished(visible_rows(tasks, TERMINAL_TAIL as nat));
    let notes = worker_notes(ledger.executions, list, ledger.executions.len());
    let part = ledger.executions[w].0 + " "@ + worker_state(ledger.executions[w].1);
    if 0 <= i < tasks.len() && still_open(tasks[i]) && tasks[i].owner == Some(
        ledger.executions[w].0,
    ) {
        assert(tasks.contains(tasks[i]));
        overview_shows_open_tasks(tasks, tasks[i]);
        let k = choose|k: int| 0 <= k < list.len() && list[k] == tasks[i];
        assert(list[k].owner == Some(ledger.executions[w].0));
        assert(owns_any(list, ledger.executions[w].0));
    }
    if ledger.executions[w].1.running || owns_any(list, ledger.executions[w].0) {
        workers_are_noted(ledger.executions, list, ledger.executions.len(), w);
        joined_lines_tell(notes, " · "@, part);
        mentioned_after("Workers: "@, joined(notes, " · "@), part);
        assert(notes.len() > 0) by {
            reveal(tells);
        }
        line_tells("Workers: "@ + joined(notes, " · "@), part);
        some_tells(
            seq![capacity_line(ledger)],
            optional_line("Paused: "@, ledger.pause),
            heading("Open"@, list.len()),
            all_open_lines(tasks, list, list.len()),
            heading("Recent"@, recent.len()),
            recent_lines(tasks, recent),
            worker_line(ledger, list),
            part,
        );
        joined_lines_tell(overview_lines(ledger), "\n"@, part);
        let body = joined(overview_lines(ledger), "\n"@);
        mentioned_before(body, "\n"@, part);
        mentioned_before(body + "\n"@, summary_of(ledger), part);
    }
}

/// The overview that is not shortened tells the finished tasks that are visible, each with its id and title.
pub proof fn overviews_tell_what_was_finished(ledger: LedgerModel, task: TaskModel)
    requires
        bytes_of(joined(overview_lines(ledger), "\n"@)) + bytes_of(summary_of(ledger)) + 1 <= 24_000,
        visible_rows(ledger.tasks, 5).contains(task),
        !still_open(task),
    ensures
        mentions(rendered_of(ledger), task.id),
        mentions(rendered_of(ledger), task.title),
{
    let tasks = ledger.tasks;
    let rows = visible_rows(tasks, TERMINAL_TAIL as nat);
    let recent = finished(rows);
    let keep = |task: TaskModel| terminal(task);
    kept_by_filter(rows, keep, task);
    let k = choose|k: int| 0 <= k < recent.len() && recent[k] == task;
    let lines = recent_lines(tasks, recent);
    let a = task.id + " ["@;
    let b = a + label_of(state_of(tasks, task));
    let c = b + "] "@;
    mentions_itself(task.id);
    mentioned_before(task.id, " ["@, task.id);
    mentioned_before(a, label_of(state_of(tasks, task)), task.id);
    mentioned_before(b, "] "@, task.id);
    mentioned_before(c, task.title, task.id);
    mentions_itself(task.title);
    mentioned_after(c, task.title, task.title);
    listed_line_tells(lines, k, task.id);
    listed_line_tells(lines, k, task.title);
    overview_tells(ledger, task.id);
    overview_tells(ledger, task.title);
    let body = joined(overview_lines(ledger), "\n"@);
    mentioned_before(body, "\n"@, task.id);
    mentioned_before(body + "\n"@, summary_of(ledger), task.id);
    mentioned_before(body, "\n"@, task.title);
    mentioned_before(body + "\n"@, summary_of(ledger), task.title);
}

/// What goes with active work holds the whole body where that is short enough, and says where it is not.
pub proof fn active_work_comes_with_its_body(task: TaskModel)
    requires
        task.body.len() > 0,
    ensures
        task.body.len() <= 1_600 ==> mentions(task_context_of(task), task.body),
        task.body.len() > 1_600 ==> mentions(task_context_of(task), "\nBody shortened. Recall "@),
{
    let body = body_context_of(task);
    let findings = finding_context_of(task);
    let note = "\nBody shortened. Recall "@;
    if task.body.len() <= 1_600 {
        mentions_itself(task.body);
        if findings.len() > 0 {
            mentioned_before(body, "\n"@, task.body);
            mentioned_before(body + "\n"@, findings, task.body);
        }
    } else {
        let cut = clamped(task.body, BODY_PREVIEW_LENGTH as nat);
        clamped_is_shorter(task.body, BODY_PREVIEW_LENGTH as nat);
        let tail = note + task.id + " for complete context."@;
        mentions_itself(note);
        mentioned_before(note, task.id, note);
        mentioned_before(note + task.id, " for complete context."@, note);
        mentioned_after(cut, tail, note);
        if findings.len() > 0 {
            mentioned_before(body, "\n"@, note);
            mentioned_before(body + "\n"@, findings, note);
        }
    }
}

/// What is cut is shorter than it was.
proof fn clamped_is_shorter(s: Seq<char>, limit: nat)
    requires
        0 < limit < s.len(),
    ensures
        clamped(s, limit).len() <= limit,
        clamped(s, limit) != s,
        clamped(s, limit).last() == '…',
{
    end_only_shrinks(s.take(limit - 1));
}

proof fn end_only_shrinks(s: Seq<char>)
    ensures
        trimmed_end(s).len() <= s.len(),
    decreases s.len(),
{
    if s.len() > 0 {
        end_only_shrinks(s.drop_last());
    }
}

} // verus!
