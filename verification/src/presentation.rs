//! The ledger for people: open tasks as Markdown, and the plan that a session shows.

use vstd::prelude::*;
use vstd::string::StringExecFns;
use vstd::view::View as _;

use crate::completion::least;
use crate::ledger::graph::arranged;
use crate::ledger::graph::of_state;
use crate::ledger::laws::distinct;
use crate::ledger::model::Finding;
use crate::ledger::model::FindingModel;
use crate::ledger::model::Ledger;
use crate::ledger::model::LedgerModel;
use crate::ledger::model::Status;
use crate::ledger::model::Task;
use crate::ledger::model::TaskModel;
use crate::ledger::model::referred;
use crate::ledger::model::terminal;
use crate::ledger::query::View;
use crate::ledger::query::filter_step;
use crate::ledger::query::glyph_of;
use crate::ledger::query::label_of;
use crate::ledger::query::state_of;
use crate::ledger::query::summary_of;
use crate::ledger::render::arranging_keeps_tasks;
use crate::ledger::render::joined_line;
use crate::ledger::render::marked;
use crate::ledger::standing::kept_by_filter;
use crate::ledger::standing::open_tasks_are_open;
use crate::ledger::standing::standing_is_told_by_the_fields;
use crate::ledger::standing::still_open;
use crate::ledger::standing::workable;
use crate::text::chars_of;
use crate::text::decimal;
use crate::text::decimal_of;
use crate::text::holds;
use crate::text::join;
use crate::text::joined;
use crate::text::lines;
use crate::text::lines_of;
use crate::text::maybe;
use crate::text::name;
use crate::text::name_of;
use crate::text::same;
use crate::text::text_of;
use crate::text::texts;
use crate::text_laws::both_tell;
use crate::text_laws::joined_lines_tell;
use crate::text_laws::joined_mentions;
use crate::text_laws::line_tells;
use crate::text_laws::listed_line_tells;
use crate::text_laws::mentioned_after;
use crate::text_laws::mentioned_before;
use crate::text_laws::mentioned_by_way_of;
use crate::text_laws::mentions;
use crate::text_laws::mentions_itself;
use crate::text_laws::tells;
use crate::time::format_timestamp;
use crate::time::stamp_of;

verus! {

/// The punctuation of ASCII.
pub open spec fn punctuation(c: char) -> bool {
    let code = c as u32;
    33 <= code <= 47 || 58 <= code <= 64 || 91 <= code <= 96 || 123 <= code <= 126
}

/// A text with a backslash before each punctuation character.
pub open spec fn escaped(s: Seq<char>) -> Seq<char>
    decreases s.len(),
{
    if s.len() == 0 {
        Seq::empty()
    } else if punctuation(s.last()) {
        escaped(s.drop_last()).push('\\').push(s.last())
    } else {
        escaped(s.drop_last()).push(s.last())
    }
}

/// A text on one line that Markdown shows as it is.
pub open spec fn inline_of(s: Seq<char>) -> Seq<char> {
    escaped(name_of(s))
}

/// A text on one line that Markdown shows as it is.
fn inline_text(text: &str) -> (r: String)
    ensures
        r@ == inline_of(text@),
{
    let plain = name(text);
    let chars = chars_of(plain.as_str());
    let mut out = String::new();
    let mut i: usize = 0;
    assert(out@ == escaped(chars@.take(0)));
    while i < chars.len()
        invariant
            i <= chars@.len(),
            out@ == escaped(chars@.take(i as int)),
        decreases chars@.len() - i,
    {
        let c = chars[i];
        let code: u32 = c as u32;
        assert(chars@.take(i + 1).drop_last() == chars@.take(i as int));
        if (33 <= code && code <= 47) || (58 <= code && code <= 64) || (91 <= code && code <= 96)
            || (123 <= code && code <= 126) {
            out.push('\\');
        }
        out.push(c);
        i += 1;
    }
    assert(chars@.take(chars@.len() as int) == chars@);
    out
}

/// An id as code.
pub open spec fn id_code(id: Seq<char>) -> Seq<char> {
    "`#"@ + id + "`"@
}

/// Ids as code.
pub open spec fn id_codes(ids: Seq<Seq<char>>) -> Seq<Seq<char>> {
    Seq::new(ids.len(), |i: int| id_code(ids[i]))
}

/// The ids of the open tasks that wait for this one.
pub open spec fn dependents(tasks: Seq<TaskModel>, id: Seq<char>) -> Seq<Seq<char>> {
    crate::ledger::split::ids_of(
        tasks.filter(|task: TaskModel| !terminal(task) && task.after.contains(id)),
    )
}

/// A labelled line for what is there.
pub open spec fn labelled(lead: Seq<char>, text: Option<Seq<char>>) -> Seq<Seq<char>> {
    match text {
        Some(text) => seq![lead + inline_of(text)],
        None => Seq::empty(),
    }
}

/// Who works on a task, what it waits for and what waits for it.
pub open spec fn metadata_of(tasks: Seq<TaskModel>, task: TaskModel) -> Seq<Seq<char>> {
    labelled("**Owner:** "@, task.owner) + joined_line(
        "**Prerequisites:** "@,
        id_codes(task.after),
        ", "@,
    ) + joined_line("**Unblocks:** "@, id_codes(dependents(tasks, task.id)), ", "@)
}

/// The caption of a note.
pub open spec fn caption_of(finding: FindingModel) -> Seq<char> {
    match finding.from {
        Some(origin) => stamp_of(finding.at as int) + (" · from #"@ + origin.task + " "@
            + origin.title),
        None => stamp_of(finding.at as int),
    }
}

/// A note as a quotation under its caption.
pub open spec fn note_of(finding: FindingModel) -> Seq<char> {
    "*"@ + inline_of(caption_of(finding)) + "*\n\n"@ + joined(
        marked("> "@, lines_of(finding.text)),
        "\n"@,
    )
}

/// Notes as quotations.
pub open spec fn notes_of(findings: Seq<FindingModel>) -> Seq<Seq<char>> {
    Seq::new(findings.len(), |i: int| note_of(findings[i]))
}

/// The notes of a task under their heading.
pub open spec fn notes_section(task: TaskModel) -> Seq<Seq<char>> {
    if task.findings.len() > 0 {
        seq!["### Notes ("@ + decimal_of(task.findings.len()) + ")"@] + notes_of(task.findings)
    } else {
        Seq::empty()
    }
}

/// The parts of a task's section.
pub open spec fn task_parts(tasks: Seq<TaskModel>, task: TaskModel) -> Seq<Seq<char>> {
    let state = state_of(tasks, task);
    seq![
        "## "@ + glyph_of(state) + " #"@ + task.id + " "@ + inline_of(task.title) + " · `"@
            + label_of(state) + "`"@,
    ] + joined_line(Seq::empty(), metadata_of(tasks, task), "  \n"@) + labelled(
        "**Waiting:** "@,
        task.waiting,
    ) + if task.body.len() > 0 {
        seq![task.body]
    } else {
        Seq::empty()
    } + notes_section(task)
}

/// A task's section.
pub open spec fn task_section(tasks: Seq<TaskModel>, task: TaskModel) -> Seq<char> {
    joined(task_parts(tasks, task), "\n\n"@)
}

/// The sections of tasks.
pub open spec fn task_sections(tasks: Seq<TaskModel>, list: Seq<TaskModel>) -> Seq<Seq<char>> {
    Seq::new(list.len(), |i: int| task_section(tasks, list[i]))
}

/// How many tasks of a list are in a state, where there are any.
pub open spec fn state_part(tasks: Seq<TaskModel>, list: Seq<TaskModel>, state: View) -> Seq<
    Seq<char>,
> {
    let count = of_state(tasks, list, state).len();
    if count > 0 {
        seq![decimal_of(count) + " "@ + label_of(state)]
    } else {
        Seq::empty()
    }
}

/// The heading over open tasks.
pub open spec fn open_heading(tasks: Seq<TaskModel>, list: Seq<TaskModel>) -> Seq<char> {
    "**"@ + decimal_of(list.len()) + " unfinished tasks** · "@ + joined(
        state_part(tasks, list, View::Active) + state_part(tasks, list, View::Ready) + state_part(
            tasks,
            list,
            View::Blocked,
        ),
        " · "@,
    )
}

/// The capacity, as Markdown.
pub open spec fn capacity_section(ledger: LedgerModel) -> Seq<char> {
    if ledger.parallelism == 0 {
        "**Parallelism:** off"@
    } else {
        "**Parallelism:** "@ + decimal_of(ledger.parallelism as nat)
    }
}

/// Complete unfinished-task details as Markdown, in sections.
pub open spec fn open_sections(ledger: LedgerModel) -> Seq<Seq<char>> {
    let tasks = ledger.tasks;
    let list = arranged(tasks, crate::ledger::query::open_tasks(tasks));
    let settings = seq![capacity_section(ledger)] + labelled("**Paused** — "@, ledger.pause);
    if list.len() == 0 {
        settings + seq!["No unfinished tasks."@]
    } else {
        seq![open_heading(tasks, list)] + settings + task_sections(tasks, list)
    }
}

/// Adds a labelled line for what is there.
fn add_labelled(list: &mut Vec<String>, lead: &str, text: &Option<String>)
    ensures
        texts(final(list)@) == texts(old(list)@) + labelled(lead@, maybe(*text)),
{
    let ghost start = list@;
    if let Some(text) = text {
        let mut line = lead.to_string();
        line.append(inline_text(text.as_str()).as_str());
        list.push(line);
        assert(texts(list@) =~= texts(start) + seq![line@]);
    } else {
        assert(texts(start) + Seq::<Seq<char>>::empty() =~= texts(start));
    }
}

/// Ids as code.
fn codes(ids: &Vec<String>) -> (r: Vec<String>)
    ensures
        texts(r@) == id_codes(texts(ids@)),
{
    let mut r: Vec<String> = Vec::new();
    let mut i: usize = 0;
    while i < ids.len()
        invariant
            i <= ids@.len(),
            r@.len() == i,
            forall|j: int| 0 <= j < i ==> (#[trigger] r@[j])@ == id_code(ids@[j]@),
        decreases ids@.len() - i,
    {
        let mut code = "`#".to_string();
        code.append(ids[i].as_str());
        code.append("`");
        r.push(code);
        i += 1;
    }
    assert(texts(r@) =~= id_codes(texts(ids@)));
    r
}

/// The ids of the open tasks that wait for this one.
fn dependents_of(ledger: &Ledger, id: &str) -> (ids: Vec<String>)
    ensures
        texts(ids@) == dependents(ledger.model().tasks, id@),
{
    let ghost tasks = ledger.model().tasks;
    let ghost keep = |task: TaskModel| !terminal(task) && task.after.contains(id@);
    let mut ids: Vec<String> = Vec::new();
    let mut i: usize = 0;
    assert(tasks.take(0) == Seq::<TaskModel>::empty());
    reveal(Seq::filter);
    while i < ledger.tasks.len()
        invariant
            i <= ledger.tasks@.len(),
            tasks == ledger.model().tasks,
            keep == (|task: TaskModel| !terminal(task) && task.after.contains(id@)),
            texts(ids@) == crate::ledger::split::ids_of(tasks.take(i as int).filter(keep)),
        decreases ledger.tasks@.len() - i,
    {
        proof {
            filter_step(tasks, keep, i as int);
        }
        let ghost before = ids@;
        if !ledger.tasks[i].terminal() && holds(&ledger.tasks[i].after, id) {
            ids.push(ledger.tasks[i].id.clone());
            assert(texts(ids@) =~= texts(before).push(tasks[i as int].id));
            assert(crate::ledger::split::ids_of(
                tasks.take(i as int).filter(keep).push(tasks[i as int]),
            ) =~= crate::ledger::split::ids_of(tasks.take(i as int).filter(keep)).push(
                tasks[i as int].id,
            ));
        }
        i += 1;
    }
    assert(tasks.take(tasks.len() as int) == tasks);
    ids
}

/// Adds a line of what is joined, where there is anything.
fn add_joined(list: &mut Vec<String>, lead: &str, parts: &Vec<String>, separator: &str)
    ensures
        texts(final(list)@) == texts(old(list)@) + joined_line(lead@, texts(parts@), separator@),
{
    let ghost start = list@;
    assert(texts(parts@).len() == parts@.len());
    if parts.len() > 0 {
        let mut line = lead.to_string();
        line.append(join(parts, separator).as_str());
        list.push(line);
        assert(texts(list@) =~= texts(start) + seq![line@]);
    } else {
        assert(texts(start) + Seq::<Seq<char>>::empty() =~= texts(start));
    }
}

/// A note as a quotation under its caption.
fn note(finding: &Finding) -> (r: String)
    ensures
        r@ == note_of(finding@),
{
    let mut caption = format_timestamp(finding.at);
    if let Some(origin) = &finding.from {
        let mut from = " · from #".to_string();
        from.append(origin.task.as_str());
        from.append(" ");
        from.append(origin.title.as_str());
        caption.append(from.as_str());
    }
    let plain = lines(finding.text.as_str());
    let mut quoted: Vec<String> = Vec::new();
    let mut i: usize = 0;
    while i < plain.len()
        invariant
            i <= plain@.len(),
            quoted@.len() == i,
            forall|j: int| 0 <= j < i ==> (#[trigger] quoted@[j])@ == "> "@ + plain@[j]@,
        decreases plain@.len() - i,
    {
        let mut line = "> ".to_string();
        line.append(plain[i].as_str());
        quoted.push(line);
        i += 1;
    }
    assert(texts(quoted@) =~= marked("> "@, texts(plain@)));
    let mut r = "*".to_string();
    r.append(inline_text(caption.as_str()).as_str());
    r.append("*\n\n");
    r.append(join(&quoted, "\n").as_str());
    r
}

/// Adds the notes of a task under their heading.
fn add_notes(list: &mut Vec<String>, task: &Task)
    ensures
        texts(final(list)@) == texts(old(list)@) + notes_section(task@),
{
    let ghost start = texts(list@);
    let ghost extra = notes_section(task@);
    if task.findings.len() == 0 {
        assert(start + Seq::<Seq<char>>::empty() =~= start);
        return;
    }
    let mut head = "### Notes (".to_string();
    head.append(decimal(task.findings.len() as u64).as_str());
    head.append(")");
    list.push(head);
    assert(texts(list@) =~= start + extra.take(1));
    let mut i: usize = 0;
    while i < task.findings.len()
        invariant
            i <= task.findings@.len(),
            task.findings@.len() > 0,
            extra == notes_section(task@),
            texts(list@) == start + extra.take(i + 1),
        decreases task.findings@.len() - i,
    {
        let text = note(&task.findings[i]);
        let ghost before = list@;
        list.push(text);
        assert(extra[i + 1] == text@);
        assert(texts(list@) =~= texts(before).push(extra[i + 1]));
        assert((start + extra.take(i + 1)).push(extra[i + 1]) =~= start + extra.take(i + 2));
        i += 1;
    }
    assert(extra.take(extra.len() as int) == extra);
}

/// A task's section.
fn section(ledger: &Ledger, task: &Task) -> (r: String)
    ensures
        r@ == task_section(ledger.model().tasks, task@),
{
    let ghost tasks = ledger.model().tasks;
    let state = ledger.view(task).state;
    let mut head = "## ".to_string();
    head.append(state.glyph());
    head.append(" #");
    head.append(task.id.as_str());
    head.append(" ");
    head.append(inline_text(task.title.as_str()).as_str());
    head.append(" · `");
    head.append(state.label());
    head.append("`");
    let mut parts: Vec<String> = Vec::new();
    parts.push(head);
    assert(texts(parts@) =~= seq![head@]);
    let mut metadata: Vec<String> = Vec::new();
    assert(texts(metadata@) + labelled("**Owner:** "@, task@.owner) =~= labelled(
        "**Owner:** "@,
        task@.owner,
    ));
    add_labelled(&mut metadata, "**Owner:** ", &task.owner);
    add_joined(&mut metadata, "**Prerequisites:** ", &codes(&task.after), ", ");
    let waiting = dependents_of(ledger, task.id.as_str());
    add_joined(&mut metadata, "**Unblocks:** ", &codes(&waiting), ", ");
    let blank = String::new();
    add_joined(&mut parts, blank.as_str(), &metadata, "  \n");
    add_labelled(&mut parts, "**Waiting:** ", &task.waiting);
    let ghost start = texts(parts@);
    if !task.body.as_str().is_empty() {
        parts.push(task.body.clone());
        assert(texts(parts@) =~= start + seq![task.body@]);
    } else {
        assert(start + Seq::<Seq<char>>::empty() =~= start);
    }
    add_notes(&mut parts, task);
    assert(texts(parts@) == task_parts(tasks, task@));
    join(&parts, "\n\n")
}

/// The number of tasks of a list that are in a state.
fn count_state(ledger: &Ledger, list: &Vec<&Task>, state: View) -> (n: usize)
    ensures
        n == of_state(ledger.model().tasks, referred(list@), state).len(),
{
    let ghost tasks = ledger.model().tasks;
    let ghost all = referred(list@);
    let ghost keep = |task: TaskModel| state_of(tasks, task) == state;
    let mut n: usize = 0;
    let mut i: usize = 0;
    assert(all.take(0) == Seq::<TaskModel>::empty());
    reveal(Seq::filter);
    while i < list.len()
        invariant
            i <= list@.len(),
            tasks == ledger.model().tasks,
            all == referred(list@),
            keep == (|task: TaskModel| state_of(tasks, task) == state),
            n == all.take(i as int).filter(keep).len(),
            n <= i,
        decreases list@.len() - i,
    {
        proof {
            filter_step(all, keep, i as int);
        }
        if ledger.view(list[i]).state == state {
            n += 1;
        }
        i += 1;
    }
    assert(all.take(all.len() as int) == all);
    n
}

/// Adds how many tasks of a list are in a state, where there are any.
fn add_state_part(parts: &mut Vec<String>, ledger: &Ledger, list: &Vec<&Task>, state: View)
    ensures
        texts(final(parts)@) == texts(old(parts)@) + state_part(
            ledger.model().tasks,
            referred(list@),
            state,
        ),
{
    let ghost start = texts(parts@);
    let count: usize = count_state(ledger, list, state);
    if count > 0 {
        let mut part = decimal(count as u64);
        part.append(" ");
        part.append(state.label());
        parts.push(part);
        assert(texts(parts@) =~= start + seq![part@]);
    } else {
        assert(start + Seq::<Seq<char>>::empty() =~= start);
    }
}

/// The heading over open tasks.
fn heading(ledger: &Ledger, list: &Vec<&Task>) -> (r: String)
    ensures
        r@ == open_heading(ledger.model().tasks, referred(list@)),
{
    let ghost tasks = ledger.model().tasks;
    let ghost all = referred(list@);
    let mut parts: Vec<String> = Vec::new();
    assert(texts(parts@) + state_part(tasks, all, View::Active) =~= state_part(
        tasks,
        all,
        View::Active,
    ));
    add_state_part(&mut parts, ledger, list, View::Active);
    add_state_part(&mut parts, ledger, list, View::Ready);
    add_state_part(&mut parts, ledger, list, View::Blocked);
    let mut r = "**".to_string();
    r.append(decimal(list.len() as u64).as_str());
    r.append(" unfinished tasks** · ");
    r.append(join(&parts, " · ").as_str());
    r
}

/// Complete unfinished-task details as Markdown for the human pager.
pub fn open_tasks(ledger: &Ledger) -> (r: String)
    ensures
        r@ == joined(open_sections(ledger.model()), "\n\n"@),
{
    let ghost model = ledger.model();
    let ghost tasks = model.tasks;
    let open = ledger.outstanding();
    let list = ledger.arrange(open.as_slice());
    let ghost all = referred(list@);
    assert(all.len() == list@.len());
    let ghost settings = seq![capacity_section(model)] + labelled("**Paused** — "@, model.pause);
    let mut sections: Vec<String> = Vec::new();
    if list.len() > 0 {
        sections.push(heading(ledger, &list));
        assert(texts(sections@) =~= seq![open_heading(tasks, all)]);
    }
    let ghost lead = texts(sections@);
    let mut capacity = "**Parallelism:** ".to_string();
    if ledger.parallelism == 0 {
        capacity = "**Parallelism:** off".to_string();
    } else {
        capacity.append(decimal(ledger.parallelism as u64).as_str());
    }
    sections.push(capacity);
    assert(texts(sections@) =~= lead + seq![capacity_section(model)]);
    add_labelled(&mut sections, "**Paused** — ", &ledger.pause);
    assert(texts(sections@) =~= lead + settings);
    if list.len() == 0 {
        let ghost before = texts(sections@);
        sections.push("No unfinished tasks.".to_string());
        assert(texts(sections@) =~= settings + seq!["No unfinished tasks."@]);
    } else {
        let ghost start = texts(sections@);
        let ghost extra = task_sections(tasks, all);
        assert(start + extra.take(0) =~= start);
        let mut i: usize = 0;
        while i < list.len()
            invariant
                i <= list@.len(),
                tasks == ledger.model().tasks,
                all == referred(list@),
                extra == task_sections(tasks, all),
                texts(sections@) == start + extra.take(i as int),
            decreases list@.len() - i,
        {
            let text = section(ledger, list[i]);
            let ghost before = sections@;
            sections.push(text);
            assert(texts(sections@) =~= texts(before).push(extra[i as int]));
            assert((start + extra.take(i as int)).push(extra[i as int]) =~= start + extra.take(
                i + 1,
            ));
            i += 1;
        }
        assert(extra.take(extra.len() as int) == extra);
    }
    assert(texts(sections@) == open_sections(model));
    join(&sections, "\n\n")
}

#[derive(Clone, Copy, Debug, PartialEq, Eq, Structural)]
pub enum StepStatus {
    Pending,
    InProgress,
    Completed,
}

/// One step of a plan.
#[derive(Debug, PartialEq, Eq)]
pub struct PlanStep {
    pub step: String,
    pub status: StepStatus,
}

/// What a session shows of its plan.
#[derive(Debug, PartialEq, Eq)]
pub struct Plan {
    pub explanation: String,
    pub plan: Vec<PlanStep>,
}

/// A plan, with its texts as sequences of characters.
#[verifier::ext_equal]
pub struct PlanModel {
    pub explanation: Seq<char>,
    pub plan: Seq<(Seq<char>, StepStatus)>,
}

impl vstd::view::View for Plan {
    type V = PlanModel;

    open spec fn view(&self) -> PlanModel {
        PlanModel {
            explanation: self.explanation@,
            plan: Seq::new(
                self.plan@.len(),
                |i: int| (self.plan@[i].step@, self.plan@[i].status),
            ),
        }
    }
}

/// The tasks as a plan lists them: in flight, could start, cannot, behind you.
pub open spec fn planned(tasks: Seq<TaskModel>) -> Seq<TaskModel> {
    of_state(tasks, tasks, View::Active) + of_state(tasks, tasks, View::Ready) + of_state(
        tasks,
        tasks,
        View::Blocked,
    ) + tasks.filter(
        |task: TaskModel|
            state_of(tasks, task) == View::Done || state_of(tasks, task) == View::Cancelled,
    )
}

/// What a step says beside the title.
pub open spec fn step_suffix(state: View) -> Seq<char> {
    match state {
        View::Blocked => " (waiting)"@,
        View::Cancelled => " (cancelled)"@,
        _ => Seq::empty(),
    }
}

/// The status of a step.
pub open spec fn step_status(state: View) -> StepStatus {
    match state {
        View::Active => StepStatus::InProgress,
        View::Ready | View::Blocked => StepStatus::Pending,
        View::Done | View::Cancelled => StepStatus::Completed,
    }
}

/// One step of a plan.
pub open spec fn step_of(tasks: Seq<TaskModel>, task: TaskModel) -> (Seq<char>, StepStatus) {
    let state = state_of(tasks, task);
    ("#"@ + task.id + " "@ + task.title + step_suffix(state), step_status(state))
}

/// The most steps a plan shows.
pub const PLAN_STEPS: usize = 8;

/// The most characters of a pause that a plan shows.
pub const PAUSE_PREVIEW: usize = 160;

/// What explains a plan.
pub open spec fn explanation_of(ledger: LedgerModel) -> Seq<char> {
    match ledger.pause {
        Some(reason) => "Paused: "@ + reason.take(least(reason.len(), PAUSE_PREVIEW as nat) as int)
            + " · "@ + summary_of(ledger),
        None => summary_of(ledger),
    }
}

/// What a session shows of its plan.
pub open spec fn plan_of(ledger: LedgerModel) -> PlanModel {
    let list = planned(ledger.tasks);
    PlanModel {
        explanation: explanation_of(ledger),
        plan: Seq::new(
            least(list.len(), PLAN_STEPS as nat),
            |i: int| step_of(ledger.tasks, list[i]),
        ),
    }
}

/// Adds the tasks in a state, or in another one.
fn add_states<'a>(rows: &mut Vec<&'a Task>, ledger: &'a Ledger, one: View, other: View)
    ensures
        referred(final(rows)@) == referred(old(rows)@) + ledger.model().tasks.filter(
            |task: TaskModel|
                state_of(ledger.model().tasks, task) == one || state_of(ledger.model().tasks, task)
                    == other,
        ),
{
    let ghost tasks = ledger.model().tasks;
    let ghost keep = |task: TaskModel|
        state_of(tasks, task) == one || state_of(tasks, task) == other;
    let ghost start = referred(rows@);
    let mut i: usize = 0;
    assert(tasks.take(0) == Seq::<TaskModel>::empty());
    reveal(Seq::filter);
    assert(start + Seq::<TaskModel>::empty() =~= start);
    while i < ledger.tasks.len()
        invariant
            i <= ledger.tasks@.len(),
            tasks == ledger.model().tasks,
            keep == (|task: TaskModel|
                state_of(tasks, task) == one || state_of(tasks, task) == other),
            referred(rows@) == start + tasks.take(i as int).filter(keep),
        decreases ledger.tasks@.len() - i,
    {
        proof {
            filter_step(tasks, keep, i as int);
        }
        let ghost before = rows@;
        let state = ledger.view(&ledger.tasks[i]).state;
        if state == one || state == other {
            rows.push(&ledger.tasks[i]);
            assert(referred(rows@) =~= referred(before).push(tasks[i as int]));
            assert((start + tasks.take(i as int).filter(keep)).push(tasks[i as int]) =~= start
                + tasks.take(i as int).filter(keep).push(tasks[i as int]));
        }
        i += 1;
    }
    assert(tasks.take(tasks.len() as int) == tasks);
}

/// Two ways to ask for one state are one filter.
proof fn one_state(tasks: Seq<TaskModel>, state: View)
    ensures
        tasks.filter(
            |task: TaskModel| state_of(tasks, task) == state || state_of(tasks, task) == state,
        ) == of_state(tasks, tasks, state),
{
    assert((|task: TaskModel| state_of(tasks, task) == state || state_of(tasks, task) == state)
        =~= (|task: TaskModel| state_of(tasks, task) == state));
}

/// What a session shows of its plan.
pub fn plan(ledger: &Ledger) -> (r: Plan)
    ensures
        r@ == plan_of(ledger.model()),
{
    let ghost model = ledger.model();
    let ghost tasks = model.tasks;
    let mut rows: Vec<&Task> = Vec::new();
    proof {
        one_state(tasks, View::Active);
        one_state(tasks, View::Ready);
        one_state(tasks, View::Blocked);
        assert(referred(rows@) + of_state(tasks, tasks, View::Active) =~= of_state(
            tasks,
            tasks,
            View::Active,
        ));
    }
    add_states(&mut rows, ledger, View::Active, View::Active);
    add_states(&mut rows, ledger, View::Ready, View::Ready);
    add_states(&mut rows, ledger, View::Blocked, View::Blocked);
    add_states(&mut rows, ledger, View::Done, View::Cancelled);
    let ghost list = referred(rows@);
    assert(list == planned(tasks));
    assert(list.len() == rows@.len());
    let count: usize = if rows.len() < PLAN_STEPS {
        rows.len()
    } else {
        PLAN_STEPS
    };
    let mut steps: Vec<PlanStep> = Vec::new();
    let mut i: usize = 0;
    while i < count
        invariant
            i <= count <= rows@.len(),
            tasks == ledger.model().tasks,
            list == referred(rows@),
            steps@.len() == i,
            forall|j: int|
                0 <= j < i ==> ((#[trigger] steps@[j]).step@, steps@[j].status) == step_of(
                    tasks,
                    list[j],
                ),
        decreases count - i,
    {
        let state = ledger.view(rows[i]).state;
        let mut step = "#".to_string();
        step.append(rows[i].id.as_str());
        step.append(" ");
        step.append(rows[i].title.as_str());
        let status = match state {
            View::Active => StepStatus::InProgress,
            View::Ready | View::Blocked => StepStatus::Pending,
            View::Done | View::Cancelled => StepStatus::Completed,
        };
        match state {
            View::Blocked => {
                step.append(" (waiting)");
            },
            View::Cancelled => {
                step.append(" (cancelled)");
            },
            _ => {
                assert(step@ + Seq::<char>::empty() == step@);
            },
        }
        steps.push(PlanStep { step, status });
        i += 1;
    }
    let mut explanation = ledger.summary();
    if let Some(reason) = &ledger.pause {
        let chars = chars_of(reason.as_str());
        let shown: usize = if chars.len() < PAUSE_PREVIEW {
            chars.len()
        } else {
            PAUSE_PREVIEW
        };
        let head = text_of(&chars, 0, shown);
        assert(head@ == reason@.take(shown as int));
        let mut paused = "Paused: ".to_string();
        paused.append(head.as_str());
        paused.append(" · ");
        paused.append(explanation.as_str());
        explanation = paused;
    }
    let r = Plan { explanation, plan: steps };
    assert(r@.plan =~= plan_of(model).plan);
    r
}

/// Whether two plans are the same.
pub fn same_plan(a: &Plan, b: &Plan) -> (r: bool)
    ensures
        r == (a@ == b@),
{
    if !same(a.explanation.as_str(), b.explanation.as_str()) || a.plan.len() != b.plan.len() {
        assert(a@.explanation != b@.explanation || a@.plan.len() != b@.plan.len());
        return false;
    }
    let mut i: usize = 0;
    while i < a.plan.len()
        invariant
            i <= a.plan@.len(),
            a.plan@.len() == b.plan@.len(),
            forall|j: int| 0 <= j < i ==> a@.plan[j] == b@.plan[j],
        decreases a.plan@.len() - i,
    {
        if !same(a.plan[i].step.as_str(), b.plan[i].step.as_str()) || a.plan[i].status
            != b.plan[i].status {
            assert(a@.plan[i as int] != b@.plan[i as int]);
            return false;
        }
        i += 1;
    }
    assert(a@.plan =~= b@.plan);
    true
}

/// What a step of the plan says of a task, by the fields of the task: its id and title, and that it
/// is done or cancelled, in progress, or pending.
pub open spec fn shows(tasks: Seq<TaskModel>, task: TaskModel, step: (Seq<char>, StepStatus)) -> bool {
    &&& ("#"@ + task.id + " "@ + task.title).is_prefix_of(step.0)
    &&& step.1 == StepStatus::Completed <==> !still_open(task)
    &&& step.1 == StepStatus::InProgress <==> workable(tasks, task) && task.status == Status::Active
    &&& step.1 == StepStatus::Pending <==> still_open(task) && !(workable(tasks, task)
        && task.status == Status::Active)
    &&& task.cancelled is Some ==> step.0 == "#"@ + task.id + " "@ + task.title + " (cancelled)"@
    &&& still_open(task) && !workable(tasks, task) ==> step.0 == "#"@ + task.id + " "@ + task.title
        + " (waiting)"@
    &&& task.cancelled is None && (task.status == Status::Done || workable(tasks, task)) ==> step.0
        == "#"@ + task.id + " "@ + task.title
}

/// The step shows a task of the plan.
pub open spec fn shows_some(tasks: Seq<TaskModel>, step: (Seq<char>, StepStatus)) -> bool {
    exists|j: int| 0 <= j < tasks.len() && shows(tasks, #[trigger] tasks[j], step)
}

/// Some step shows the task.
pub open spec fn is_shown(
    tasks: Seq<TaskModel>,
    task: TaskModel,
    plan: Seq<(Seq<char>, StepStatus)>,
) -> bool {
    exists|i: int| 0 <= i < plan.len() && shows(tasks, task, #[trigger] plan[i])
}

proof fn step_shows(tasks: Seq<TaskModel>, task: TaskModel)
    requires
        distinct(tasks),
    ensures
        shows(tasks, task, step_of(tasks, task)),
{
    standing_is_told_by_the_fields(tasks, task);
    let whole = step_of(tasks, task).0;
    let lead = "#"@ + task.id + " "@ + task.title;
    assert(lead =~= whole.take(lead.len() as int));
    assert(lead + Seq::<char>::empty() =~= lead);
}

/// A list made of four filters holds what any of them keeps.
proof fn planned_holds(tasks: Seq<TaskModel>, task: TaskModel)
    ensures
        planned(tasks).contains(task) <==> tasks.contains(task),
{
    let a = of_state(tasks, tasks, View::Active);
    let b = of_state(tasks, tasks, View::Ready);
    let c = of_state(tasks, tasks, View::Blocked);
    let ended = |task: TaskModel|
        state_of(tasks, task) == View::Done || state_of(tasks, task) == View::Cancelled;
    let d = tasks.filter(ended);
    kept_by_filter(tasks, |task: TaskModel| state_of(tasks, task) == View::Active, task);
    kept_by_filter(tasks, |task: TaskModel| state_of(tasks, task) == View::Ready, task);
    kept_by_filter(tasks, |task: TaskModel| state_of(tasks, task) == View::Blocked, task);
    kept_by_filter(tasks, ended, task);
    let all = planned(tasks);
    if all.contains(task) {
        let k = choose|k: int| 0 <= k < all.len() && all[k] == task;
        if k < a.len() {
            assert(a[k] == task);
        } else if k < a.len() + b.len() {
            assert(b[k - a.len()] == task);
        } else if k < a.len() + b.len() + c.len() {
            assert(c[k - a.len() - b.len()] == task);
        } else {
            assert(d[k - a.len() - b.len() - c.len()] == task);
        }
    }
    if tasks.contains(task) {
        if a.contains(task) {
            let k = choose|k: int| 0 <= k < a.len() && a[k] == task;
            assert(all[k] == task);
        } else if b.contains(task) {
            let k = choose|k: int| 0 <= k < b.len() && b[k] == task;
            assert(all[a.len() + k] == task);
        } else if c.contains(task) {
            let k = choose|k: int| 0 <= k < c.len() && c[k] == task;
            assert(all[a.len() + b.len() + k] == task);
        } else {
            let k = choose|k: int| 0 <= k < d.len() && d[k] == task;
            assert(all[a.len() + b.len() + c.len() + k] == task);
        }
    }
}

/// How many pass each of two tests that exclude each other, and how many pass either.
proof fn split_filter(
    tasks: Seq<TaskModel>,
    one: spec_fn(TaskModel) -> bool,
    other: spec_fn(TaskModel) -> bool,
    either: spec_fn(TaskModel) -> bool,
)
    requires
        forall|task: TaskModel| #[trigger] either(task) == (one(task) || other(task)),
        forall|task: TaskModel| !(#[trigger] one(task) && other(task)),
    ensures
        tasks.filter(either).len() == tasks.filter(one).len() + tasks.filter(other).len(),
    decreases tasks.len(),
{
    reveal(Seq::filter);
    if tasks.len() > 0 {
        split_filter(tasks.drop_last(), one, other, either);
        assert(either(tasks.last()) == (one(tasks.last()) || other(tasks.last())));
        assert(!(one(tasks.last()) && other(tasks.last())));
    }
}

/// Every task is listed once.
proof fn planned_all(tasks: Seq<TaskModel>)
    ensures
        planned(tasks).len() == tasks.len(),
{
    let a = |task: TaskModel| state_of(tasks, task) == View::Active;
    let b = |task: TaskModel| state_of(tasks, task) == View::Ready;
    let c = |task: TaskModel| state_of(tasks, task) == View::Blocked;
    let d = |task: TaskModel|
        state_of(tasks, task) == View::Done || state_of(tasks, task) == View::Cancelled;
    let ab = |task: TaskModel| a(task) || b(task);
    let abc = |task: TaskModel| ab(task) || c(task);
    let all = |task: TaskModel| abc(task) || d(task);
    split_filter(tasks, a, b, ab);
    split_filter(tasks, ab, c, abc);
    split_filter(tasks, abc, d, all);
    assert forall|i: int| 0 <= i < tasks.len() implies all(#[trigger] tasks[i]) by {}
    all_pass(tasks, all);
}

proof fn all_pass(tasks: Seq<TaskModel>, keep: spec_fn(TaskModel) -> bool)
    requires
        forall|i: int| 0 <= i < tasks.len() ==> keep(#[trigger] tasks[i]),
    ensures
        tasks.filter(keep) == tasks,
    decreases tasks.len(),
{
    reveal(Seq::filter);
    if tasks.len() > 0 {
        all_pass(tasks.drop_last(), keep);
        assert(tasks.drop_last().push(tasks.last()) =~= tasks);
    }
}

/// Each step of the plan shows a task of the ledger as its fields have it, there are as many steps as
/// tasks up to eight, and up to eight tasks each has its step.
pub proof fn plans_show_tasks_as_they_are(ledger: LedgerModel)
    requires
        distinct(ledger.tasks),
    ensures
        ({
            let tasks = ledger.tasks;
            let plan = plan_of(ledger).plan;
            &&& plan.len() == (if tasks.len() < 8 { tasks.len() } else { 8 })
            &&& forall|i: int| 0 <= i < plan.len() ==> shows_some(tasks, #[trigger] plan[i])
            &&& tasks.len() <= 8 ==> forall|j: int|
                0 <= j < tasks.len() ==> is_shown(tasks, #[trigger] tasks[j], plan)
        }),
{
    let tasks = ledger.tasks;
    let plan = plan_of(ledger).plan;
    let list = planned(tasks);
    planned_all(tasks);
    assert forall|i: int| 0 <= i < plan.len() implies shows_some(tasks, #[trigger] plan[i]) by {
        planned_holds(tasks, list[i]);
        assert(list.contains(list[i]));
        let j = choose|j: int| 0 <= j < tasks.len() && tasks[j] == list[i];
        step_shows(tasks, tasks[j]);
        assert(shows(tasks, tasks[j], plan[i]));
    }
    if tasks.len() <= 8 {
        assert forall|j: int| 0 <= j < tasks.len() implies is_shown(
            tasks,
            #[trigger] tasks[j],
            plan,
        ) by {
            planned_holds(tasks, tasks[j]);
            assert(tasks.contains(tasks[j]));
            let i = choose|i: int| 0 <= i < list.len() && list[i] == tasks[j];
            step_shows(tasks, tasks[j]);
            assert(shows(tasks, tasks[j], plan[i]));
        }
    }
}

/// Steps in progress come first, then those still to do, then what is behind.
pub proof fn plans_put_open_work_first(ledger: LedgerModel, i: int, j: int)
    requires
        0 <= i < j < plan_of(ledger).plan.len(),
    ensures
        plan_of(ledger).plan[j].1 == StepStatus::InProgress ==> plan_of(ledger).plan[i].1
            == StepStatus::InProgress,
        plan_of(ledger).plan[i].1 == StepStatus::Completed ==> plan_of(ledger).plan[j].1
            == StepStatus::Completed,
{
    let tasks = ledger.tasks;
    state_listed(tasks, i);
    state_listed(tasks, j);
}

/// In which of the four groups a row of the list stands.
proof fn state_listed(tasks: Seq<TaskModel>, k: int)
    requires
        0 <= k < planned(tasks).len(),
    ensures
        ({
            let a = of_state(tasks, tasks, View::Active).len();
            let b = of_state(tasks, tasks, View::Ready).len();
            let c = of_state(tasks, tasks, View::Blocked).len();
            let state = state_of(tasks, planned(tasks)[k]);
            &&& k < a <==> state == View::Active
            &&& a <= k < a + b <==> state == View::Ready
            &&& a + b <= k < a + b + c <==> state == View::Blocked
            &&& a + b + c <= k <==> state == View::Done || state == View::Cancelled
        }),
{
    let a = of_state(tasks, tasks, View::Active);
    let b = of_state(tasks, tasks, View::Ready);
    let c = of_state(tasks, tasks, View::Blocked);
    let ended = |task: TaskModel|
        state_of(tasks, task) == View::Done || state_of(tasks, task) == View::Cancelled;
    let d = tasks.filter(ended);
    let row = planned(tasks)[k];
    if k < a.len() {
        assert(a[k] == row && a.contains(row));
        kept_by_filter(tasks, |task: TaskModel| state_of(tasks, task) == View::Active, row);
    } else if k < a.len() + b.len() {
        assert(b[k - a.len()] == row && b.contains(row));
        kept_by_filter(tasks, |task: TaskModel| state_of(tasks, task) == View::Ready, row);
    } else if k < a.len() + b.len() + c.len() {
        assert(c[k - a.len() - b.len()] == row && c.contains(row));
        kept_by_filter(tasks, |task: TaskModel| state_of(tasks, task) == View::Blocked, row);
    } else {
        assert(d[k - a.len() - b.len() - c.len()] == row && d.contains(row));
        kept_by_filter(tasks, ended, row);
    }
}

/// The open tasks are shown one section each, all of them; where there are none, that is said.
pub proof fn open_tasks_have_sections(ledger: LedgerModel, i: int)
    requires
        distinct(ledger.tasks),
    ensures
        0 <= i < ledger.tasks.len() && still_open(ledger.tasks[i]) ==> open_sections(
            ledger,
        ).contains(task_section(ledger.tasks, ledger.tasks[i])),
        (forall|j: int| 0 <= j < ledger.tasks.len() ==> !still_open(#[trigger] ledger.tasks[j]))
            ==> open_sections(ledger).contains("No unfinished tasks."@),
{
    let tasks = ledger.tasks;
    let open = crate::ledger::query::open_tasks(tasks);
    let list = arranged(tasks, open);
    let sections = open_sections(ledger);
    let settings = seq![capacity_section(ledger)] + labelled("**Paused** — "@, ledger.pause);
    assert forall|k: int| 0 <= k < open.len() implies tasks.contains(#[trigger] open[k])
        && still_open(open[k]) by {
        assert(open.contains(open[k]));
        open_tasks_are_open(tasks, open[k]);
    }
    if 0 <= i < tasks.len() && still_open(tasks[i]) {
        assert(tasks.contains(tasks[i]));
        open_tasks_are_open(tasks, tasks[i]);
        arranging_keeps_tasks(tasks, open, tasks[i]);
        let k = choose|k: int| 0 <= k < list.len() && list[k] == tasks[i];
        assert(sections[1 + settings.len() + k] == task_section(tasks, tasks[i]));
    }
    if forall|j: int| 0 <= j < tasks.len() ==> !still_open(#[trigger] tasks[j]) {
        if list.len() > 0 {
            assert(list.contains(list[0]));
            arranging_keeps_tasks(tasks, open, list[0]);
            let k = choose|k: int| 0 <= k < open.len() && open[k] == list[0];
            assert(tasks.contains(open[k]));
            let j = choose|j: int| 0 <= j < tasks.len() && tasks[j] == open[k];
            assert(still_open(tasks[j]));
        }
        assert(sections[settings.len() as int] == "No unfinished tasks."@);
    }
}

/// The section of a task holds its id and its complete body.
pub proof fn sections_hold_the_task(tasks: Seq<TaskModel>, task: TaskModel)
    ensures
        mentions(task_section(tasks, task), task.id),
        task.body.len() > 0 ==> mentions(task_section(tasks, task), task.body),
{
    let state = state_of(tasks, task);
    let lead = "## "@ + glyph_of(state) + " #"@;
    let b = lead + task.id;
    let c = b + " "@;
    let d = c + inline_of(task.title);
    let e = d + " · `"@;
    let f = e + label_of(state);
    mentions_itself(task.id);
    mentioned_after(lead, task.id, task.id);
    mentioned_before(b, " "@, task.id);
    mentioned_before(c, inline_of(task.title), task.id);
    mentioned_before(d, " · `"@, task.id);
    mentioned_before(e, label_of(state), task.id);
    mentioned_before(f, "`"@, task.id);
    let one = seq![f + "`"@];
    line_tells(f + "`"@, task.id);
    let two = joined_line(Seq::empty(), metadata_of(tasks, task), "  \n"@);
    let three = labelled("**Waiting:** "@, task.waiting);
    let four = if task.body.len() > 0 {
        seq![task.body]
    } else {
        Seq::empty()
    };
    let five = notes_section(task);
    both_tell(one, two, task.id);
    both_tell(one + two, three, task.id);
    both_tell(one + two + three, four, task.id);
    both_tell(one + two + three + four, five, task.id);
    joined_lines_tell(task_parts(tasks, task), "\n\n"@, task.id);
    if task.body.len() > 0 {
        mentions_itself(task.body);
        line_tells(task.body, task.body);
        both_tell(one + two + three, four, task.body);
        both_tell(one + two + three + four, five, task.body);
        joined_lines_tell(task_parts(tasks, task), "\n\n"@, task.body);
    }
}

/// A text is escaped character by character: one that Markdown could take for its own gets a backslash,
/// any other stays as it is.
pub proof fn characters_are_escaped(u: Seq<char>, v: Seq<char>, c: char)
    ensures
        escaped(u + v) == escaped(u) + escaped(v),
        escaped(seq![c]) == if '!' <= c <= '/' || ':' <= c <= '@' || '[' <= c <= '`' || '{' <= c
            <= '~' {
            seq!['\\', c]
        } else {
            seq![c]
        },
    decreases v.len(),
{
    if v.len() == 0 {
        assert(u + v =~= u);
        assert(escaped(u) + escaped(v) =~= escaped(u));
    } else {
        characters_are_escaped(u, v.drop_last(), c);
        assert((u + v).drop_last() =~= u + v.drop_last());
        assert((u + v).last() == v.last());
        assert(escaped(u + v) =~= escaped(u) + escaped(v));
    }
    reveal_with_fuel(escaped, 2);
    assert(seq![c].drop_last() =~= Seq::<char>::empty());
    assert(escaped(seq![c]) =~= if punctuation(c) {
        seq!['\\', c]
    } else {
        seq![c]
    });
}

/// What a plan is explained with tells the summary, and the reason of a pause where that is short enough.
pub proof fn explanations_tell_the_pause(ledger: LedgerModel)
    ensures
        mentions(explanation_of(ledger), summary_of(ledger)),
        ledger.pause matches Some(reason) ==> (reason.len() <= 160 ==> mentions(
            explanation_of(ledger),
            "Paused: "@ + reason,
        )),
{
    let summary = summary_of(ledger);
    mentions_itself(summary);
    if let Some(reason) = ledger.pause {
        let cut = reason.take(least(reason.len(), PAUSE_PREVIEW as nat) as int);
        let lead = "Paused: "@ + cut;
        mentioned_after(lead + " · "@, summary, summary);
        if reason.len() <= 160 {
            assert(cut =~= reason);
            mentions_itself(lead);
            mentioned_before(lead, " · "@, lead);
            mentioned_before(lead + " · "@, summary, lead);
        }
    }
}

/// What a task unblocks are the open tasks that wait for it.
pub proof fn open_dependents_are_told(tasks: Seq<TaskModel>, id: Seq<char>, j: int)
    requires
        0 <= j < tasks.len(),
        still_open(tasks[j]),
        tasks[j].after.contains(id),
    ensures
        dependents(tasks, id).contains(tasks[j].id),
{
    let keep = |task: TaskModel| !terminal(task) && task.after.contains(id);
    let list = tasks.filter(keep);
    assert(tasks.contains(tasks[j]));
    crate::ledger::standing::kept_by_filter(tasks, keep, tasks[j]);
    let k = choose|k: int| 0 <= k < list.len() && list[k] == tasks[j];
    assert(dependents(tasks, id)[k] == tasks[j].id);
}

/// What a group of parts of a section tells, the section mentions.
proof fn section_tells(tasks: Seq<TaskModel>, task: TaskModel, part: Seq<char>)
    requires
        tells(joined_line(Seq::empty(), metadata_of(tasks, task), "  \n"@), part) || tells(
            labelled("**Waiting:** "@, task.waiting),
            part,
        ) || tells(notes_section(task), part),
    ensures
        mentions(task_section(tasks, task), part),
{
    let state = state_of(tasks, task);
    let one = seq![
        "## "@ + glyph_of(state) + " #"@ + task.id + " "@ + inline_of(task.title) + " · `"@
            + label_of(state) + "`"@,
    ];
    let two = joined_line(Seq::empty(), metadata_of(tasks, task), "  \n"@);
    let three = labelled("**Waiting:** "@, task.waiting);
    let four = if task.body.len() > 0 {
        seq![task.body]
    } else {
        Seq::empty()
    };
    let five = notes_section(task);
    if tells(two, part) {
        both_tell(one, two, part);
    }
    if tells(one + two, part) || tells(three, part) {
        both_tell(one + two, three, part);
        both_tell(one + two + three, four, part);
    }
    both_tell(one + two + three + four, five, part);
    joined_lines_tell(task_parts(tasks, task), "\n\n"@, part);
}

/// The section of a task tells what it waits for, who it is delegated to, each of its prerequisites and every
/// line of every finding.
pub proof fn sections_hold_the_details(
    tasks: Seq<TaskModel>,
    task: TaskModel,
    k: int,
    f: int,
    l: int,
)
    ensures
        task.waiting matches Some(text) ==> mentions(task_section(tasks, task), inline_of(text)),
        task.owner matches Some(owner) ==> mentions(task_section(tasks, task), inline_of(owner)),
        0 <= k < task.after.len() ==> mentions(
            task_section(tasks, task),
            "`#"@ + task.after[k] + "`"@,
        ),
        0 <= f < task.findings.len() && 0 <= l < lines_of(task.findings[f].text).len() ==> mentions(
            task_section(tasks, task),
            lines_of(task.findings[f].text)[l],
        ),
{
    let owner = labelled("**Owner:** "@, task.owner);
    let codes = id_codes(task.after);
    let first = joined_line("**Prerequisites:** "@, codes, ", "@);
    let after = joined_line("**Unblocks:** "@, id_codes(dependents(tasks, task.id)), ", "@);
    let rows = metadata_of(tasks, task);
    if let Some(text) = task.waiting {
        let part = inline_of(text);
        mentions_itself(part);
        mentioned_after("**Waiting:** "@, part, part);
        line_tells("**Waiting:** "@ + part, part);
        section_tells(tasks, task, part);
    }
    if let Some(name) = task.owner {
        let part = inline_of(name);
        mentions_itself(part);
        mentioned_after("**Owner:** "@, part, part);
        line_tells("**Owner:** "@ + part, part);
        both_tell(owner, first, part);
        both_tell(owner + first, after, part);
        metadata_tells(tasks, task, part);
        section_tells(tasks, task, part);
    }
    if 0 <= k < task.after.len() {
        let part = "`#"@ + task.after[k] + "`"@;
        assert(codes[k] == part);
        joined_mentions(codes, ", "@, k);
        mentioned_after("**Prerequisites:** "@, joined(codes, ", "@), part);
        line_tells("**Prerequisites:** "@ + joined(codes, ", "@), part);
        both_tell(owner, first, part);
        both_tell(owner + first, after, part);
        metadata_tells(tasks, task, part);
        section_tells(tasks, task, part);
    }
    if 0 <= f < task.findings.len() && 0 <= l < lines_of(task.findings[f].text).len() {
        let finding = task.findings[f];
        let lines = lines_of(finding.text);
        let quoted = marked("> "@, lines);
        let text = joined(quoted, "\n"@);
        let part = lines[l];
        mentions_itself(part);
        mentioned_after("> "@, part, part);
        assert(quoted[l] == "> "@ + part);
        joined_mentions(quoted, "\n"@, l);
        mentioned_by_way_of(text, quoted[l], part);
        mentioned_after("*"@ + inline_of(caption_of(finding)) + "*\n\n"@, text, part);
        let notes = notes_of(task.findings);
        assert(notes[f] == note_of(finding));
        listed_line_tells(notes, f, part);
        both_tell(
            seq!["### Notes ("@ + decimal_of(task.findings.len()) + ")"@],
            notes,
            part,
        );
        section_tells(tasks, task, part);
    }
}

/// What a row of the metadata tells, its line tells.
proof fn metadata_tells(tasks: Seq<TaskModel>, task: TaskModel, part: Seq<char>)
    requires
        tells(metadata_of(tasks, task), part),
    ensures
        tells(joined_line(Seq::empty(), metadata_of(tasks, task), "  \n"@), part),
{
    let rows = metadata_of(tasks, task);
    let text = joined(rows, "  \n"@);
    joined_lines_tell(rows, "  \n"@, part);
    assert(rows.len() > 0) by {
        reveal(tells);
    }
    mentioned_after(Seq::empty(), text, part);
    line_tells(Seq::<char>::empty() + text, part);
}

} // verus!
