//! One task that turned out to be several.

use vstd::prelude::*;
use vstd::string::StringExecFns;

use crate::ledger::batch::Division;
use crate::ledger::batch::DivisionModel;
use crate::ledger::model::findings_of;
use crate::ledger::model::tasks_of;
use crate::ledger::model::Finding;
use crate::ledger::model::FindingModel;
use crate::ledger::model::Ledger;
use crate::ledger::model::LedgerModel;
use crate::ledger::model::Status;
use crate::ledger::model::Task;
use crate::ledger::model::TaskModel;
use crate::ledger::query::filter_step;
use crate::ledger::query::highest;
use crate::ledger::query::position;
use crate::ledger::query::problem_with;
use crate::ledger::query::title_problem;
use crate::ledger::query::titled_id;
use crate::ledger::query::titled_ids;
use crate::text::copy_texts;
use crate::text::decimal;
use crate::text::decimal_of;
use crate::text::fold;
use crate::text::folded;
use crate::text::holds;
use crate::text::join;
use crate::text::joined;
use crate::text::maybe;
use crate::text::name;
use crate::text::name_of;
use crate::text::same;
use crate::text::texts;

verus! {

/// The pieces as titles, without those that name nothing.
pub open spec fn piece_titles(pieces: Seq<Seq<char>>) -> Seq<Seq<char>> {
    Seq::new(pieces.len(), |i: int| name_of(pieces[i])).filter(|title: Seq<char>| title.len() > 0)
}

/// What is wrong with the first title that cannot be one.
pub open spec fn first_problem(titles: Seq<Seq<char>>) -> Option<Seq<char>>
    decreases titles.len(),
{
    if titles.len() == 0 {
        None
    } else {
        match problem_with(titles[0]) {
            Some(problem) => Some(problem),
            None => first_problem(titles.skip(1)),
        }
    }
}

/// A title that an earlier piece has, or another task.
pub open spec fn clashing(
    tasks: Seq<TaskModel>,
    id: Seq<char>,
    titles: Seq<Seq<char>>,
    at: int,
) -> bool {
    ||| exists|j: int| 0 <= j < at && folded(#[trigger] titles[j]) == folded(titles[at])
    ||| exists|k: int|
        0 <= k < tasks.len() && folded((#[trigger] tasks[k]).title) == folded(titles[at])
            && tasks[k].id != id
}

/// The clashing titles among the first `n`.
pub open spec fn clashes(
    tasks: Seq<TaskModel>,
    id: Seq<char>,
    titles: Seq<Seq<char>>,
    n: nat,
) -> Seq<Seq<char>>
    decreases n,
{
    if n == 0 {
        Seq::empty()
    } else {
        let before = clashes(tasks, id, titles, (n - 1) as nat);
        if clashing(tasks, id, titles, n - 1) {
            before.push(titles[n - 1])
        } else {
            before
        }
    }
}

/// A new task without content.
pub open spec fn fresh_task(
    id: Seq<char>,
    title: Seq<char>,
    after: Seq<Seq<char>>,
    now: i64,
) -> TaskModel {
    TaskModel {
        id,
        title,
        status: Status::Pending,
        after,
        cancelled: None,
        waiting: None,
        owner: None,
        body: Seq::empty(),
        findings: Seq::empty(),
        created: now,
        updated: now,
    }
}

/// The tasks that the pieces after the first become: numbered on from the highest id, with the
/// prerequisites of the task they come from.
pub open spec fn piece_tasks(
    tasks: Seq<TaskModel>,
    titles: Seq<Seq<char>>,
    after: Seq<Seq<char>>,
    now: i64,
) -> Seq<TaskModel> {
    Seq::new(
        (titles.len() - 1) as nat,
        |k: int|
            fresh_task(
                decimal_of((highest(tasks) + 1 + k) as nat),
                titles[k + 1],
                after,
                now,
            ),
    )
}

/// The ids of tasks.
pub open spec fn ids_of(tasks: Seq<TaskModel>) -> Seq<Seq<char>> {
    Seq::new(tasks.len(), |i: int| tasks[i].id)
}

/// A list with those of the others that it lacks, each once.
pub open spec fn with_missing(list: Seq<Seq<char>>, others: Seq<Seq<char>>) -> Seq<Seq<char>>
    decreases others.len(),
{
    if others.len() == 0 {
        list
    } else {
        let before = with_missing(list, others.drop_last());
        if before.contains(others.last()) {
            before
        } else {
            before.push(others.last())
        }
    }
}

/// A task that waits for `id` waits for the others too.
pub open spec fn waits_too(task: TaskModel, id: Seq<char>, others: Seq<Seq<char>>) -> TaskModel {
    if task.after.contains(id) {
        TaskModel { after: with_missing(task.after, others), ..task }
    } else {
        task
    }
}

/// The finding that tells what a task was split from.
pub open spec fn split_finding(
    from: Seq<char>,
    created: Seq<TaskModel>,
    now: i64,
) -> FindingModel {
    FindingModel {
        at: now,
        text: "Split from \""@ + from + "\"; the rest became "@ + joined(
            titled_ids(created),
            ", "@,
        ) + "."@,
        from: None,
    }
}

/// The task that was split, as the first of its pieces.
pub open spec fn first_piece(
    task: TaskModel,
    title: Seq<char>,
    created: Seq<TaskModel>,
    now: i64,
) -> TaskModel {
    TaskModel {
        title,
        updated: now,
        findings: task.findings.push(split_finding(task.title, created, now)),
        ..task
    }
}

/// The plan once the task in `row` became the given pieces: the row keeps its id, findings and
/// place; the new tasks follow it; whoever waited for it waits for them too.
pub open spec fn split_up(
    tasks: Seq<TaskModel>,
    row: int,
    titles: Seq<Seq<char>>,
    now: i64,
) -> Seq<TaskModel> {
    let task = tasks[row];
    let created = piece_tasks(tasks, titles, task.after, now);
    let retitled = tasks.update(row, first_piece(task, titles[0], created, now));
    let rewired = Seq::new(
        tasks.len(),
        |i: int| waits_too(retitled[i], task.id, ids_of(created)),
    );
    rewired.take(row + 1) + created + rewired.skip(row + 1)
}

/// Why a task cannot be split into these pieces.
pub open spec fn split_refusal(
    tasks: Seq<TaskModel>,
    id: Seq<char>,
    pieces: Seq<Seq<char>>,
) -> Option<Seq<char>> {
    let titles = piece_titles(pieces);
    let taken = clashes(tasks, id, titles, titles.len());
    if titles.len() < 2 {
        Some("splitting takes at least two pieces — for one, just change the title."@)
    } else if first_problem(titles) is Some {
        first_problem(titles)
    } else if taken.len() > 0 {
        Some(joined(taken, ", "@) + " already names another task — every piece needs its own."@)
    } else if position(tasks, id) is None {
        Some("no such task #"@ + id + "."@)
    } else {
        None
    }
}

/// The plan and the division that splitting a task gives, or why it is refused.
pub open spec fn divided(
    tasks: Seq<TaskModel>,
    id: Seq<char>,
    pieces: Seq<Seq<char>>,
    now: i64,
) -> Result<(Seq<TaskModel>, DivisionModel), Seq<char>> {
    match split_refusal(tasks, id, pieces) {
        Some(message) => Err(message),
        None => {
            let titles = piece_titles(pieces);
            let row = position(tasks, id)->0;
            let created = piece_tasks(tasks, titles, tasks[row].after, now);
            Ok(
                (
                    split_up(tasks, row, titles, now),
                    DivisionModel { task: id, from: tasks[row].title, into: ids_of(created) },
                ),
            )
        },
    }
}

/// There are enough numbers left for the tasks that splitting creates.
pub open spec fn split_fits(tasks: Seq<TaskModel>, id: Seq<char>, pieces: Seq<Seq<char>>) -> bool {
    split_refusal(tasks, id, pieces) is None ==> highest(tasks) + piece_titles(pieces).len() - 1
        <= u64::MAX
}

/// The pieces as titles, without those that name nothing.
fn titles_of(pieces: &Vec<String>) -> (titles: Vec<String>)
    ensures
        texts(titles@) == piece_titles(texts(pieces@)),
{
    let ghost named = Seq::new(pieces@.len(), |i: int| name_of(texts(pieces@)[i]));
    let ghost keep = |title: Seq<char>| title.len() > 0;
    let mut titles: Vec<String> = Vec::new();
    let mut i: usize = 0;
    assert(named.take(0) == Seq::<Seq<char>>::empty());
    reveal(Seq::filter);
    while i < pieces.len()
        invariant
            i <= pieces@.len(),
            named == Seq::new(pieces@.len(), |i: int| name_of(texts(pieces@)[i])),
            keep == (|title: Seq<char>| title.len() > 0),
            texts(titles@) == named.take(i as int).filter(keep),
        decreases pieces@.len() - i,
    {
        proof {
            filter_step(named, keep, i as int);
        }
        let ghost before = titles@;
        let title = name(pieces[i].as_str());
        if !title.as_str().is_empty() {
            titles.push(title);
            assert(texts(titles@) == texts(before).push(named[i as int]));
        }
        i += 1;
    }
    assert(named.take(named.len() as int) == named);
    assert(named == Seq::new(texts(pieces@).len(), |i: int| name_of(texts(pieces@)[i])));
    titles
}

/// What is wrong with the first title that cannot be one.
fn problem_among(titles: &Vec<String>) -> (problem: Option<String>)
    ensures
        maybe(problem) == first_problem(texts(titles@)),
{
    let ghost all = texts(titles@);
    let mut i: usize = 0;
    assert(all.skip(0) == all);
    while i < titles.len()
        invariant
            i <= titles@.len(),
            all == texts(titles@),
            first_problem(all) == first_problem(all.skip(i as int)),
        decreases titles@.len() - i,
    {
        assert(all.skip(i as int).skip(1) == all.skip(i + 1));
        let problem = title_problem(titles[i].as_str());
        if problem.is_some() {
            return problem;
        }
        i += 1;
    }
    None
}

/// A list with those of the others that it lacks, each once.
pub(crate) fn add_missing(list: &mut Vec<String>, others: &Vec<String>)
    ensures
        texts(final(list)@) == with_missing(texts(old(list)@), texts(others@)),
{
    let ghost start = texts(list@);
    let ghost more = texts(others@);
    let mut i: usize = 0;
    while i < others.len()
        invariant
            i <= others@.len(),
            more == texts(others@),
            texts(list@) == with_missing(start, more.take(i as int)),
        decreases others@.len() - i,
    {
        assert(more.take(i + 1).drop_last() == more.take(i as int));
        let ghost before = list@;
        if !holds(list, others[i].as_str()) {
            list.push(others[i].clone());
            assert(texts(list@) == texts(before).push(more[i as int]));
        }
        i += 1;
    }
    assert(more.take(more.len() as int) == more);
}

impl Ledger {
    /// Whether another piece or another task has this title.
    fn clashes_at(&self, id: &str, titles: &Vec<String>, at: usize) -> (r: bool)
        requires
            at < titles@.len(),
        ensures
            r == clashing(self.model().tasks, id@, texts(titles@), at as int),
    {
        let ghost tasks = self.model().tasks;
        let ghost all = texts(titles@);
        let wanted = fold(titles[at].as_str());
        let mut j: usize = 0;
        while j < at
            invariant
                j <= at < titles@.len(),
                all == texts(titles@),
                wanted@ == folded(all[at as int]),
                forall|i: int| 0 <= i < j ==> folded(#[trigger] all[i]) != wanted@,
            decreases at - j,
        {
            let other = fold(titles[j].as_str());
            if same(other.as_str(), wanted.as_str()) {
                assert(folded(all[j as int]) == folded(all[at as int]));
                return true;
            }
            j += 1;
        }
        let mut k: usize = 0;
        while k < self.tasks.len()
            invariant
                k <= self.tasks@.len(),
                at < titles@.len(),
                all == texts(titles@),
                tasks == self.model().tasks,
                wanted@ == folded(all[at as int]),
                forall|i: int|
                    0 <= i < k ==> folded((#[trigger] tasks[i]).title) != wanted@ || tasks[i].id
                        == id@,
            decreases self.tasks@.len() - k,
        {
            let other = fold(self.tasks[k].title.as_str());
            if same(other.as_str(), wanted.as_str()) && !same(self.tasks[k].id.as_str(), id) {
                assert(folded(tasks[k as int].title) == folded(all[at as int])
                    && tasks[k as int].id != id@);
                return true;
            }
            k += 1;
        }
        false
    }

    /// The titles that another piece or another task has.
    fn clashes_among(&self, id: &str, titles: &Vec<String>) -> (taken: Vec<String>)
        ensures
            texts(taken@) == clashes(
                self.model().tasks,
                id@,
                texts(titles@),
                texts(titles@).len(),
            ),
    {
        let mut taken: Vec<String> = Vec::new();
        let mut at: usize = 0;
        while at < titles.len()
            invariant
                at <= titles@.len(),
                texts(taken@) == clashes(self.model().tasks, id@, texts(titles@), at as nat),
            decreases titles@.len() - at,
        {
            let ghost before = taken@;
            if self.clashes_at(id, titles, at) {
                taken.push(titles[at].clone());
                assert(texts(taken@) == texts(before).push(texts(titles@)[at as int]));
            }
            at += 1;
        }
        taken
    }
}

/// A new task without content.
pub(crate) fn new_task(id: String, title: String, after: Vec<String>, now: i64) -> (task: Task)
    ensures
        task@ == fresh_task(id@, title@, texts(after@), now),
{
    let task = Task {
        id,
        title,
        status: Status::Pending,
        after,
        cancelled: None,
        waiting: None,
        owner: None,
        body: String::new(),
        findings: Vec::new(),
        created: now,
        updated: now,
    };
    assert(task@ =~= fresh_task(id@, title@, texts(after@), now));
    task
}

/// The tasks that the pieces after the first become.
fn tasks_for_pieces(top: u64, titles: &Vec<String>, after: &Vec<String>, now: i64) -> (created: Vec<
    Task,
>)
    requires
        titles@.len() > 0,
        top + titles@.len() - 1 <= u64::MAX,
    ensures
        forall|tasks: Seq<TaskModel>|
            highest(tasks) == top ==> tasks_of(created@) == #[trigger] piece_tasks(
                tasks,
                texts(titles@),
                texts(after@),
                now,
            ),
{
    let mut created: Vec<Task> = Vec::new();
    let mut k: usize = 1;
    while k < titles.len()
        invariant
            1 <= k <= titles@.len(),
            top + titles@.len() - 1 <= u64::MAX,
            created@.len() == k - 1,
            forall|j: int|
                0 <= j < k - 1 ==> (#[trigger] created@[j])@ == fresh_task(
                    decimal_of((top + 1 + j) as nat),
                    titles@[j + 1]@,
                    texts(after@),
                    now,
                ),
        decreases titles@.len() - k,
    {
        let id = decimal(top + k as u64);
        created.push(new_task(id, titles[k].clone(), copy_texts(after), now));
        k += 1;
    }
    assert forall|tasks: Seq<TaskModel>| highest(tasks) == top implies tasks_of(created@)
        == #[trigger] piece_tasks(tasks, texts(titles@), texts(after@), now) by {
        assert(tasks_of(created@) =~= piece_tasks(tasks, texts(titles@), texts(after@), now));
    }
    created
}

/// The ids of tasks.
pub(crate) fn ids_in(tasks: &Vec<Task>) -> (ids: Vec<String>)
    ensures
        texts(ids@) == ids_of(tasks_of(tasks@)),
{
    let mut ids: Vec<String> = Vec::new();
    let mut i: usize = 0;
    while i < tasks.len()
        invariant
            i <= tasks@.len(),
            ids@.len() == i,
            forall|j: int| 0 <= j < i ==> (#[trigger] ids@[j])@ == tasks@[j].id@,
        decreases tasks@.len() - i,
    {
        ids.push(tasks[i].id.clone());
        i += 1;
    }
    assert(texts(ids@) =~= ids_of(tasks_of(tasks@)));
    ids
}

/// The ids and titles of tasks.
fn titles_in(tasks: &Vec<Task>) -> (names: Vec<String>)
    ensures
        texts(names@) == titled_ids(tasks_of(tasks@)),
{
    let mut names: Vec<String> = Vec::new();
    let mut i: usize = 0;
    while i < tasks.len()
        invariant
            i <= tasks@.len(),
            names@.len() == i,
            forall|j: int| 0 <= j < i ==> (#[trigger] names@[j])@ == titled_id(tasks@[j]@),
        decreases tasks@.len() - i,
    {
        let mut line = tasks[i].id.clone();
        line.append(" ");
        line.append(tasks[i].title.as_str());
        names.push(line);
        i += 1;
    }
    assert(texts(names@) =~= titled_ids(tasks_of(tasks@)));
    names
}

impl Ledger {
    /// One task that turned out to be several. The row is kept and retitled to the first piece so
    /// its id, findings, and place in the plan survive the discovery; the pieces go right after
    /// it. Gives nothing, and changes nothing, where the numbers for new ids run out.
    pub(crate) fn divide(&mut self, id: &str, pieces: &Vec<String>, now: i64) -> (r: Result<
        Option<Division>,
        String,
    >)
        ensures
            match r {
                Ok(Some(division)) => {
                    &&& split_fits(old(self).model().tasks, id@, texts(pieces@))
                    &&& divided(old(self).model().tasks, id@, texts(pieces@), now) == Ok::<
                        (Seq<TaskModel>, DivisionModel),
                        Seq<char>,
                    >((final(self).model().tasks, division@))
                    &&& final(self).model() == (LedgerModel {
                        tasks: final(self).model().tasks,
                        ..old(self).model()
                    })
                },
                Ok(None) => {
                    &&& !split_fits(old(self).model().tasks, id@, texts(pieces@))
                    &&& final(self).model() == old(self).model()
                },
                Err(message) => {
                    &&& divided(old(self).model().tasks, id@, texts(pieces@), now) == Err::<
                        (Seq<TaskModel>, DivisionModel),
                        Seq<char>,
                    >(message@)
                    &&& final(self).model() == old(self).model()
                },
            },
    {
        let ghost tasks = self.model().tasks;
        let titles = titles_of(pieces);
        assert(texts(titles@).len() == titles@.len());
        if titles.len() < 2 {
            return Err(
                "splitting takes at least two pieces — for one, just change the title.".to_string(),
            );
        }
        if let Some(problem) = problem_among(&titles) {
            return Err(problem);
        }
        let taken = self.clashes_among(id, &titles);
        assert(texts(taken@).len() == taken@.len());
        if taken.len() > 0 {
            let mut message = join(&taken, ", ");
            message.append(" already names another task — every piece needs its own.");
            return Err(message);
        }
        let row: usize = match self.row_of(id) {
            Some(row) => row,
            None => {
                let mut message = "no such task #".to_string();
                message.append(id);
                message.append(".");
                return Err(message);
            },
        };
        let top = self.highest_id();
        if top > u64::MAX - (titles.len() - 1) as u64 {
            return Ok(None);
        }
        let ghost task = tasks[row as int];
        let from = self.tasks[row].title.clone();
        let after = copy_texts(&self.tasks[row].after);
        let mut created = tasks_for_pieces(top, &titles, &after, now);
        let ghost new_tasks = piece_tasks(tasks, texts(titles@), task.after, now);
        assert(tasks_of(created@) == new_tasks);
        let into = ids_in(&created);
        let mut text = "Split from \"".to_string();
        text.append(from.as_str());
        text.append("\"; the rest became ");
        text.append(join(&titles_in(&created), ", ").as_str());
        text.append(".");
        let finding = Finding { at: now, text, from: None };
        assert(finding@ == split_finding(task.title, new_tasks, now));
        let ghost held = self.tasks@[row as int].findings@;
        self.tasks[row].title = titles[0].clone();
        self.tasks[row].updated = now;
        self.tasks[row].findings.push(finding);
        let ghost retitled = tasks.update(
            row as int,
            first_piece(task, texts(titles@)[0], new_tasks, now),
        );
        proof {
            assert(findings_of(held.push(finding)) == findings_of(held).push(finding@));
            assert(self.model().tasks =~= retitled);
        }
        let mut i: usize = 0;
        while i < self.tasks.len()
            invariant
                i <= self.tasks@.len(),
                self.tasks@.len() == retitled.len(),
                id@ == task.id,
                texts(into@) == ids_of(new_tasks),
                self.model() == (LedgerModel { tasks: self.model().tasks, ..old(self).model() }),
                forall|j: int|
                    0 <= j < i ==> (#[trigger] self.tasks@[j])@ == waits_too(
                        retitled[j],
                        task.id,
                        ids_of(new_tasks),
                    ),
                forall|j: int|
                    i <= j < self.tasks@.len() ==> (#[trigger] self.tasks@[j])@ == retitled[j],
            decreases self.tasks@.len() - i,
        {
            if holds(&self.tasks[i].after, id) {
                add_missing(&mut self.tasks[i].after, &into);
            }
            i += 1;
        }
        let ghost rewired = Seq::new(
            tasks.len(),
            |i: int| waits_too(retitled[i], task.id, ids_of(new_tasks)),
        );
        assert(self.model().tasks =~= rewired);
        let mut tail = self.tasks.split_off(row + 1);
        self.tasks.append(&mut created);
        self.tasks.append(&mut tail);
        proof {
            assert(self.model().tasks =~= rewired.take(row + 1) + new_tasks + rewired.skip(
                row + 1,
            ));
        }
        Ok(Some(Division { task: id.to_string(), from, into }))
    }
}

} // verus!
