//! Several tasks that turned out to be one outcome.

use vstd::prelude::*;
use vstd::string::StringExecFns;

use crate::ledger::batch::Absorption;
use crate::ledger::batch::AbsorptionModel;
use crate::ledger::graph::ordered;
use crate::ledger::model::findings_of;
use crate::ledger::model::terminal;
use crate::ledger::model::Finding;
use crate::ledger::model::FindingModel;
use crate::ledger::model::FindingOrigin;
use crate::ledger::model::Ledger;
use crate::ledger::model::LedgerModel;
use crate::ledger::model::OriginModel;
use crate::ledger::model::Status;
use crate::ledger::model::Task;
use crate::ledger::model::TaskModel;
use crate::ledger::query::filter_step;
use crate::ledger::query::find;
use crate::ledger::query::first_at;
use crate::ledger::query::position;
use crate::ledger::query::position_iff;
use crate::ledger::query::position_is;
use crate::ledger::query::resolved;
use crate::ledger::split::add_missing;
use crate::ledger::split::with_missing;
use crate::table::lookup;
use crate::table::Duplicate;
use crate::text::copy_maybe;
use crate::text::copy_texts;
use crate::text::holds;
use crate::text::maybe;
use crate::text::same;
use crate::text::same_maybe;
use crate::text::texts;

verus! {

/// A finding put among others in time order, after those of its own time.
pub open spec fn inserted(sorted: Seq<FindingModel>, finding: FindingModel) -> Seq<FindingModel>
    decreases sorted.len(),
{
    if sorted.len() == 0 || sorted.last().at <= finding.at {
        sorted.push(finding)
    } else {
        inserted(sorted.drop_last(), finding).push(sorted.last())
    }
}

/// Findings in time order; those of one time stay in the order in which they were.
pub open spec fn by_time(findings: Seq<FindingModel>) -> Seq<FindingModel>
    decreases findings.len(),
{
    if findings.len() == 0 {
        Seq::empty()
    } else {
        inserted(by_time(findings.drop_last()), findings.last())
    }
}

/// The ids that the sources of a merge name, each once, or why the merge is refused.
pub open spec fn sources_of(
    tasks: Seq<TaskModel>,
    survivor: Seq<char>,
    sources: Seq<Seq<char>>,
) -> Result<Seq<Seq<char>>, Seq<char>>
    decreases sources.len(),
{
    if sources.len() == 0 {
        Ok(Seq::empty())
    } else {
        match sources_of(tasks, survivor, sources.drop_last()) {
            Err(message) => Err(message),
            Ok(ids) => match resolved(tasks, sources.last()) {
                None => Err("merge names unknown task "@ + sources.last() + "."@),
                Some(found) => if found.id == survivor {
                    Err("a task cannot absorb itself."@)
                } else if found.cancelled is Some {
                    Err(
                        "#"@ + found.id
                            + " is already cancelled; merge live or finished work, not abandoned work."@,
                    )
                } else if ids.contains(found.id) {
                    Ok(ids)
                } else {
                    Ok(ids.push(found.id))
                },
            },
        }
    }
}

/// Another worker than the survivor's is still running the task.
pub open spec fn held_elsewhere(ledger: LedgerModel, survivor: Seq<char>, id: Seq<char>) -> bool {
    match find(ledger.tasks, id) {
        Some(source) => {
            &&& source.owner is Some
            &&& source.owner != owner_of(ledger.tasks, survivor)
            &&& lookup(ledger.executions, source.owner->0) is Some
            &&& lookup(ledger.executions, source.owner->0)->0.running
        },
        None => false,
    }
}

/// The worker that a task is delegated to.
pub open spec fn owner_of(tasks: Seq<TaskModel>, id: Seq<char>) -> Option<Seq<char>> {
    match find(tasks, id) {
        Some(task) => task.owner,
        None => None,
    }
}

/// Why the first task that another worker still runs cannot be merged.
pub open spec fn running_refusal(
    ledger: LedgerModel,
    survivor: Seq<char>,
    absorbed: Seq<Seq<char>>,
) -> Option<Seq<char>>
    decreases absorbed.len(),
{
    if absorbed.len() == 0 {
        None
    } else if held_elsewhere(ledger, survivor, absorbed[0]) {
        Some(
            "#"@ + absorbed[0] + " is still being executed by "@ + owner_of(
                ledger.tasks,
                absorbed[0],
            )->0
                + "; settle that worker before merging its outcome into another task."@,
        )
    } else {
        running_refusal(ledger, survivor, absorbed.skip(1))
    }
}

/// A finding with where it came from.
pub open spec fn carried_one(source: TaskModel, finding: FindingModel) -> FindingModel {
    FindingModel {
        from: match finding.from {
            Some(from) => Some(from),
            None => Some(OriginModel { task: source.id, title: source.title }),
        },
        ..finding
    }
}

/// The findings of a task with where they came from.
pub open spec fn carried_from(source: TaskModel) -> Seq<FindingModel> {
    Seq::new(source.findings.len(), |i: int| carried_one(source, source.findings[i]))
}

/// The findings of the absorbed tasks with where they came from.
pub open spec fn carried(tasks: Seq<TaskModel>, absorbed: Seq<Seq<char>>) -> Seq<FindingModel>
    decreases absorbed.len(),
{
    if absorbed.len() == 0 {
        Seq::empty()
    } else {
        let before = carried(tasks, absorbed.drop_last());
        match find(tasks, absorbed.last()) {
            Some(source) => before + carried_from(source),
            None => before,
        }
    }
}

/// The prerequisites of the absorbed tasks, each once.
pub open spec fn prerequisites(tasks: Seq<TaskModel>, absorbed: Seq<Seq<char>>) -> Seq<Seq<char>>
    decreases absorbed.len(),
{
    if absorbed.len() == 0 {
        Seq::empty()
    } else {
        let before = prerequisites(tasks, absorbed.drop_last());
        match find(tasks, absorbed.last()) {
            Some(source) => with_missing(before, source.after),
            None => before,
        }
    }
}

/// Some absorbed task is still open.
pub open spec fn reopens(tasks: Seq<TaskModel>, absorbed: Seq<Seq<char>>) -> bool {
    exists|k: int|
        0 <= k < absorbed.len() && find(tasks, #[trigger] absorbed[k]) is Some && !terminal(
            find(tasks, absorbed[k])->0,
        )
}

/// The ids that are not absorbed.
pub open spec fn kept_ids(list: Seq<Seq<char>>, absorbed: Seq<Seq<char>>) -> Seq<Seq<char>> {
    list.filter(|id: Seq<char>| !absorbed.contains(id))
}

/// Some id of the list is absorbed.
pub open spec fn any_absorbed(list: Seq<Seq<char>>, absorbed: Seq<Seq<char>>) -> bool {
    exists|k: int| 0 <= k < list.len() && absorbed.contains(#[trigger] list[k])
}

/// A list with an id at the end, unless it is there.
pub open spec fn with_id(list: Seq<Seq<char>>, id: Seq<char>) -> Seq<Seq<char>> {
    if list.contains(id) {
        list
    } else {
        list.push(id)
    }
}

/// A task that waited for an absorbed one waits for the survivor.
pub open spec fn redirected(
    task: TaskModel,
    survivor: Seq<char>,
    absorbed: Seq<Seq<char>>,
    now: i64,
) -> TaskModel {
    if task.id != survivor && any_absorbed(task.after, absorbed) {
        TaskModel {
            after: with_id(kept_ids(task.after, absorbed), survivor),
            updated: now,
            ..task
        }
    } else {
        task
    }
}

/// An absorbed task: a cancelled reference to the survivor.
pub open spec fn retired(
    task: TaskModel,
    survivor: Seq<char>,
    title: Seq<char>,
    now: i64,
) -> TaskModel {
    TaskModel {
        status: Status::Pending,
        cancelled: Some("merged into "@ + survivor + " "@ + title),
        owner: None,
        waiting: None,
        updated: now,
        ..task
    }
}

/// The title of the task with this id.
pub open spec fn title_at(tasks: Seq<TaskModel>, id: Seq<char>) -> Seq<char> {
    match find(tasks, id) {
        Some(task) => task.title,
        None => Seq::empty(),
    }
}

/// The rows that merging leaves beside the survivor's: dependents redirected, absorbed ones
/// retired.
pub open spec fn others_merged(
    tasks: Seq<TaskModel>,
    survivor: Seq<char>,
    absorbed: Seq<Seq<char>>,
    now: i64,
) -> Seq<TaskModel> {
    Seq::new(
        tasks.len(),
        |i: int|
            {
                let task = redirected(tasks[i], survivor, absorbed, now);
                if absorbed.contains(task.id) && first_at(tasks, task.id, i) {
                    retired(task, survivor, title_at(tasks, survivor), now)
                } else {
                    task
                }
            },
    )
}

/// The survivor, with what the absorbed tasks waited for and found; unfinished work absorbed into
/// a finished survivor reopens it.
pub open spec fn enriched(
    task: TaskModel,
    tasks: Seq<TaskModel>,
    absorbed: Seq<Seq<char>>,
    now: i64,
) -> TaskModel {
    let wanted = kept_ids(prerequisites(tasks, absorbed), absorbed.push(task.id));
    TaskModel {
        after: kept_ids(with_missing(task.after, wanted), absorbed),
        findings: by_time(task.findings + carried(tasks, absorbed)),
        status: if reopens(tasks, absorbed) && task.status == Status::Done {
            Status::Pending
        } else {
            task.status
        },
        updated: now,
        ..task
    }
}

/// The plan once the survivor has absorbed the others.
pub open spec fn merged_tasks(
    tasks: Seq<TaskModel>,
    survivor: Seq<char>,
    absorbed: Seq<Seq<char>>,
    now: i64,
) -> Seq<TaskModel> {
    let others = others_merged(tasks, survivor, absorbed, now);
    match position(others, survivor) {
        Some(row) => others.update(row, enriched(others[row], tasks, absorbed, now)),
        None => others,
    }
}

/// The plan and the absorption that a merge gives, or why it is refused.
pub open spec fn absorbed_into(
    ledger: LedgerModel,
    survivor: Seq<char>,
    sources: Seq<Seq<char>>,
    now: i64,
) -> Result<(Seq<TaskModel>, AbsorptionModel), Seq<char>> {
    match sources_of(ledger.tasks, survivor, sources) {
        Err(message) => Err(message),
        Ok(absorbed) => {
            let contracted = merged_tasks(ledger.tasks, survivor, absorbed, now);
            if absorbed.len() == 0 {
                Err("merge takes at least one other task."@)
            } else if running_refusal(ledger, survivor, absorbed) is Some {
                Err(running_refusal(ledger, survivor, absorbed)->0)
            } else {
                match ordered(contracted) {
                    Err(message) => Err(message),
                    Ok(_) => Ok((contracted, AbsorptionModel { survivor, absorbed })),
                }
            }
        },
    }
}

/// Where a finding goes among those in time order.
proof fn inserted_at(sorted: Seq<FindingModel>, finding: FindingModel, k: int)
    requires
        0 <= k <= sorted.len(),
        k > 0 ==> sorted[k - 1].at <= finding.at,
        forall|i: int| k <= i < sorted.len() ==> (#[trigger] sorted[i]).at > finding.at,
    ensures
        inserted(sorted, finding) == sorted.insert(k, finding),
    decreases sorted.len(),
{
    if k == sorted.len() {
        assert(sorted.insert(k, finding) == sorted.push(finding));
    } else {
        assert(sorted[sorted.len() - 1].at > finding.at);
        inserted_at(sorted.drop_last(), finding, k);
        assert(sorted.drop_last().insert(k, finding).push(sorted.last()) == sorted.insert(
            k,
            finding,
        ));
    }
}

/// Findings in time order; those of one time stay in the order in which they were.
fn sort_by_time(findings: &Vec<Finding>) -> (sorted: Vec<Finding>)
    ensures
        findings_of(sorted@) == by_time(findings_of(findings@)),
{
    let ghost all = findings_of(findings@);
    let mut sorted: Vec<Finding> = Vec::new();
    let mut i: usize = 0;
    assert(findings_of(sorted@) == by_time(all.take(0)));
    while i < findings.len()
        invariant
            i <= findings@.len(),
            all == findings_of(findings@),
            findings_of(sorted@) == by_time(all.take(i as int)),
        decreases findings@.len() - i,
    {
        let ghost before = findings_of(sorted@);
        let finding = findings[i].duplicate();
        assert(all.take(i + 1).drop_last() == all.take(i as int));
        let mut k: usize = sorted.len();
        while k > 0 && sorted[k - 1].at > finding.at
            invariant
                k <= sorted@.len(),
                before == findings_of(sorted@),
                finding@ == all[i as int],
                forall|j: int|
                    k <= j < sorted@.len() ==> (#[trigger] before[j]).at > all[i as int].at,
            decreases k,
        {
            assert(before[k - 1].at > all[i as int].at);
            k -= 1;
        }
        proof {
            inserted_at(before, all[i as int], k as int);
            assert(findings_of(sorted@.insert(k as int, finding)) == before.insert(
                k as int,
                finding@,
            ));
        }
        sorted.insert(k, finding);
        i += 1;
    }
    assert(all.take(all.len() as int) == all);
    sorted
}

/// The ids that are not among the others.
fn keep_ids(list: &Vec<String>, others: &Vec<String>) -> (kept: Vec<String>)
    ensures
        texts(kept@) == kept_ids(texts(list@), texts(others@)),
{
    let ghost all = texts(list@);
    let ghost keep = |id: Seq<char>| !texts(others@).contains(id);
    let mut kept: Vec<String> = Vec::new();
    let mut i: usize = 0;
    assert(all.take(0) == Seq::<Seq<char>>::empty());
    reveal(Seq::filter);
    while i < list.len()
        invariant
            i <= list@.len(),
            all == texts(list@),
            keep == (|id: Seq<char>| !texts(others@).contains(id)),
            texts(kept@) == all.take(i as int).filter(keep),
        decreases list@.len() - i,
    {
        proof {
            filter_step(all, keep, i as int);
        }
        let ghost before = kept@;
        if !holds(others, list[i].as_str()) {
            kept.push(list[i].clone());
            assert(texts(kept@) == texts(before).push(all[i as int]));
        }
        i += 1;
    }
    assert(all.take(all.len() as int) == all);
    kept
}

/// Whether some id of the list is among the others.
fn holds_any(list: &Vec<String>, others: &Vec<String>) -> (r: bool)
    ensures
        r == any_absorbed(texts(list@), texts(others@)),
{
    let mut i: usize = 0;
    while i < list.len()
        invariant
            i <= list@.len(),
            forall|j: int|
                0 <= j < i ==> !texts(others@).contains(#[trigger] texts(list@)[j]),
        decreases list@.len() - i,
    {
        if holds(others, list[i].as_str()) {
            assert(texts(others@).contains(texts(list@)[i as int]));
            return true;
        }
        i += 1;
    }
    false
}

/// Adds the findings of a task with where they came from.
fn carry(source: &Task, into: &mut Vec<Finding>)
    ensures
        findings_of(final(into)@) == findings_of(old(into)@) + carried_from(source@),
{
    let ghost start = findings_of(into@);
    let mut i: usize = 0;
    assert(start + carried_from(source@).take(0) == start);
    while i < source.findings.len()
        invariant
            i <= source.findings@.len(),
            findings_of(into@) == start + carried_from(source@).take(i as int),
        decreases source.findings@.len() - i,
    {
        let finding = &source.findings[i];
        let from = match &finding.from {
            Some(from) => from.duplicate(),
            None => FindingOrigin { task: source.id.clone(), title: source.title.clone() },
        };
        let copy = Finding { at: finding.at, text: finding.text.clone(), from: Some(from) };
        let ghost before = into@;
        into.push(copy);
        proof {
            assert(copy@ == carried_from(source@)[i as int]);
            assert(findings_of(into@) == findings_of(before).push(copy@));
            assert(start + carried_from(source@).take(i + 1) == (start + carried_from(
                source@,
            ).take(i as int)).push(copy@));
        }
        i += 1;
    }
    assert(carried_from(source@).take(source.findings@.len() as int) == carried_from(source@));
}

/// Ids decide positions: lists with the same ids have them in the same rows.
pub proof fn position_by_ids(a: Seq<TaskModel>, b: Seq<TaskModel>, id: Seq<char>)
    requires
        a.len() == b.len(),
        forall|i: int| 0 <= i < a.len() ==> (#[trigger] a[i]).id == b[i].id,
    ensures
        position(a, id) == position(b, id),
{
    position_iff(a, id);
    position_iff(b, id);
    if position(a, id) is Some {
        let row = position(a, id)->0;
        assert(b[row].id == a[row].id);
        assert forall|j: int| 0 <= j < row implies (#[trigger] b[j]).id != id by {
            assert(a[j].id != id);
        }
        assert(first_at(b, id, row));
        position_is(b, id, row);
    } else if position(b, id) is Some {
        let row = position(b, id)->0;
        assert(a[row].id == b[row].id);
    }
}

impl Ledger {
    /// The ids that the sources of a merge name, each once, or why the merge is refused.
    fn merge_sources(&self, survivor_id: &str, sources: &Vec<String>) -> (r: Result<
        Vec<String>,
        String,
    >)
        ensures
            match r {
                Ok(ids) => sources_of(self.model().tasks, survivor_id@, texts(sources@)) == Ok::<
                    Seq<Seq<char>>,
                    Seq<char>,
                >(texts(ids@)),
                Err(message) => sources_of(self.model().tasks, survivor_id@, texts(sources@))
                    == Err::<Seq<Seq<char>>, Seq<char>>(message@),
            },
    {
        let ghost tasks = self.model().tasks;
        let ghost all = texts(sources@);
        let mut absorbed: Vec<String> = Vec::new();
        let mut i: usize = 0;
        assert(texts(absorbed@) == Seq::<Seq<char>>::empty());
        while i < sources.len()
            invariant
                i <= sources@.len(),
                tasks == self.model().tasks,
                all == texts(sources@),
                sources_of(tasks, survivor_id@, all.take(i as int)) == Ok::<
                    Seq<Seq<char>>,
                    Seq<char>,
                >(texts(absorbed@)),
            decreases sources@.len() - i,
        {
            assert(all.take(i + 1).drop_last() == all.take(i as int));
            assert(all.take(i + 1).last() == all[i as int]);
            let found = self.resolve(sources[i].as_str());
            let refusal: Option<String> = match found {
                None => {
                    let mut message = "merge names unknown task ".to_string();
                    message.append(sources[i].as_str());
                    message.append(".");
                    Some(message)
                },
                Some(found) => if same(found.id.as_str(), survivor_id) {
                    Some("a task cannot absorb itself.".to_string())
                } else if found.cancelled.is_some() {
                    let mut message = "#".to_string();
                    message.append(found.id.as_str());
                    message.append(
                        " is already cancelled; merge live or finished work, not abandoned work.",
                    );
                    Some(message)
                } else {
                    let ghost before = absorbed@;
                    if !holds(&absorbed, found.id.as_str()) {
                        absorbed.push(found.id.clone());
                        assert(texts(absorbed@) == texts(before).push(found@.id));
                    }
                    None
                },
            };
            if let Some(message) = refusal {
                proof {
                    sources_stay_refused(tasks, survivor_id@, all, i + 1, message@);
                }
                return Err(message);
            }
            i += 1;
        }
        assert(all.take(all.len() as int) == all);
        Ok(absorbed)
    }

    /// Why the first task that another worker still runs cannot be merged.
    fn merge_held(&self, survivor_id: &str, absorbed: &Vec<String>) -> (refusal: Option<String>)
        ensures
            maybe(refusal) == running_refusal(self.model(), survivor_id@, texts(absorbed@)),
    {
        let ghost ledger = self.model();
        let ghost all = texts(absorbed@);
        let survivor_owner: Option<String> = match self.find_by_id(survivor_id) {
            Some(task) => copy_maybe(&task.owner),
            None => None,
        };
        let mut i: usize = 0;
        assert(all.skip(0) == all);
        while i < absorbed.len()
            invariant
                i <= absorbed@.len(),
                ledger == self.model(),
                all == texts(absorbed@),
                maybe(survivor_owner) == owner_of(ledger.tasks, survivor_id@),
                running_refusal(ledger, survivor_id@, all) == running_refusal(
                    ledger,
                    survivor_id@,
                    all.skip(i as int),
                ),
            decreases absorbed@.len() - i,
        {
            assert(all.skip(i as int).skip(1) == all.skip(i + 1));
            if let Some(source) = self.find_by_id(absorbed[i].as_str()) {
                if let Some(owner) = &source.owner {
                    let running = match self.executions.get(owner.as_str()) {
                        Some(execution) => execution.running,
                        None => false,
                    };
                    if !same_maybe(&source.owner, &survivor_owner) && running {
                        let mut message = "#".to_string();
                        message.append(absorbed[i].as_str());
                        message.append(" is still being executed by ");
                        message.append(owner.as_str());
                        message.append(
                            "; settle that worker before merging its outcome into another task.",
                        );
                        return Some(message);
                    }
                }
            }
            i += 1;
        }
        None
    }

    /// Carries the absorbed tasks' findings, prerequisites and dependents over to the survivor.
    fn rewire_merge(&mut self, survivor_id: &str, absorbed: &Vec<String>, now: i64)
        ensures
            final(self).model() == (LedgerModel {
                tasks: merged_tasks(
                    old(self).model().tasks,
                    survivor_id@,
                    texts(absorbed@),
                    now,
                ),
                ..old(self).model()
            }),
    {
        let ghost tasks = self.model().tasks;
        let ghost gone = texts(absorbed@);
        let survivor_title = match self.find_by_id(survivor_id) {
            Some(task) => task.title.clone(),
            None => String::new(),
        };
        let mut carried_over: Vec<Finding> = Vec::new();
        let mut needed: Vec<String> = Vec::new();
        let mut reopen: bool = false;
        let mut i: usize = 0;
        assert(findings_of(carried_over@) == carried(tasks, gone.take(0)));
        assert(texts(needed@) == prerequisites(tasks, gone.take(0)));
        while i < absorbed.len()
            invariant
                i <= absorbed@.len(),
                tasks == self.model().tasks,
                gone == texts(absorbed@),
                findings_of(carried_over@) == carried(tasks, gone.take(i as int)),
                texts(needed@) == prerequisites(tasks, gone.take(i as int)),
                reopen == exists|k: int|
                    0 <= k < i && find(tasks, #[trigger] gone[k]) is Some && !terminal(
                        find(tasks, gone[k])->0,
                    ),
            decreases absorbed@.len() - i,
        {
            assert(gone.take(i + 1).drop_last() == gone.take(i as int));
            assert(gone.take(i + 1).last() == gone[i as int]);
            if let Some(source) = self.find_by_id(absorbed[i].as_str()) {
                if !source.terminal() {
                    reopen = true;
                    assert(find(tasks, gone[i as int]) is Some);
                }
                carry(source, &mut carried_over);
                add_missing(&mut needed, &source.after);
            }
            i += 1;
        }
        assert(gone.take(gone.len() as int) == gone);
        assert(reopen == reopens(tasks, gone));
        self.redirect_others(survivor_id, absorbed, survivor_title.as_str(), now);
        let ghost others = others_merged(tasks, survivor_id@, gone, now);
        let row: usize = match self.row_of(survivor_id) {
            Some(row) => row,
            None => {
                return;
            },
        };
        let ghost task = others[row as int];
        let mut excluded = copy_texts(absorbed);
        excluded.push(survivor_id.to_string());
        assert(texts(excluded@) == gone.push(survivor_id@));
        let wanted = keep_ids(&needed, &excluded);
        let mut after = copy_texts(&self.tasks[row].after);
        add_missing(&mut after, &wanted);
        let after = keep_ids(&after, absorbed);
        let ghost held = self.tasks@[row as int].findings@;
        let ghost more = carried_over@;
        self.tasks[row].findings.append(&mut carried_over);
        assert(findings_of(held + more) == findings_of(held) + findings_of(more));
        let findings = sort_by_time(&self.tasks[row].findings);
        self.tasks[row].findings = findings;
        self.tasks[row].after = after;
        if reopen && self.tasks[row].status == Status::Done {
            self.tasks[row].status = Status::Pending;
        }
        self.tasks[row].updated = now;
        proof {
            assert(self.tasks@[row as int]@ == enriched(task, tasks, gone, now));
            assert(self.model().tasks =~= others.update(
                row as int,
                enriched(task, tasks, gone, now),
            ));
        }
    }

    /// Redirects the dependents of the absorbed tasks, and retires those tasks.
    fn redirect_others(
        &mut self,
        survivor_id: &str,
        absorbed: &Vec<String>,
        survivor_title: &str,
        now: i64,
    )
        requires
            survivor_title@ == title_at(old(self).model().tasks, survivor_id@),
        ensures
            final(self).model() == (LedgerModel {
                tasks: others_merged(
                    old(self).model().tasks,
                    survivor_id@,
                    texts(absorbed@),
                    now,
                ),
                ..old(self).model()
            }),
    {
        let ghost tasks = self.model().tasks;
        let ghost gone = texts(absorbed@);
        let ghost others = others_merged(tasks, survivor_id@, gone, now);
        let mut reason = "merged into ".to_string();
        reason.append(survivor_id);
        reason.append(" ");
        reason.append(survivor_title);
        let mut i: usize = 0;
        while i < self.tasks.len()
            invariant
                i <= self.tasks@.len(),
                self.tasks@.len() == tasks.len(),
                gone == texts(absorbed@),
                others == others_merged(tasks, survivor_id@, gone, now),
                reason@ == "merged into "@ + survivor_id@ + " "@ + title_at(tasks, survivor_id@),
                self.model() == (LedgerModel { tasks: self.model().tasks, ..old(self).model() }),
                forall|j: int| 0 <= j < i ==> (#[trigger] self.tasks@[j])@ == others[j],
                forall|j: int|
                    i <= j < self.tasks@.len() ==> (#[trigger] self.tasks@[j])@ == tasks[j],
            decreases self.tasks@.len() - i,
        {
            proof {
                assert forall|j: int| 0 <= j < tasks.len() implies (
                #[trigger] self.model().tasks[j]).id == tasks[j].id by {
                    assert(self.tasks@[j]@.id == tasks[j].id);
                }
                position_by_ids(self.model().tasks, tasks, tasks[i as int].id);
                position_iff(tasks, tasks[i as int].id);
                assert(first_at(tasks, tasks[i as int].id, i as int) == (position(
                    tasks,
                    tasks[i as int].id,
                ) == Some(i as int))) by {
                    if first_at(tasks, tasks[i as int].id, i as int) {
                        position_is(tasks, tasks[i as int].id, i as int);
                    }
                }
                assert(self.tasks@[i as int]@ == tasks[i as int]);
            }
            let first = match self.row_of(self.tasks[i].id.as_str()) {
                Some(row) => row == i,
                None => false,
            };
            let ghost task = redirected(tasks[i as int], survivor_id@, gone, now);
            if !same(self.tasks[i].id.as_str(), survivor_id) && holds_any(
                &self.tasks[i].after,
                absorbed,
            ) {
                let mut after = keep_ids(&self.tasks[i].after, absorbed);
                if !holds(&after, survivor_id) {
                    let ghost before = after@;
                    after.push(survivor_id.to_string());
                    assert(texts(after@) == texts(before).push(survivor_id@));
                }
                self.tasks[i].after = after;
                self.tasks[i].updated = now;
            }
            assert(self.tasks@[i as int]@ == task);
            if first && holds(absorbed, self.tasks[i].id.as_str()) {
                self.tasks[i].status = Status::Pending;
                self.tasks[i].cancelled = Some(reason.clone());
                self.tasks[i].owner = None;
                self.tasks[i].waiting = None;
                self.tasks[i].updated = now;
            }
            assert(self.tasks@[i as int]@ == others[i as int]);
            i += 1;
        }
        assert(self.model().tasks =~= others);
    }

    /// Several tasks that turned out to be one outcome. The survivor keeps its identity; the
    /// absorbed rows stay as cancelled references so their ids still resolve to their history,
    /// their findings move over with provenance, and their dependents and prerequisites are
    /// rewired to the survivor. Unfinished work absorbed into a finished survivor reopens it.
    pub(crate) fn absorb(&mut self, survivor_id: &str, sources: &Vec<String>, now: i64) -> (r:
        Result<Absorption, String>)
        ensures
            match r {
                Ok(absorption) => {
                    &&& absorbed_into(old(self).model(), survivor_id@, texts(sources@), now)
                        == Ok::<(Seq<TaskModel>, AbsorptionModel), Seq<char>>(
                        (final(self).model().tasks, absorption@),
                    )
                    &&& final(self).model() == (LedgerModel {
                        tasks: final(self).model().tasks,
                        ..old(self).model()
                    })
                },
                Err(message) => {
                    &&& absorbed_into(old(self).model(), survivor_id@, texts(sources@), now)
                        == Err::<(Seq<TaskModel>, AbsorptionModel), Seq<char>>(message@)
                    &&& final(self).model() == old(self).model()
                },
            },
    {
        let absorbed = match self.merge_sources(survivor_id, sources) {
            Ok(absorbed) => absorbed,
            Err(message) => {
                return Err(message);
            },
        };
        assert(texts(absorbed@).len() == absorbed@.len());
        if absorbed.len() == 0 {
            return Err("merge takes at least one other task.".to_string());
        }
        if let Some(message) = self.merge_held(survivor_id, &absorbed) {
            return Err(message);
        }
        // Validate the contracted graph before touching anything.
        let mut trial = self.clone();
        trial.rewire_merge(survivor_id, &absorbed, now);
        if let Err(message) = trial.topological() {
            return Err(message);
        }
        self.rewire_merge(survivor_id, &absorbed, now);
        Ok(Absorption { survivor: survivor_id.to_string(), absorbed })
    }
}

/// A refusal of the first sources is a refusal of all.
proof fn sources_stay_refused(
    tasks: Seq<TaskModel>,
    survivor: Seq<char>,
    sources: Seq<Seq<char>>,
    n: int,
    message: Seq<char>,
)
    requires
        0 <= n <= sources.len(),
        sources_of(tasks, survivor, sources.take(n)) == Err::<Seq<Seq<char>>, Seq<char>>(message),
    ensures
        sources_of(tasks, survivor, sources) == Err::<Seq<Seq<char>>, Seq<char>>(message),
    decreases sources.len() - n,
{
    if n == sources.len() {
        assert(sources.take(n) == sources);
    } else {
        assert(sources.take(n + 1).drop_last() == sources.take(n));
        sources_stay_refused(tasks, survivor, sources, n + 1, message);
    }
}

} // verus!
