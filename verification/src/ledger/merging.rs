//! What a merge does to each task, told by the fields before and after.

use vstd::prelude::*;
use vstd::view::View as _;

use crate::ledger::batch::EntryModel;
use crate::ledger::effects::found_by_rows;
use crate::ledger::effects::references_resolve_to_tasks;
use crate::ledger::effects::task_at;
use crate::ledger::laws::by_time_sorts;
use crate::ledger::laws::distinct;
use crate::ledger::merge::absorbed_into;
use crate::ledger::merge::any_absorbed;
use crate::ledger::merge::by_time;
use crate::ledger::merge::carried;
use crate::ledger::merge::carried_from;
use crate::ledger::merge::carried_one;
use crate::ledger::merge::enriched;
use crate::ledger::merge::held_elsewhere;
use crate::ledger::merge::kept_ids;
use crate::ledger::merge::merged_tasks;
use crate::ledger::merge::others_merged;
use crate::ledger::merge::prerequisites;
use crate::ledger::merge::redirected;
use crate::ledger::merge::running_refusal;
use crate::ledger::merge::sources_of;
use crate::ledger::merge::with_id;
use crate::ledger::model::FindingModel;
use crate::ledger::model::LedgerModel;
use crate::ledger::model::OriginModel;
use crate::ledger::model::Status;
use crate::ledger::model::TaskModel;
use crate::ledger::query::find;
use crate::ledger::query::has_id;
use crate::ledger::query::position;
use crate::ledger::query::position_iff;
use crate::ledger::query::resolved;
use crate::ledger::split::with_missing;
use crate::ledger::standing::kept_by_filter;
use crate::ledger::standing::rows_are_found;
use crate::ledger::standing::still_open;
use crate::table::lookup;

verus! {

/// A list with what it lacks of others holds what either holds.
pub proof fn missing_are_added(list: Seq<Seq<char>>, others: Seq<Seq<char>>, id: Seq<char>)
    ensures
        with_missing(list, others).contains(id) <==> list.contains(id) || others.contains(id),
        list.is_prefix_of(with_missing(list, others)),
    decreases others.len(),
{
    if others.len() > 0 {
        let head = others.drop_last();
        let before = with_missing(list, head);
        let all = with_missing(list, others);
        missing_are_added(list, head, id);
        if head.contains(id) {
            let k = choose|k: int| 0 <= k < head.len() && head[k] == id;
            assert(others[k] == id);
        }
        if others.contains(id) && !head.contains(id) {
            let k = choose|k: int| 0 <= k < others.len() && others[k] == id;
            if k < head.len() {
                assert(head[k] == id);
            }
        }
        assert(others[others.len() - 1] == others.last());
        if before.contains(id) {
            let k = choose|k: int| 0 <= k < before.len() && before[k] == id;
            assert(all[k] == id);
        }
        if !before.contains(others.last()) {
            assert(all[before.len() as int] == others.last());
            if all.contains(id) && !before.contains(id) {
                let k = choose|k: int| 0 <= k < all.len() && all[k] == id;
                if k < before.len() {
                    assert(before[k] == id);
                }
            }
        }
        assert(list =~= all.take(list.len() as int)) by {
            assert(list =~= before.take(list.len() as int));
        }
    } else {
        assert(list =~= list.take(list.len() as int));
    }
}

/// Some absorbed task has this prerequisite.
pub open spec fn brings(tasks: Seq<TaskModel>, absorbed: Seq<Seq<char>>, id: Seq<char>) -> bool {
    exists|k: int|
        0 <= k < absorbed.len() && has_id(tasks, #[trigger] absorbed[k]) && task_at(
            tasks,
            absorbed[k],
        ).after.contains(id)
}

/// What the absorbed tasks wait for.
proof fn prerequisites_are_brought(tasks: Seq<TaskModel>, absorbed: Seq<Seq<char>>, id: Seq<char>)
    ensures
        prerequisites(tasks, absorbed).contains(id) <==> brings(tasks, absorbed, id),
    decreases absorbed.len(),
{
    if absorbed.len() > 0 {
        let head = absorbed.drop_last();
        let last = absorbed.last();
        prerequisites_are_brought(tasks, head, id);
        position_iff(tasks, last);
        if brings(tasks, head, id) {
            let k = choose|k: int|
                0 <= k < head.len() && has_id(tasks, #[trigger] head[k]) && task_at(
                    tasks,
                    head[k],
                ).after.contains(id);
            assert(has_id(tasks, absorbed[k]));
        }
        if has_id(tasks, last) {
            missing_are_added(prerequisites(tasks, head), task_at(tasks, last).after, id);
            assert(has_id(tasks, absorbed[absorbed.len() - 1]));
        }
        if brings(tasks, absorbed, id) {
            let k = choose|k: int|
                0 <= k < absorbed.len() && has_id(tasks, #[trigger] absorbed[k]) && task_at(
                    tasks,
                    absorbed[k],
                ).after.contains(id);
            if k < head.len() {
                assert(has_id(tasks, head[k]));
            }
        }
    }
}

/// What is carried is the findings of the absorbed tasks, each with where it came from.
proof fn carried_is_theirs(tasks: Seq<TaskModel>, absorbed: Seq<Seq<char>>, finding: FindingModel)
    ensures
        carried(tasks, absorbed).contains(finding) <==> is_brought(tasks, absorbed, finding),
    decreases absorbed.len(),
{
    if absorbed.len() > 0 {
        let head = absorbed.drop_last();
        let last = absorbed.last();
        let before = carried(tasks, head);
        let all = carried(tasks, absorbed);
        carried_is_theirs(tasks, head, finding);
        position_iff(tasks, last);
        if before.contains(finding) {
            let i = choose|i: int| 0 <= i < before.len() && before[i] == finding;
            assert(all[i] == finding);
            let (k, f) = choose|k: int, f: int| #[trigger] comes_from(tasks, head, k, f, finding);
            assert(head[k] == absorbed[k]);
            assert(comes_from(tasks, absorbed, k, f, finding));
        }
        if has_id(tasks, last) {
            let source = task_at(tasks, last);
            let more = carried_from(source);
            if all.contains(finding) && !before.contains(finding) {
                let i = choose|i: int| 0 <= i < all.len() && all[i] == finding;
                if i < before.len() {
                    assert(before[i] == finding);
                }
                let f = i - before.len();
                assert(more[f] == finding);
                assert(comes_from(tasks, absorbed, absorbed.len() - 1, f, finding));
            }
        }
        if is_brought(tasks, absorbed, finding) {
            let (k, f) = choose|k: int, f: int| #[trigger]
                comes_from(tasks, absorbed, k, f, finding);
            if k < head.len() {
                assert(head[k] == absorbed[k]);
                assert(comes_from(tasks, head, k, f, finding));
            } else {
                let source = task_at(tasks, last);
                assert(carried_from(source)[f] == carried_one(source, source.findings[f]));
                assert(all[before.len() + f] == finding);
            }
        }
    }
}

/// The finding is one of an absorbed task's, with its text and time; where it did not say where it came
/// from, it says now that it came from that task.
pub open spec fn comes_from(
    tasks: Seq<TaskModel>,
    absorbed: Seq<Seq<char>>,
    k: int,
    f: int,
    finding: FindingModel,
) -> bool {
    let source = task_at(tasks, absorbed[k]);
    let own = source.findings[f];
    &&& 0 <= k < absorbed.len()
    &&& has_id(tasks, absorbed[k])
    &&& 0 <= f < source.findings.len()
    &&& finding.at == own.at
    &&& finding.text == own.text
    &&& own.from is Some ==> finding.from == own.from
    &&& own.from is None ==> finding.from == Some(
        OriginModel { task: source.id, title: source.title },
    )
}

/// The finding is one of an absorbed task's.
pub open spec fn is_brought(
    tasks: Seq<TaskModel>,
    absorbed: Seq<Seq<char>>,
    finding: FindingModel,
) -> bool {
    exists|k: int, f: int| #[trigger] comes_from(tasks, absorbed, k, f, finding)
}

/// How many findings the absorbed tasks have.
pub open spec fn findings_brought(tasks: Seq<TaskModel>, absorbed: Seq<Seq<char>>) -> nat
    decreases absorbed.len(),
{
    if absorbed.len() == 0 {
        0
    } else {
        findings_brought(tasks, absorbed.drop_last()) + if has_id(tasks, absorbed.last()) {
            task_at(tasks, absorbed.last()).findings.len()
        } else {
            0
        }
    }
}

proof fn as_many_are_carried(tasks: Seq<TaskModel>, absorbed: Seq<Seq<char>>)
    ensures
        carried(tasks, absorbed).len() == findings_brought(tasks, absorbed),
    decreases absorbed.len(),
{
    if absorbed.len() > 0 {
        as_many_are_carried(tasks, absorbed.drop_last());
        position_iff(tasks, absorbed.last());
    }
}

/// The plan after a merge, row by row.
proof fn merged_rows(
    tasks: Seq<TaskModel>,
    survivor: Seq<char>,
    absorbed: Seq<Seq<char>>,
    now: i64,
)
    requires
        has_id(tasks, survivor),
    ensures
        ({
            let others = others_merged(tasks, survivor, absorbed, now);
            let merged = merged_tasks(tasks, survivor, absorbed, now);
            let row = position(tasks, survivor)->0;
            &&& 0 <= row < tasks.len()
            &&& tasks[row].id == survivor
            &&& merged.len() == tasks.len()
            &&& others.len() == tasks.len()
            &&& merged[row] == enriched(others[row], tasks, absorbed, now)
            &&& forall|i: int| 0 <= i < tasks.len() ==> (#[trigger] tasks[i]).id == merged[i].id
            &&& forall|i: int| 0 <= i < tasks.len() && i != row ==> #[trigger] merged[i] == others[i]
        }),
{
    let others = others_merged(tasks, survivor, absorbed, now);
    assert forall|i: int| 0 <= i < tasks.len() implies (#[trigger] tasks[i]).id == others[i].id by {}
    found_by_rows(tasks, others, survivor);
    position_iff(tasks, survivor);
}

/// After a merge the survivor waits for what it waited for and for what the absorbed tasks waited for,
/// but for the absorbed ones and itself; it holds its own findings and theirs, in the order of time; it
/// is open again where it was done and absorbed open work; and otherwise it is as it was.
pub proof fn survivors_take_over(
    tasks: Seq<TaskModel>,
    survivor: Seq<char>,
    absorbed: Seq<Seq<char>>,
    now: i64,
)
    requires
        distinct(tasks),
        has_id(tasks, survivor),
        !absorbed.contains(survivor),
    ensures
        ({
            let old = task_at(tasks, survivor);
            let new = task_at(merged_tasks(tasks, survivor, absorbed, now), survivor);
            &&& new == TaskModel {
                after: new.after,
                findings: new.findings,
                status: new.status,
                updated: now,
                ..old
            }
            &&& forall|id: Seq<char>| #[trigger]
                new.after.contains(id) <==> !absorbed.contains(id) && (old.after.contains(id) || id
                    != survivor && brings(tasks, absorbed, id))
            &&& forall|finding: FindingModel| #[trigger]
                new.findings.contains(finding) <==> old.findings.contains(finding) || is_brought(
                    tasks,
                    absorbed,
                    finding,
                )
            &&& new.findings.len() == old.findings.len() + findings_brought(tasks, absorbed)
            &&& forall|i: int, j: int|
                0 <= i <= j < new.findings.len() ==> (#[trigger] new.findings[i]).at <= (
                #[trigger] new.findings[j]).at
            &&& new.status == if old.status == Status::Done && (exists|k: int|
                0 <= k < absorbed.len() && has_id(tasks, #[trigger] absorbed[k]) && still_open(
                    task_at(tasks, absorbed[k]),
                )) {
                Status::Pending
            } else {
                old.status
            }
        }),
{
    let merged = merged_tasks(tasks, survivor, absorbed, now);
    let others = others_merged(tasks, survivor, absorbed, now);
    merged_rows(tasks, survivor, absorbed, now);
    found_by_rows(tasks, merged, survivor);
    let row = position(tasks, survivor)->0;
    let old = tasks[row];
    let new = merged[row];
    assert(others[row] == old);
    let brought = prerequisites(tasks, absorbed);
    let excluded = absorbed.push(survivor);
    let wanted = kept_ids(brought, excluded);
    let both = with_missing(old.after, wanted);
    assert forall|id: Seq<char>| #[trigger] new.after.contains(id) <==> !absorbed.contains(id) && (
    old.after.contains(id) || id != survivor && brings(tasks, absorbed, id)) by {
        kept_holds(both, absorbed, id);
        missing_are_added(old.after, wanted, id);
        kept_holds(brought, excluded, id);
        prerequisites_are_brought(tasks, absorbed, id);
        if absorbed.contains(id) {
            let k = choose|k: int| 0 <= k < absorbed.len() && absorbed[k] == id;
            assert(excluded[k] == id);
        }
        if excluded.contains(id) {
            let k = choose|k: int| 0 <= k < excluded.len() && excluded[k] == id;
            if k < absorbed.len() {
                assert(absorbed[k] == id);
            }
        }
        assert(excluded[absorbed.len() as int] == survivor);
    }
    let more = carried(tasks, absorbed);
    let all = old.findings + more;
    by_time_sorts(all);
    assert forall|finding: FindingModel| #[trigger] new.findings.contains(finding)
        <==> old.findings.contains(finding) || is_brought(tasks, absorbed, finding) by {
        carried_is_theirs(tasks, absorbed, finding);
        same_members(new.findings, all, finding);
        if old.findings.contains(finding) {
            let i = choose|i: int| 0 <= i < old.findings.len() && old.findings[i] == finding;
            assert(all[i] == finding);
        }
        if more.contains(finding) {
            let i = choose|i: int| 0 <= i < more.len() && more[i] == finding;
            assert(all[old.findings.len() + i] == finding);
        }
        if all.contains(finding) {
            let i = choose|i: int| 0 <= i < all.len() && all[i] == finding;
            if i < old.findings.len() {
                assert(old.findings[i] == finding);
            } else {
                assert(more[i - old.findings.len()] == finding);
            }
        }
    }
    as_many_are_carried(tasks, absorbed);
    by_time(all).to_multiset_ensures();
    all.to_multiset_ensures();
    assert forall|k: int| 0 <= k < absorbed.len() implies (find(tasks, #[trigger] absorbed[k])
        is Some) == has_id(tasks, absorbed[k]) by {
        position_iff(tasks, absorbed[k]);
    }
}

/// Lists with the same contents hold the same.
proof fn same_members(a: Seq<FindingModel>, b: Seq<FindingModel>, finding: FindingModel)
    requires
        a.to_multiset() == b.to_multiset(),
    ensures
        a.contains(finding) == b.contains(finding),
{
    a.to_multiset_ensures();
    b.to_multiset_ensures();
    assert(a.contains(finding) <==> a.to_multiset().count(finding) > 0);
    assert(b.contains(finding) <==> b.to_multiset().count(finding) > 0);
}

/// What is kept of ids are those that are not among the others.
proof fn kept_holds(list: Seq<Seq<char>>, others: Seq<Seq<char>>, id: Seq<char>)
    ensures
        kept_ids(list, others).contains(id) <==> list.contains(id) && !others.contains(id),
    decreases list.len(),
{
    let keep = |id: Seq<char>| !others.contains(id);
    kept_by_filter(list, keep, id);
}

/// What a task other than the survivor waits for after a merge: the survivor in place of the absorbed
/// tasks, and what it waited for besides.
pub open spec fn waits_after_merge(
    old: Seq<Seq<char>>,
    new: Seq<Seq<char>>,
    survivor: Seq<char>,
    absorbed: Seq<Seq<char>>,
) -> bool {
    if exists|id: Seq<char>| #[trigger] old.contains(id) && absorbed.contains(id) {
        forall|id: Seq<char>| #[trigger]
            new.contains(id) <==> id == survivor || old.contains(id) && !absorbed.contains(id)
    } else {
        new == old
    }
}

/// A task that waited for an absorbed one waits for the survivor.
proof fn redirected_waits(
    task: TaskModel,
    survivor: Seq<char>,
    absorbed: Seq<Seq<char>>,
    now: i64,
)
    requires
        task.id != survivor,
        !absorbed.contains(survivor),
    ensures
        waits_after_merge(
            task.after,
            redirected(task, survivor, absorbed, now).after,
            survivor,
            absorbed,
        ),
{
    let old = task.after;
    let new = redirected(task, survivor, absorbed, now).after;
    if any_absorbed(old, absorbed) {
        let k = choose|k: int| 0 <= k < old.len() && absorbed.contains(#[trigger] old[k]);
        assert(old.contains(old[k]) && absorbed.contains(old[k]));
        let kept = kept_ids(old, absorbed);
        assert forall|id: Seq<char>| #[trigger] new.contains(id) <==> id == survivor
            || old.contains(id) && !absorbed.contains(id) by {
            kept_holds(old, absorbed, id);
            kept_holds(old, absorbed, survivor);
            if !kept.contains(survivor) {
                assert(new[kept.len() as int] == survivor);
                if kept.contains(id) {
                    let i = choose|i: int| 0 <= i < kept.len() && kept[i] == id;
                    assert(new[i] == id);
                }
                if new.contains(id) && id != survivor {
                    let i = choose|i: int| 0 <= i < new.len() && new[i] == id;
                    assert(kept[i] == id);
                }
            }
        }
    } else {
        if exists|id: Seq<char>| #[trigger] old.contains(id) && absorbed.contains(id) {
            let id = choose|id: Seq<char>| #[trigger] old.contains(id) && absorbed.contains(id);
            let k = choose|k: int| 0 <= k < old.len() && old[k] == id;
            assert(absorbed.contains(old[k]));
        }
    }
}

/// After a merge an absorbed task stays as a cancelled reference to the survivor, without owner or
/// wait, and keeps its title, body and findings.
pub proof fn absorbed_tasks_become_references(
    tasks: Seq<TaskModel>,
    survivor: Seq<char>,
    absorbed: Seq<Seq<char>>,
    now: i64,
    id: Seq<char>,
)
    requires
        distinct(tasks),
        has_id(tasks, survivor),
        !absorbed.contains(survivor),
        absorbed.contains(id),
        has_id(tasks, id),
    ensures
        ({
            let old = task_at(tasks, id);
            let new = task_at(merged_tasks(tasks, survivor, absorbed, now), id);
            &&& has_id(merged_tasks(tasks, survivor, absorbed, now), id)
            &&& new == TaskModel {
                after: new.after,
                status: Status::Pending,
                cancelled: Some(
                    "merged into "@ + survivor + " "@ + task_at(tasks, survivor).title,
                ),
                owner: None,
                waiting: None,
                updated: now,
                ..old
            }
            &&& waits_after_merge(old.after, new.after, survivor, absorbed)
        }),
{
    let merged = merged_tasks(tasks, survivor, absorbed, now);
    merged_rows(tasks, survivor, absorbed, now);
    found_by_rows(tasks, merged, id);
    position_iff(tasks, id);
    position_iff(tasks, survivor);
    let row = position(tasks, id)->0;
    redirected_waits(tasks[row], survivor, absorbed, now);
}

/// A merge leaves every task that is neither the survivor nor absorbed as it is, but that it waits for
/// the survivor where it waited for an absorbed one.
pub proof fn merges_leave_other_tasks_alone(
    tasks: Seq<TaskModel>,
    survivor: Seq<char>,
    absorbed: Seq<Seq<char>>,
    now: i64,
    id: Seq<char>,
)
    requires
        distinct(tasks),
        has_id(tasks, survivor),
        !absorbed.contains(survivor),
        !absorbed.contains(id),
        id != survivor,
    ensures
        ({
            let merged = merged_tasks(tasks, survivor, absorbed, now);
            let old = task_at(tasks, id);
            let new = task_at(merged, id);
            &&& has_id(merged, id) == has_id(tasks, id)
            &&& has_id(tasks, id) ==> new == TaskModel {
                after: new.after,
                updated: new.updated,
                ..old
            } && waits_after_merge(old.after, new.after, survivor, absorbed)
        }),
{
    let merged = merged_tasks(tasks, survivor, absorbed, now);
    merged_rows(tasks, survivor, absorbed, now);
    found_by_rows(tasks, merged, id);
    if has_id(tasks, id) {
        let row = position(tasks, id)->0;
        redirected_waits(tasks[row], survivor, absorbed, now);
    }
}

/// The reference names the task with this id.
pub open spec fn means(tasks: Seq<TaskModel>, reference: Seq<char>, id: Seq<char>) -> bool {
    resolved(tasks, reference) matches Some(task) && task.id == id
}

/// Some reference names the task with this id.
pub open spec fn some_means(tasks: Seq<TaskModel>, refs: Seq<Seq<char>>, id: Seq<char>) -> bool {
    exists|k: int| 0 <= k < refs.len() && means(tasks, #[trigger] refs[k], id)
}

/// What the sources of a merge name, and when they are refused.
proof fn sources_mean_tasks(tasks: Seq<TaskModel>, survivor: Seq<char>, sources: Seq<Seq<char>>)
    ensures
        sources_of(tasks, survivor, sources) is Ok <==> forall|k: int|
            0 <= k < sources.len() ==> source_fits(tasks, survivor, #[trigger] sources[k]),
        sources_of(tasks, survivor, sources) matches Ok(ids) ==> {
            &&& forall|id: Seq<char>| #[trigger]
                ids.contains(id) <==> some_means(tasks, sources, id)
            &&& ids.no_duplicates()
        },
    decreases sources.len(),
{
    if sources.len() > 0 {
        let head = sources.drop_last();
        let last = sources.last();
        sources_mean_tasks(tasks, survivor, head);
        assert(sources[sources.len() - 1] == last);
        let before = sources_of(tasks, survivor, head);
        let all = sources_of(tasks, survivor, sources);
        if all is Ok {
            assert forall|k: int| 0 <= k < sources.len() implies source_fits(
                tasks,
                survivor,
                #[trigger] sources[k],
            ) by {
                if k < head.len() {
                    assert(head[k] == sources[k]);
                    assert(source_fits(tasks, survivor, head[k]));
                }
            }
            let ids = all->Ok_0;
            let some = before->Ok_0;
            let new = resolved(tasks, last)->0.id;
            assert forall|id: Seq<char>| #[trigger] ids.contains(id) <==> some_means(
                tasks,
                sources,
                id,
            ) by {
                if some.contains(id) {
                    let i = choose|i: int| 0 <= i < some.len() && some[i] == id;
                    assert(ids[i] == id);
                    let k = choose|k: int| 0 <= k < head.len() && means(tasks, #[trigger] head[k], id);
                    assert(means(tasks, sources[k], id));
                }
                if id == new {
                    assert(means(tasks, sources[sources.len() - 1], id));
                    if !some.contains(new) {
                        assert(ids[some.len() as int] == new);
                    }
                }
                if ids.contains(id) && !some.contains(id) {
                    let i = choose|i: int| 0 <= i < ids.len() && ids[i] == id;
                    if i < some.len() {
                        assert(some[i] == id);
                    }
                }
                if some_means(tasks, sources, id) {
                    let k = choose|k: int|
                        0 <= k < sources.len() && means(tasks, #[trigger] sources[k], id);
                    if k < head.len() {
                        assert(means(tasks, head[k], id));
                    }
                }
            }
        } else if forall|k: int|
            0 <= k < sources.len() ==> source_fits(tasks, survivor, #[trigger] sources[k]) {
            assert forall|k: int| 0 <= k < head.len() implies source_fits(
                tasks,
                survivor,
                #[trigger] head[k],
            ) by {
                assert(source_fits(tasks, survivor, sources[k]));
            }
            assert(source_fits(tasks, survivor, sources[sources.len() - 1]));
        }
    }
}

/// A source of a merge names a task that is not the survivor and not abandoned.
pub open spec fn source_fits(tasks: Seq<TaskModel>, survivor: Seq<char>, source: Seq<char>) -> bool {
    resolved(tasks, source) matches Some(task) && task.id != survivor && task.cancelled is None
}

/// A worker other than the survivor's still runs the task.
pub open spec fn runs_elsewhere(ledger: LedgerModel, survivor: Seq<char>, id: Seq<char>) -> bool {
    let task = task_at(ledger.tasks, id);
    &&& has_id(ledger.tasks, id)
    &&& task.owner is Some
    &&& !(has_id(ledger.tasks, survivor) && task_at(ledger.tasks, survivor).owner == task.owner)
    &&& lookup(ledger.executions, task.owner->0) matches Some(execution) && execution.running
}

/// A merge is refused where a worker other than the survivor's still runs an absorbed task.
proof fn refused_while_running(ledger: LedgerModel, survivor: Seq<char>, absorbed: Seq<Seq<char>>)
    ensures
        running_refusal(ledger, survivor, absorbed) is Some <==> exists|k: int|
            0 <= k < absorbed.len() && runs_elsewhere(ledger, survivor, #[trigger] absorbed[k]),
    decreases absorbed.len(),
{
    if absorbed.len() > 0 {
        let rest = absorbed.skip(1);
        refused_while_running(ledger, survivor, rest);
        position_iff(ledger.tasks, absorbed[0]);
        position_iff(ledger.tasks, survivor);
        assert(held_elsewhere(ledger, survivor, absorbed[0]) == runs_elsewhere(
            ledger,
            survivor,
            absorbed[0],
        ));
        if exists|k: int|
            0 <= k < rest.len() && runs_elsewhere(ledger, survivor, #[trigger] rest[k]) {
            let k = choose|k: int|
                0 <= k < rest.len() && runs_elsewhere(ledger, survivor, #[trigger] rest[k]);
            assert(runs_elsewhere(ledger, survivor, absorbed[k + 1]));
        }
        if exists|k: int|
            0 <= k < absorbed.len() && runs_elsewhere(ledger, survivor, #[trigger] absorbed[k]) {
            let k = choose|k: int|
                0 <= k < absorbed.len() && runs_elsewhere(ledger, survivor, #[trigger] absorbed[k]);
            if k > 0 {
                assert(runs_elsewhere(ledger, survivor, rest[k - 1]));
            }
        }
    }
}

/// A merge that is accepted absorbs exactly the tasks that its sources name, each once and none of them
/// the survivor; each was there and not abandoned, and none is run by a worker other than the
/// survivor's.
pub proof fn merges_absorb_what_they_name(
    ledger: LedgerModel,
    survivor: Seq<char>,
    sources: Seq<Seq<char>>,
    now: i64,
)
    requires
        absorbed_into(ledger, survivor, sources, now) is Ok,
    ensures
        ({
            let (tasks, absorption) = absorbed_into(ledger, survivor, sources, now)->Ok_0;
            let absorbed = absorption.absorbed;
            &&& tasks == merged_tasks(ledger.tasks, survivor, absorbed, now)
            &&& absorption.survivor == survivor
            &&& absorbed.len() > 0
            &&& absorbed.no_duplicates()
            &&& !absorbed.contains(survivor)
            &&& forall|id: Seq<char>| #[trigger]
                absorbed.contains(id) <==> some_means(ledger.tasks, sources, id)
            &&& forall|k: int|
                0 <= k < sources.len() ==> source_fits(ledger.tasks, survivor, #[trigger] sources[k])
            &&& forall|k: int|
                0 <= k < absorbed.len() ==> has_id(ledger.tasks, #[trigger] absorbed[k])
                    && !runs_elsewhere(ledger, survivor, absorbed[k])
        }),
{
    sources_mean_tasks(ledger.tasks, survivor, sources);
    let absorbed = sources_of(ledger.tasks, survivor, sources)->Ok_0;
    refused_while_running(ledger, survivor, absorbed);
    assert forall|k: int| 0 <= k < absorbed.len() implies has_id(
        ledger.tasks,
        #[trigger] absorbed[k],
    ) && !runs_elsewhere(ledger, survivor, absorbed[k]) by {
        assert(absorbed.contains(absorbed[k]));
        let j = choose|j: int|
            0 <= j < sources.len() && means(ledger.tasks, #[trigger] sources[j], absorbed[k]);
        references_resolve_to_tasks(ledger.tasks, sources[j]);
    }
    if absorbed.contains(survivor) {
        let j = choose|j: int|
            0 <= j < sources.len() && means(ledger.tasks, #[trigger] sources[j], survivor);
        assert(source_fits(ledger.tasks, survivor, sources[j]));
    }
}

/// A merge is refused where it names nothing, a task that is not there, the survivor itself or an
/// abandoned task, or where a worker other than the survivor's still runs one of the tasks; and for no
/// other reason but that the plan would have no order.
pub proof fn merges_are_refused_for_a_reason(
    ledger: LedgerModel,
    survivor: Seq<char>,
    sources: Seq<Seq<char>>,
    now: i64,
)
    ensures
        ({
            let tasks = ledger.tasks;
            let fits = sources.len() > 0 && (forall|k: int|
                0 <= k < sources.len() ==> source_fits(tasks, survivor, #[trigger] sources[k]))
                && forall|id: Seq<char>| #[trigger]
                some_means(tasks, sources, id) ==> !runs_elsewhere(ledger, survivor, id);
            &&& absorbed_into(ledger, survivor, sources, now) is Ok ==> fits
            &&& fits && absorbed_into(ledger, survivor, sources, now) is Err
                ==> crate::ledger::graph::ordered(
                merged_tasks(tasks, survivor, sources_of(tasks, survivor, sources)->Ok_0, now),
            ) is Err
        }),
{
    let tasks = ledger.tasks;
    sources_mean_tasks(tasks, survivor, sources);
    if sources_of(tasks, survivor, sources) is Ok {
        let absorbed = sources_of(tasks, survivor, sources)->Ok_0;
        refused_while_running(ledger, survivor, absorbed);
        if absorbed_into(ledger, survivor, sources, now) is Ok {
            assert forall|id: Seq<char>| #[trigger]
                some_means(tasks, sources, id) implies !runs_elsewhere(ledger, survivor, id) by {
                assert(absorbed.contains(id));
                let k = choose|k: int| 0 <= k < absorbed.len() && absorbed[k] == id;
            }
        }
        if sources.len() > 0 && source_fits(tasks, survivor, sources[0]) {
            let id = resolved(tasks, sources[0])->0.id;
            assert(means(tasks, sources[0], id));
            assert(some_means(tasks, sources, id));
            assert(absorbed.contains(id));
        }
        if running_refusal(ledger, survivor, absorbed) is Some {
            let k = choose|k: int|
                0 <= k < absorbed.len() && runs_elsewhere(ledger, survivor, #[trigger] absorbed[k]);
            assert(absorbed.contains(absorbed[k]));
        }
        assert(sources.len() == 0 ==> absorbed.len() == 0);
    }
}

/// A merge stamps every task that it changes with its time.
pub proof fn merges_stamp_what_they_change(
    tasks: Seq<TaskModel>,
    survivor: Seq<char>,
    absorbed: Seq<Seq<char>>,
    now: i64,
    i: int,
)
    requires
        0 <= i < tasks.len(),
    ensures
        merged_tasks(tasks, survivor, absorbed, now).len() == tasks.len(),
        crate::ledger::effects::is_stamped(
            tasks[i],
            merged_tasks(tasks, survivor, absorbed, now)[i],
            now,
        ),
{
}

} // verus!
