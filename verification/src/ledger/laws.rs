//! What every batch keeps: the identity of tasks, their findings, the order of the plan and its
//! limits.

use vstd::prelude::*;
use vstd::view::View as _;

use crate::ledger::batch::AppliedModel;
use crate::ledger::batch::EntryModel;
use crate::ledger::batch::OutcomeModel;
use crate::ledger::graph::cycle_of;
use crate::ledger::graph::first_free_at;
use crate::ledger::graph::free;
use crate::ledger::graph::next_free;
use crate::ledger::graph::ordered;
use crate::ledger::graph::scheduled;
use crate::ledger::graph::scheduled_leaves;
use crate::ledger::graph::scheduled_respects;
use crate::ledger::graph::scheduled_rows;
use crate::ledger::graph::without;
use crate::ledger::merge::by_time;
use crate::ledger::merge::carried;
use crate::ledger::merge::carried_from;
use crate::ledger::merge::carried_one;
use crate::ledger::merge::enriched;
use crate::ledger::merge::inserted;
use crate::ledger::merge::merged_tasks;
use crate::ledger::merge::others_merged;
use crate::ledger::merge::position_by_ids;
use crate::ledger::merge::sources_of;
use crate::ledger::model::FindingModel;
use crate::ledger::model::LedgerModel;
use crate::ledger::model::Status;
use crate::ledger::model::TaskModel;
use crate::ledger::model::terminal;
use crate::ledger::query::View;
use crate::ledger::query::find;
use crate::ledger::query::first_at;
use crate::ledger::query::has_id;
use crate::ledger::query::highest;
use crate::ledger::query::highest_bounds;
use crate::ledger::query::in_state;
use crate::ledger::query::position;
use crate::ledger::query::position_iff;
use crate::ledger::query::position_is;
use crate::ledger::query::resolved;
use crate::ledger::query::space_at;
use crate::ledger::query::unfinished;
use crate::ledger::split::divided;
use crate::ledger::split::first_piece;
use crate::ledger::split::fresh_task;
use crate::ledger::split::ids_of;
use crate::ledger::split::piece_tasks;
use crate::ledger::split::piece_titles;
use crate::ledger::split::split_fits;
use crate::ledger::split::split_refusal;
use crate::ledger::split::split_up;
use crate::ledger::split::waits_too;
use crate::ledger::write::Draft;
use crate::ledger::write::Target;
use crate::ledger::write::admitted;
use crate::ledger::write::after_differs;
use crate::ledger::write::after_merge;
use crate::ledger::write::after_split;
use crate::ledger::write::all_amended;
use crate::ledger::write::all_claimed;
use crate::ledger::write::all_related;
use crate::ledger::write::amended;
use crate::ledger::write::as_dependent;
use crate::ledger::write::asked_active;
use crate::ledger::write::assigned;
use crate::ledger::write::beyond;
use crate::ledger::write::changes;
use crate::ledger::write::claimed;
use crate::ledger::write::cycle_closer;
use crate::ledger::write::demoted;
use crate::ledger::write::dependents_differ;
use crate::ledger::write::edited;
use crate::ledger::write::fits;
use crate::ledger::write::has_room;
use crate::ledger::write::last_about;
use crate::ledger::write::opened;
use crate::ledger::write::overload;
use crate::ledger::write::overloader;
use crate::ledger::write::place_of;
use crate::ledger::write::premature;
use crate::ledger::write::put_in_order;
use crate::ledger::write::regrouped;
use crate::ledger::write::related;
use crate::ledger::write::related_before;
use crate::ledger::write::relation_of;
use crate::ledger::write::settled;
use crate::ledger::write::target_of;
use crate::ledger::write::touched;
use crate::ledger::write::upserted;
use crate::ledger::write::with_after;
use crate::ledger::write::with_dependents;
use crate::ledger::write::with_tasks;
use crate::ledger::write::worked;
use crate::text::all_digits;
use crate::text::decimal_injective;
use crate::text::decimal_of;
use crate::text::digit;
use crate::text::number_round_trip;
use crate::text::space;
use crate::text::trimmed;

verus! {

/// No two tasks have the same id.
pub open spec fn distinct(tasks: Seq<TaskModel>) -> bool {
    forall|i: int, j: int|
        0 <= i < j < tasks.len() ==> (#[trigger] tasks[i]).id != (#[trigger] tasks[j]).id
}

/// Every finding of the first list is in the second.
pub open spec fn includes(a: Seq<FindingModel>, b: Seq<FindingModel>) -> bool {
    forall|i: int| 0 <= i < a.len() ==> b.contains(#[trigger] a[i])
}

/// Every task of the first plan is in the second, under its id and with all its findings.
pub open spec fn keeps(a: Seq<TaskModel>, b: Seq<TaskModel>) -> bool {
    forall|id: Seq<char>| #[trigger]
        has_id(a, id) ==> has_id(b, id) && includes(
            find(a, id)->0.findings,
            find(b, id)->0.findings,
        )
}

/// What one plan keeps of another.
pub open spec fn sound(a: Seq<TaskModel>, b: Seq<TaskModel>) -> bool {
    keeps(a, b) && (distinct(a) ==> distinct(b))
}

/// Each task comes after every prerequisite of its that the plan has.
pub open spec fn in_order(tasks: Seq<TaskModel>) -> bool {
    forall|i: int, k: int|
        0 <= i < tasks.len() && 0 <= k < tasks[i].after.len() && has_id(
            tasks,
            #[trigger] tasks[i].after[k],
        ) ==> exists|j: int| 0 <= j < i && (#[trigger] tasks[j]).id == tasks[i].after[k]
}

pub(crate) proof fn sound_reflexive(a: Seq<TaskModel>)
    ensures
        sound(a, a),
{
}

pub(crate) proof fn sound_transitive(a: Seq<TaskModel>, b: Seq<TaskModel>, c: Seq<TaskModel>)
    requires
        sound(a, b),
        sound(b, c),
    ensures
        sound(a, c),
{
    assert forall|id: Seq<char>| #[trigger] has_id(a, id) implies has_id(c, id) && includes(
        find(a, id)->0.findings,
        find(c, id)->0.findings,
    ) by {
        assert(has_id(b, id));
        let fa = find(a, id)->0.findings;
        let fb = find(b, id)->0.findings;
        let fc = find(c, id)->0.findings;
        assert forall|i: int| 0 <= i < fa.len() implies fc.contains(#[trigger] fa[i]) by {
            assert(fb.contains(fa[i]));
            let j = choose|j: int| 0 <= j < fb.len() && fb[j] == fa[i];
            assert(fc.contains(fb[j]));
        }
    }
}

/// Rows that keep their ids and findings.
proof fn sound_by_rows(a: Seq<TaskModel>, b: Seq<TaskModel>)
    requires
        a.len() == b.len(),
        forall|i: int|
            0 <= i < a.len() ==> (#[trigger] a[i]).id == b[i].id && includes(
                a[i].findings,
                b[i].findings,
            ),
    ensures
        sound(a, b),
{
    assert forall|id: Seq<char>| #[trigger] has_id(a, id) implies has_id(b, id) && includes(
        find(a, id)->0.findings,
        find(b, id)->0.findings,
    ) by {
        position_by_ids(a, b, id);
        position_iff(a, id);
        position_iff(b, id);
        let row = position(a, id)->0;
        assert(a[row].id == b[row].id);
    }
    if distinct(a) {
        assert forall|i: int, j: int| 0 <= i < j < b.len() implies (#[trigger] b[i]).id != (
        #[trigger] b[j]).id by {
            assert(a[i].id == b[i].id && a[j].id == b[j].id);
        }
    }
}

/// One row changed, its id and findings kept.
proof fn sound_by_row(a: Seq<TaskModel>, row: int, task: TaskModel)
    requires
        0 <= row < a.len(),
        task.id == a[row].id,
        includes(a[row].findings, task.findings),
    ensures
        sound(a, a.update(row, task)),
{
    sound_by_rows(a, a.update(row, task));
}

/// Where the ids of the middle are new, putting it in moves tasks but loses none.
proof fn sound_by_insertion(a: Seq<TaskModel>, k: int, middle: Seq<TaskModel>)
    requires
        0 <= k <= a.len(),
        distinct(middle),
        forall|i: int| 0 <= i < middle.len() ==> !has_id(a, (#[trigger] middle[i]).id),
    ensures
        sound(a, a.take(k) + middle + a.skip(k)),
{
    let b = a.take(k) + middle + a.skip(k);
    let n = middle.len() as int;
    assert forall|i: int| 0 <= i < k implies #[trigger] b[i] == a[i] by {}
    assert forall|i: int| k <= i < k + n implies #[trigger] b[i] == middle[i - k] by {}
    assert forall|i: int| k + n <= i < b.len() implies #[trigger] b[i] == a[i - n] by {}
    assert forall|id: Seq<char>| #[trigger] has_id(a, id) implies has_id(b, id) && includes(
        find(a, id)->0.findings,
        find(b, id)->0.findings,
    ) by {
        position_iff(a, id);
        let row = position(a, id)->0;
        let moved = if row < k {
            row
        } else {
            row + n
        };
        assert(b[moved] == a[row]);
        assert forall|j: int| 0 <= j < moved implies (#[trigger] b[j]).id != id by {
            if j < k {
                assert(a[j].id != id);
            } else if j < k + n {
                assert(!has_id(a, middle[j - k].id));
            } else {
                assert(a[j - n].id != id);
            }
        }
        assert(first_at(b, id, moved));
        position_is(b, id, moved);
    }
    if distinct(a) {
        assert forall|i: int, j: int| 0 <= i < j < b.len() implies (#[trigger] b[i]).id != (
        #[trigger] b[j]).id by {
            let in_middle_i = k <= i < k + n;
            let in_middle_j = k <= j < k + n;
            let ai = if i < k {
                i
            } else {
                i - n
            };
            let aj = if j < k {
                j
            } else {
                j - n
            };
            if in_middle_i && in_middle_j {
                assert(middle[i - k].id != middle[j - k].id);
            } else if in_middle_i {
                assert(b[j] == a[aj]);
                assert(!has_id(a, middle[i - k].id));
            } else if in_middle_j {
                assert(b[i] == a[ai]);
                assert(!has_id(a, middle[j - k].id));
            } else {
                assert(a[ai].id != a[aj].id);
            }
        }
    }
}

/// A number above the highest is no task's id.
pub proof fn number_is_new(tasks: Seq<TaskModel>, n: nat)
    requires
        highest(tasks) < n <= u64::MAX,
    ensures
        !has_id(tasks, decimal_of(n)),
{
    if has_id(tasks, decimal_of(n)) {
        let i = choose|i: int| 0 <= i < tasks.len() && (#[trigger] tasks[i]).id == decimal_of(n);
        number_round_trip(n as u64);
        highest_bounds(tasks, i);
    }
}

/// Splitting loses no task and no finding, and gives new ids.
pub proof fn split_keeps(
    tasks: Seq<TaskModel>,
    id: Seq<char>,
    pieces: Seq<Seq<char>>,
    now: i64,
)
    requires
        split_refusal(tasks, id, pieces) is None,
        split_fits(tasks, id, pieces),
    ensures
        sound(tasks, divided(tasks, id, pieces, now)->Ok_0.0),
{
    position_iff(tasks, id);
    let row = position(tasks, id)->0;
    let titles = piece_titles(pieces);
    let task = tasks[row];
    let created = piece_tasks(tasks, titles, task.after, now);
    let retitled = tasks.update(row, first_piece(task, titles[0], created, now));
    let rewired = Seq::new(
        tasks.len(),
        |i: int| waits_too(retitled[i], task.id, ids_of(created)),
    );
    assert forall|i: int| 0 <= i < tasks.len() implies (#[trigger] tasks[i]).id == rewired[i].id
        && includes(tasks[i].findings, rewired[i].findings) by {
        if i == row {
            let grown = rewired[row].findings;
            assert forall|f: int| 0 <= f < task.findings.len() implies grown.contains(
                #[trigger] task.findings[f],
            ) by {
                assert(grown[f] == task.findings[f]);
            }
        }
    }
    sound_by_rows(tasks, rewired);
    assert forall|k: int| 0 <= k < created.len() implies !has_id(
        rewired,
        (#[trigger] created[k]).id,
    ) by {
        number_is_new(tasks, (highest(tasks) + 1 + k) as nat);
        if has_id(rewired, created[k].id) {
            let i = choose|i: int|
                0 <= i < rewired.len() && (#[trigger] rewired[i]).id == created[k].id;
            assert(tasks[i].id == rewired[i].id);
        }
    }
    assert(distinct(created)) by {
        assert forall|i: int, j: int| 0 <= i < j < created.len() implies (#[trigger] created[i]).id
            != (#[trigger] created[j]).id by {
            if created[i].id == created[j].id {
                decimal_injective(
                    (highest(tasks) + 1 + i) as nat,
                    (highest(tasks) + 1 + j) as nat,
                );
            }
        }
    }
    sound_by_insertion(rewired, row + 1, created);
    sound_transitive(tasks, rewired, split_up(tasks, row, titles, now));
}

/// Inserting a finding adds it and keeps the others.
proof fn inserted_includes(sorted: Seq<FindingModel>, finding: FindingModel)
    ensures
        includes(sorted, inserted(sorted, finding)),
        inserted(sorted, finding).contains(finding),
        inserted(sorted, finding).to_multiset() == sorted.to_multiset().insert(finding),
    decreases sorted.len(),
{
    broadcast use vstd::seq_lib::group_to_multiset_ensures;

    let next = inserted(sorted, finding);
    if sorted.len() == 0 || sorted.last().at <= finding.at {
        assert(next == sorted.push(finding));
        assert forall|i: int| 0 <= i < sorted.len() implies next.contains(#[trigger] sorted[i]) by {
            assert(next[i] == sorted[i]);
        }
        assert(next[sorted.len() as int] == finding);
    } else {
        let head = sorted.drop_last();
        inserted_includes(head, finding);
        assert(sorted == head.push(sorted.last()));
        let inner = inserted(head, finding);
        assert(next == inner.push(sorted.last()));
        assert forall|i: int| 0 <= i < sorted.len() implies next.contains(#[trigger] sorted[i]) by {
            if i < head.len() {
                assert(inner.contains(head[i]));
                let j = choose|j: int| 0 <= j < inner.len() && inner[j] == head[i];
                assert(next[j] == sorted[i]);
            } else {
                assert(next[inner.len() as int] == sorted[i]);
            }
        }
        let j = choose|j: int| 0 <= j < inner.len() && inner[j] == finding;
        assert(next[j] == finding);
        assert(next.to_multiset() =~= sorted.to_multiset().insert(finding));
    }
}

/// Putting findings in time order loses none, adds none, and leaves them in time order.
pub proof fn by_time_sorts(findings: Seq<FindingModel>)
    ensures
        includes(findings, by_time(findings)),
        by_time(findings).to_multiset() == findings.to_multiset(),
        forall|i: int, j: int|
            0 <= i <= j < by_time(findings).len() ==> (#[trigger] by_time(findings)[i]).at <= (
            #[trigger] by_time(findings)[j]).at,
    decreases findings.len(),
{
    broadcast use vstd::seq_lib::group_to_multiset_ensures;

    if findings.len() > 0 {
        let head = findings.drop_last();
        by_time_sorts(head);
        inserted_includes(by_time(head), findings.last());
        inserted_sorted(by_time(head), findings.last());
        assert(findings == head.push(findings.last()));
        assert forall|i: int| 0 <= i < findings.len() implies by_time(findings).contains(
            #[trigger] findings[i],
        ) by {
            if i < head.len() {
                assert(by_time(head).contains(head[i]));
                let j = choose|j: int| 0 <= j < by_time(head).len() && by_time(head)[j] == head[i];
                assert(inserted(by_time(head), findings.last()).contains(by_time(head)[j]));
            }
        }
    }
}

/// Inserting keeps the time order.
proof fn inserted_sorted(sorted: Seq<FindingModel>, finding: FindingModel)
    requires
        forall|i: int, j: int|
            0 <= i <= j < sorted.len() ==> (#[trigger] sorted[i]).at <= (#[trigger] sorted[j]).at,
    ensures
        forall|i: int, j: int|
            0 <= i <= j < inserted(sorted, finding).len() ==> (#[trigger] inserted(
                sorted,
                finding,
            )[i]).at <= (#[trigger] inserted(sorted, finding)[j]).at,
        forall|i: int|
            0 <= i < inserted(sorted, finding).len() ==> (#[trigger] inserted(
                sorted,
                finding,
            )[i]).at <= if sorted.len() > 0 && sorted.last().at > finding.at {
                sorted.last().at
            } else {
                finding.at
            },
    decreases sorted.len(),
{
    if sorted.len() == 0 || sorted.last().at <= finding.at {
        let next = sorted.push(finding);
        assert forall|i: int| 0 <= i < next.len() implies (#[trigger] next[i]).at <= finding.at by {
            if i < sorted.len() {
                assert(sorted[i].at <= sorted[sorted.len() - 1].at);
            }
        }
    } else {
        let head = sorted.drop_last();
        assert forall|i: int, j: int| 0 <= i <= j < head.len() implies (#[trigger] head[i]).at <= (
        #[trigger] head[j]).at by {
            assert(sorted[i].at <= sorted[j].at);
        }
        inserted_sorted(head, finding);
        let inner = inserted(head, finding);
        let next = inner.push(sorted.last());
        assert forall|i: int| 0 <= i < inner.len() implies (#[trigger] inner[i]).at
            <= sorted.last().at by {
            if head.len() > 0 {
                assert(sorted[head.len() - 1].at <= sorted[sorted.len() - 1].at);
            }
        }
    }
}

/// Merging loses no task and no finding.
pub proof fn merge_keeps(
    tasks: Seq<TaskModel>,
    survivor: Seq<char>,
    absorbed: Seq<Seq<char>>,
    now: i64,
)
    ensures
        sound(tasks, merged_tasks(tasks, survivor, absorbed, now)),
{
    let others = others_merged(tasks, survivor, absorbed, now);
    sound_by_rows(tasks, others);
    position_iff(others, survivor);
    if position(others, survivor) is Some {
        let row = position(others, survivor)->0;
        let next = enriched(others[row], tasks, absorbed, now);
        let held = others[row].findings;
        let all = held + carried(tasks, absorbed);
        by_time_sorts(all);
        assert forall|i: int| 0 <= i < held.len() implies next.findings.contains(
            #[trigger] held[i],
        ) by {
            assert(all[i] == held[i]);
        }
        sound_by_row(others, row, next);
        sound_transitive(tasks, others, merged_tasks(tasks, survivor, absorbed, now));
    }
}

/// An absorbed task keeps its id, as a cancelled reference to the survivor.
pub proof fn merge_retires(
    tasks: Seq<TaskModel>,
    survivor: Seq<char>,
    absorbed: Seq<Seq<char>>,
    now: i64,
    k: int,
)
    requires
        0 <= k < absorbed.len(),
        has_id(tasks, absorbed[k]),
        absorbed[k] != survivor,
    ensures
        ({
            let merged = merged_tasks(tasks, survivor, absorbed, now);
            &&& find(merged, absorbed[k]) is Some
            &&& find(merged, absorbed[k])->0.cancelled is Some
            &&& find(merged, absorbed[k])->0.status == Status::Pending
            &&& find(merged, absorbed[k])->0.owner is None
        }),
{
    let id = absorbed[k];
    let others = others_merged(tasks, survivor, absorbed, now);
    let merged = merged_tasks(tasks, survivor, absorbed, now);
    assert forall|i: int| 0 <= i < tasks.len() implies (#[trigger] tasks[i]).id == others[i].id by {}
    position_iff(tasks, id);
    position_iff(others, id);
    position_iff(others, survivor);
    position_by_ids(tasks, others, id);
    let row = position(tasks, id)->0;
    assert(absorbed.contains(id));
    assert(others[row].cancelled is Some);
    assert forall|i: int| 0 <= i < others.len() implies (#[trigger] others[i]).id
        == merged[i].id by {}
    position_by_ids(others, merged, id);
    position_iff(merged, id);
    if position(others, survivor) is Some {
        assert(position(others, survivor)->0 != row);
    }
}

/// The findings of an absorbed task reach the survivor, each with where it came from.
pub proof fn merge_carries(
    tasks: Seq<TaskModel>,
    survivor: Seq<char>,
    absorbed: Seq<Seq<char>>,
    now: i64,
    k: int,
    f: int,
)
    requires
        has_id(tasks, survivor),
        0 <= k < absorbed.len(),
        has_id(tasks, absorbed[k]),
        0 <= f < find(tasks, absorbed[k])->0.findings.len(),
    ensures
        ({
            let source = find(tasks, absorbed[k])->0;
            find(merged_tasks(tasks, survivor, absorbed, now), survivor)->0.findings.contains(
                carried_one(source, source.findings[f]),
            )
        }),
{
    let source = find(tasks, absorbed[k])->0;
    let finding = carried_one(source, source.findings[f]);
    position_iff(tasks, absorbed[k]);
    carried_holds(tasks, absorbed, k, f);
    let others = others_merged(tasks, survivor, absorbed, now);
    let merged = merged_tasks(tasks, survivor, absorbed, now);
    assert forall|i: int| 0 <= i < tasks.len() implies (#[trigger] tasks[i]).id == others[i].id by {}
    position_by_ids(tasks, others, survivor);
    position_iff(tasks, survivor);
    position_iff(others, survivor);
    let row = position(others, survivor)->0;
    assert forall|i: int| 0 <= i < others.len() implies (#[trigger] others[i]).id
        == merged[i].id by {}
    position_by_ids(others, merged, survivor);
    let brought = carried(tasks, absorbed);
    let all = others[row].findings + brought;
    let at = choose|at: int| 0 <= at < brought.len() && brought[at] == finding;
    assert(all[others[row].findings.len() + at] == finding);
    by_time_sorts(all);
    assert(by_time(all).contains(all[others[row].findings.len() + at]));
    assert(merged[row].findings == by_time(all));
}

/// What is carried holds every finding of every absorbed task.
proof fn carried_holds(tasks: Seq<TaskModel>, absorbed: Seq<Seq<char>>, k: int, f: int)
    requires
        0 <= k < absorbed.len(),
        find(tasks, absorbed[k]) is Some,
        0 <= f < find(tasks, absorbed[k])->0.findings.len(),
    ensures
        carried(tasks, absorbed).contains(
            carried_one(find(tasks, absorbed[k])->0, find(tasks, absorbed[k])->0.findings[f]),
        ),
    decreases absorbed.len(),
{
    let head = absorbed.drop_last();
    let before = carried(tasks, head);
    let source = find(tasks, absorbed[k])->0;
    let wanted = carried_one(source, source.findings[f]);
    if k == absorbed.len() - 1 {
        let all = before + carried_from(source);
        assert(all[before.len() + f] == wanted);
    } else {
        assert(head[k] == absorbed[k]);
        carried_holds(tasks, head, k, f);
        let at = choose|at: int| 0 <= at < before.len() && before[at] == wanted;
        assert(carried(tasks, absorbed)[at] == wanted);
    }
}

/// The first pass over an entry loses no task and no finding.
proof fn claimed_sound(draft: Draft, entry: EntryModel, position: int, now: i64)
    requires
        fits(draft, entry),
    ensures
        sound(draft.ledger.tasks, claimed(draft, entry, position, now).ledger.tasks),
{
    reveal(claimed);
    reveal(fits);
    let tasks = draft.ledger.tasks;
    sound_reflexive(tasks);
    match target_of(draft, entry) {
        Target::Unknown(_) => {},
        Target::Row(id) => {
            match after_split(draft, id, entry, now) {
                Err(_) => {},
                Ok(split) => {
                    if entry.split is Some
                        && crate::ledger::write::malformed(entry) is None {
                        split_keeps(tasks, id, entry.split->0, now);
                    }
                    match after_merge(split, id, entry, now) {
                        Err(_) => {},
                        Ok(merged) => {
                            if entry.merge is Some {
                                let absorbed = sources_of(
                                    split.ledger.tasks,
                                    id,
                                    entry.merge->0,
                                )->Ok_0;
                                merge_keeps(split.ledger.tasks, id, absorbed, now);
                                if crate::ledger::write::malformed(entry) is None {
                                    sound_transitive(
                                        tasks,
                                        split.ledger.tasks,
                                        merged.ledger.tasks,
                                    );
                                }
                            }
                        },
                    }
                },
            }
        },
        Target::Absent => {
            let id = decimal_of(highest(tasks) + 1);
            if crate::ledger::write::creation_refusal(entry) is None
                && crate::ledger::write::malformed(entry) is None {
                let task = fresh_task(
                    id,
                    crate::ledger::write::fresh_title(entry),
                    Seq::empty(),
                    now,
                );
                number_is_new(tasks, highest(tasks) + 1);
                sound_by_insertion(tasks, tasks.len() as int, seq![task]);
                assert(tasks.take(tasks.len() as int) + seq![task] + tasks.skip(tasks.len() as int)
                    == tasks.push(task));
            }
        },
    }
}

/// The second pass over an entry loses no task and no finding.
proof fn amended_sound(draft: Draft, entry: EntryModel, position: int, now: i64)
    ensures
        sound(draft.ledger.tasks, amended(draft, entry, position, now).ledger.tasks),
{
    reveal(amended);
    let tasks = draft.ledger.tasks;
    sound_reflexive(tasks);
    let id = crate::ledger::write::assigned(draft, position);
    if id is Some {
        position_iff(tasks, id->0);
        let found = crate::ledger::query::position(tasks, id->0);
        if found is Some {
            let row = found->0;
            let next = edited(tasks[row], id->0, entry, now);
            assert forall|i: int| 0 <= i < tasks[row].findings.len() implies next.findings.contains(
                #[trigger] tasks[row].findings[i],
            ) by {
                assert(next.findings[i] == tasks[row].findings[i]);
            }
            sound_by_row(tasks, row, next);
        }
    }
}

/// Marking a task as touched loses nothing.
proof fn touched_sound(tasks: Seq<TaskModel>, id: Seq<char>, now: i64)
    ensures
        sound(tasks, touched(tasks, id, now)),
{
    sound_reflexive(tasks);
    position_iff(tasks, id);
    if position(tasks, id) is Some {
        let row = position(tasks, id)->0;
        sound_by_row(tasks, row, TaskModel { updated: now, ..tasks[row] });
    }
}

/// Setting the dependents of a task loses nothing.
proof fn related_before_sound(
    draft: Draft,
    id: Seq<char>,
    entry: EntryModel,
    position: int,
    moved: bool,
    now: i64,
)
    ensures
        sound(
            draft.ledger.tasks,
            related_before(draft, id, entry, position, moved, now).ledger.tasks,
        ),
{
    let tasks = draft.ledger.tasks;
    sound_reflexive(tasks);
    touched_sound(tasks, id, now);
    if entry.before is Some {
        match crate::ledger::write::relation_of(tasks, id, entry.before->0, "before"@) {
            Err(_) => {},
            Ok(wanted) => {
                let next = with_dependents(tasks, id, wanted, now);
                sound_by_rows(tasks, next);
                touched_sound(next, id, now);
                sound_transitive(tasks, next, touched(next, id, now));
            },
        }
    }
}

/// The third pass over an entry loses no task and no finding.
proof fn related_sound(draft: Draft, entry: EntryModel, position: int, now: i64)
    ensures
        sound(draft.ledger.tasks, related(draft, entry, position, now).ledger.tasks),
{
    reveal(related);
    let tasks = draft.ledger.tasks;
    sound_reflexive(tasks);
    let assigned = crate::ledger::write::assigned(draft, position);
    if assigned is Some {
        let id = assigned->0;
        related_before_sound(draft, id, entry, position, false, now);
        if entry.after is Some {
            match crate::ledger::write::relation_of(tasks, id, entry.after->0, "after"@) {
                Err(_) => {},
                Ok(after) => {
                    let next = with_after(tasks, id, after);
                    position_iff(tasks, id);
                    let found = crate::ledger::query::position(tasks, id);
                    if found is Some {
                        sound_by_row(tasks, found->0, TaskModel { after, ..tasks[found->0] });
                    }
                    let moved = crate::ledger::write::after_differs(tasks, id, after);
                    let set = with_tasks(draft, next);
                    related_before_sound(set, id, entry, position, moved, now);
                    sound_transitive(
                        tasks,
                        next,
                        related_before(set, id, entry, position, moved, now).ledger.tasks,
                    );
                },
            }
        }
    }
}

/// Setting tasks back loses nothing and leaves their relations alone.
pub(crate) proof fn demoted_sound(draft: Draft, entries: Seq<EntryModel>, ids: Seq<Seq<char>>, now: i64)
    ensures
        ({
            let tasks = draft.ledger.tasks;
            let next = demoted(draft, entries, ids, now).ledger.tasks;
            &&& sound(tasks, next)
            &&& next.len() == tasks.len()
            &&& forall|i: int|
                0 <= i < tasks.len() ==> (#[trigger] next[i]).id == tasks[i].id && next[i].after
                    == tasks[i].after && next[i].cancelled == tasks[i].cancelled && (next[i].status
                    == tasks[i].status || (next[i].status == Status::Pending && ids.contains(
                    tasks[i].id,
                )))
        }),
    decreases ids.len(),
{
    let tasks = draft.ledger.tasks;
    if ids.len() == 0 {
        sound_reflexive(tasks);
    } else {
        demoted_sound(draft, entries, ids.drop_last(), now);
        let before = demoted(draft, entries, ids.drop_last(), now).ledger.tasks;
        let id = ids.last();
        position_iff(before, id);
        assert forall|i: int| ids.drop_last().contains(tasks[i].id) implies ids.contains(
            #[trigger] tasks[i].id,
        ) by {
            let k = choose|k: int|
                0 <= k < ids.drop_last().len() && ids.drop_last()[k] == tasks[i].id;
            assert(ids[k] == tasks[i].id);
        }
        if !asked_active(entries, draft.applied.outcomes, id) && position(before, id) is Some {
            let row = position(before, id)->0;
            let task = TaskModel { status: Status::Pending, updated: now, ..before[row] };
            sound_by_row(before, row, task);
            sound_transitive(tasks, before, before.update(row, task));
            assert(ids[ids.len() - 1] == id);
            assert(ids.contains(tasks[row].id));
        }
    }
}

/// Where no error comes of it, every task with one of the ids is set back.
pub(crate) proof fn demoted_resets(draft: Draft, entries: Seq<EntryModel>, ids: Seq<Seq<char>>, now: i64)
    requires
        distinct(draft.ledger.tasks),
    ensures
        ({
            let tasks = draft.ledger.tasks;
            let next = demoted(draft, entries, ids, now);
            &&& next.applied.errors.len() >= draft.applied.errors.len()
            &&& next.applied.errors.len() == draft.applied.errors.len() ==> forall|i: int|
                0 <= i < tasks.len() && ids.contains(tasks[i].id) ==> (
                #[trigger] next.ledger.tasks[i]).status == Status::Pending
        }),
    decreases ids.len(),
{
    if ids.len() > 0 {
        let tasks = draft.ledger.tasks;
        let head = ids.drop_last();
        let id = ids.last();
        demoted_resets(draft, entries, head, now);
        demoted_sound(draft, entries, head, now);
        let before = demoted(draft, entries, head, now);
        let next = demoted(draft, entries, ids, now);
        if next.applied.errors.len() == draft.applied.errors.len() {
            position_iff(before.ledger.tasks, id);
            assert forall|i: int| 0 <= i < tasks.len() && ids.contains(tasks[i].id) implies (
            #[trigger] next.ledger.tasks[i]).status == Status::Pending by {
                assert(before.ledger.tasks[i].id == tasks[i].id);
                if tasks[i].id == id {
                    let row = position(before.ledger.tasks, id)->0;
                    assert(before.ledger.tasks[row].id == tasks[row].id);
                    if row < i {
                        assert(tasks[row].id != tasks[i].id);
                    } else if i < row {
                        assert(tasks[i].id != tasks[row].id);
                    }
                } else {
                    let k = choose|k: int| 0 <= k < ids.len() && ids[k] == tasks[i].id;
                    assert(head[k] == tasks[i].id);
                    assert(head.contains(tasks[i].id));
                }
            }
        }
    }
}

/// The first row that a filter by id keeps is the one that the id finds.
pub(crate) proof fn filter_finds(tasks: Seq<TaskModel>, id: Seq<char>)
    ensures
        ({
            let group = tasks.filter(|task: TaskModel| task.id == id);
            &&& has_id(tasks, id) ==> group.len() > 0 && find(tasks, id) == Some(group[0])
            &&& !has_id(tasks, id) ==> group.len() == 0
            &&& forall|i: int| 0 <= i < group.len() ==> (#[trigger] group[i]).id == id
        }),
    decreases tasks.len(),
{
    reveal(Seq::filter);
    let keep = |task: TaskModel| task.id == id;
    if tasks.len() > 0 {
        let head = tasks.drop_last();
        filter_finds(head, id);
        position_iff(tasks, id);
        position_iff(head, id);
        if has_id(head, id) {
            let row = position(head, id)->0;
            assert forall|j: int| 0 <= j < row implies (#[trigger] tasks[j]).id != id by {
                assert(head[j].id != id);
            }
            assert(tasks[row] == head[row]);
            assert(first_at(tasks, id, row));
            position_is(tasks, id, row);
        } else if tasks.last().id == id {
            assert forall|j: int| 0 <= j < head.len() implies (#[trigger] tasks[j]).id != id by {
                assert(head[j] == tasks[j]);
            }
            assert(first_at(tasks, id, tasks.len() - 1));
            position_is(tasks, id, tasks.len() - 1);
        } else {
            if has_id(tasks, id) {
                let i = choose|i: int| 0 <= i < tasks.len() && (#[trigger] tasks[i]).id == id;
                assert(head[i].id == id);
            }
        }
    }
}

/// Among tasks with distinct ids, a filter by id keeps one.
pub(crate) proof fn filter_single(tasks: Seq<TaskModel>, id: Seq<char>)
    requires
        distinct(tasks),
        has_id(tasks, id),
    ensures
        tasks.filter(|task: TaskModel| task.id == id) == seq![find(tasks, id)->0],
    decreases tasks.len(),
{
    reveal(Seq::filter);
    let keep = |task: TaskModel| task.id == id;
    let head = tasks.drop_last();
    assert(distinct(head)) by {
        assert forall|i: int, j: int| 0 <= i < j < head.len() implies (#[trigger] head[i]).id != (
        #[trigger] head[j]).id by {
            assert(tasks[i].id != tasks[j].id);
        }
    }
    filter_finds(tasks, id);
    filter_finds(head, id);
    if has_id(head, id) {
        filter_single(head, id);
        let i = choose|i: int| 0 <= i < head.len() && (#[trigger] head[i]).id == id;
        assert(tasks[i].id != tasks[tasks.len() - 1].id);
        assert(tasks.filter(keep) == head.filter(keep));
    } else {
        assert(tasks.last().id == id) by {
            let i = choose|i: int| 0 <= i < tasks.len() && (#[trigger] tasks[i]).id == id;
            if i < head.len() {
                assert(head[i].id == id);
            }
        }
        assert(tasks.filter(keep) == Seq::<TaskModel>::empty().push(tasks.last()));
    }
}

/// Putting rows in the order of their ids keeps what the ids find.
pub(crate) proof fn regrouped_finds(tasks: Seq<TaskModel>, order: Seq<Seq<char>>, id: Seq<char>)
    ensures
        has_id(regrouped(tasks, order), id) == (order.contains(id) && has_id(tasks, id)),
        order.contains(id) && has_id(tasks, id) ==> find(regrouped(tasks, order), id) == find(
            tasks,
            id,
        ),
    decreases order.len(),
{
    let all = regrouped(tasks, order);
    if order.len() > 0 {
        let head = order.drop_last();
        let before = regrouped(tasks, head);
        let group = tasks.filter(|task: TaskModel| task.id == order.last());
        regrouped_finds(tasks, head, id);
        filter_finds(tasks, order.last());
        assert(all == before + group);
        position_iff(before, id);
        position_iff(all, id);
        if head.contains(id) {
            let k = choose|k: int| 0 <= k < head.len() && head[k] == id;
            assert(order[k] == id);
        }
        if has_id(before, id) {
            let row = position(before, id)->0;
            assert forall|j: int| 0 <= j < row implies (#[trigger] all[j]).id != id by {
                assert(before[j].id != id);
            }
            assert(all[row] == before[row]);
            assert(first_at(all, id, row));
            position_is(all, id, row);
        } else if order.last() == id && has_id(tasks, id) {
            let row = before.len() as int;
            assert(all[row] == group[0]);
            assert forall|j: int| 0 <= j < row implies (#[trigger] all[j]).id != id by {
                assert(all[j] == before[j]);
            }
            assert(first_at(all, id, row));
            position_is(all, id, row);
            assert(order[order.len() - 1] == id);
        } else {
            if has_id(all, id) {
                let i = choose|i: int| 0 <= i < all.len() && (#[trigger] all[i]).id == id;
                if i < before.len() {
                    assert(before[i].id == id);
                } else {
                    assert(group[i - before.len()].id == order.last());
                    filter_holds(tasks, order.last(), i - before.len());
                }
            }
            if order.contains(id) && has_id(tasks, id) {
                let k = choose|k: int| 0 <= k < order.len() && order[k] == id;
                assert(head[k] == id);
            }
        }
    }
}

/// What a filter by id keeps shows that the id is there.
pub(crate) proof fn filter_holds(tasks: Seq<TaskModel>, id: Seq<char>, i: int)
    requires
        0 <= i < tasks.filter(|task: TaskModel| task.id == id).len(),
    ensures
        has_id(tasks, id),
{
    filter_finds(tasks, id);
}

/// Among tasks with distinct ids, the rows in the order of some of their ids are those tasks.
pub(crate) proof fn regrouped_is(tasks: Seq<TaskModel>, order: Seq<TaskModel>)
    requires
        distinct(tasks),
        forall|i: int| 0 <= i < order.len() ==> tasks.contains(#[trigger] order[i]),
    ensures
        regrouped(tasks, ids_of(order)) == order,
    decreases order.len(),
{
    let ids = ids_of(order);
    if order.len() > 0 {
        let head = order.drop_last();
        let last = order.last();
        assert forall|i: int| 0 <= i < head.len() implies tasks.contains(#[trigger] head[i]) by {
            assert(head[i] == order[i]);
        }
        regrouped_is(tasks, head);
        assert(ids.drop_last() == ids_of(head));
        assert(tasks.contains(order[order.len() - 1]));
        let row = choose|row: int| 0 <= row < tasks.len() && tasks[row] == last;
        assert(tasks[row].id == last.id);
        assert(has_id(tasks, last.id));
        assert forall|j: int| 0 <= j < row implies (#[trigger] tasks[j]).id != last.id by {
            assert(tasks[j].id != tasks[row].id);
        }
        assert(first_at(tasks, last.id, row));
        position_is(tasks, last.id, row);
        filter_single(tasks, last.id);
        assert(head + seq![last] == order);
    }
}

/// A plan put in topological order keeps its tasks, and each comes after its prerequisites.
pub(crate) proof fn order_sound(tasks: Seq<TaskModel>)
    requires
        ordered(tasks) is Ok,
    ensures
        ({
            let next = regrouped(tasks, ids_of(ordered(tasks)->Ok_0));
            &&& sound(tasks, next)
            &&& distinct(tasks) ==> in_order(next)
        }),
{
    let order = scheduled(tasks).0;
    let ids = ids_of(order);
    let next = regrouped(tasks, ids);
    scheduled_leaves(tasks);
    scheduled_respects(tasks);
    assert forall|id: Seq<char>| #[trigger] has_id(tasks, id) implies has_id(next, id) && includes(
        find(tasks, id)->0.findings,
        find(next, id)->0.findings,
    ) by {
        assert(has_id(order, id));
        let k = choose|k: int| 0 <= k < order.len() && (#[trigger] order[k]).id == id;
        assert(ids[k] == id);
        regrouped_finds(tasks, ids, id);
    }
    if distinct(tasks) {
        assert forall|i: int| 0 <= i < order.len() implies tasks.contains(#[trigger] order[i]) by {
            scheduled_rows(tasks, i);
        }
        regrouped_is(tasks, order);
        assert forall|i: int, k: int|
            0 <= i < order.len() && 0 <= k < order[i].after.len() && has_id(
                order,
                #[trigger] order[i].after[k],
            ) implies exists|j: int| 0 <= j < i && (#[trigger] order[j]).id == order[i].after[k] by {
            assert(has_id(tasks, order[i].after[k]));
        }
    }
}

/// Whether tasks are unfinished does not depend on which of them are active.
pub(crate) proof fn unfinished_same(a: Seq<TaskModel>, b: Seq<TaskModel>, after: Seq<Seq<char>>)
    requires
        a.len() == b.len(),
        forall|i: int|
            0 <= i < a.len() ==> (#[trigger] a[i]).id == b[i].id && terminal(a[i]) == terminal(
                b[i],
            ),
    ensures
        unfinished(a, after).len() == unfinished(b, after).len(),
    decreases after.len(),
{
    if after.len() > 0 {
        unfinished_same(a, b, after.drop_last());
        position_by_ids(a, b, after.last());
        position_iff(a, after.last());
        if position(a, after.last()) is Some {
            assert(a[position(a, after.last())->0].id == b[position(a, after.last())->0].id);
        }
    }
}

/// The end of a batch loses no task and no finding.
pub(crate) proof fn settled_sound(
    draft: Draft,
    entries: Seq<EntryModel>,
    ran: Seq<Seq<char>>,
    now: i64,
)
    ensures
        sound(draft.ledger.tasks, settled(draft, entries, ran, now).ledger.tasks),
{
    reveal(settled);
    let tasks = draft.ledger.tasks;
    sound_reflexive(tasks);
    if draft.applied.errors.len() == 0 {
        let sorted = put_in_order(draft, entries);
        if ordered(tasks) is Ok {
            order_sound(tasks);
        }
        demoted_sound(sorted, entries, premature(sorted.ledger.tasks), now);
        sound_transitive(
            tasks,
            sorted.ledger.tasks,
            demoted(sorted, entries, premature(sorted.ledger.tasks), now).ledger.tasks,
        );
    }
}

/// The passes over a batch lose no task and no finding.
proof fn passes_sound(ledger: LedgerModel, entries: Seq<EntryModel>, n: nat, now: i64)
    requires
        has_room(ledger, entries, now),
        n <= entries.len(),
    ensures
        sound(
            ledger.tasks,
            all_claimed(opened(ledger, entries.len()), entries, n, now).ledger.tasks,
        ),
    decreases n,
{
    sound_reflexive(ledger.tasks);
    if n > 0 {
        let start = opened(ledger, entries.len());
        let before = all_claimed(start, entries, (n - 1) as nat, now);
        passes_sound(ledger, entries, (n - 1) as nat, now);
        assert(fits(before, entries[n - 1]));
        claimed_sound(before, entries[n - 1], n - 1, now);
        sound_transitive(
            ledger.tasks,
            before.ledger.tasks,
            all_claimed(start, entries, n, now).ledger.tasks,
        );
    }
}

proof fn all_amended_sound(draft: Draft, entries: Seq<EntryModel>, n: nat, now: i64)
    ensures
        sound(draft.ledger.tasks, all_amended(draft, entries, n, now).ledger.tasks),
    decreases n,
{
    sound_reflexive(draft.ledger.tasks);
    if n > 0 {
        let before = all_amended(draft, entries, (n - 1) as nat, now);
        all_amended_sound(draft, entries, (n - 1) as nat, now);
        amended_sound(before, entries[n - 1], n - 1, now);
        sound_transitive(
            draft.ledger.tasks,
            before.ledger.tasks,
            all_amended(draft, entries, n, now).ledger.tasks,
        );
    }
}

proof fn all_related_sound(draft: Draft, entries: Seq<EntryModel>, n: nat, now: i64)
    ensures
        sound(draft.ledger.tasks, all_related(draft, entries, n, now).ledger.tasks),
    decreases n,
{
    sound_reflexive(draft.ledger.tasks);
    if n > 0 {
        let before = all_related(draft, entries, (n - 1) as nat, now);
        all_related_sound(draft, entries, (n - 1) as nat, now);
        related_sound(before, entries[n - 1], n - 1, now);
        sound_transitive(
            draft.ledger.tasks,
            before.ledger.tasks,
            all_related(draft, entries, n, now).ledger.tasks,
        );
    }
}

/// The draft of a batch before its end.
pub(crate) open spec fn third_draft(ledger: LedgerModel, entries: Seq<EntryModel>, now: i64) -> Draft {
    let n = entries.len();
    all_related(
        all_amended(all_claimed(opened(ledger, n), entries, n, now), entries, n, now),
        entries,
        n,
        now,
    )
}

pub(crate) proof fn third_sound(ledger: LedgerModel, entries: Seq<EntryModel>, now: i64)
    requires
        has_room(ledger, entries, now),
    ensures
        sound(ledger.tasks, third_draft(ledger, entries, now).ledger.tasks),
{
    let n = entries.len();
    let first = all_claimed(opened(ledger, n), entries, n, now);
    let second = all_amended(first, entries, n, now);
    passes_sound(ledger, entries, n, now);
    all_amended_sound(first, entries, n, now);
    all_related_sound(second, entries, n, now);
    sound_transitive(ledger.tasks, first.ledger.tasks, second.ledger.tasks);
    sound_transitive(
        ledger.tasks,
        second.ledger.tasks,
        third_draft(ledger, entries, now).ledger.tasks,
    );
}

/// A batch with any refusal changes nothing: the ledger is as it was, and every outcome is a
/// refusal.
pub proof fn refused_batch_changes_nothing(
    ledger: LedgerModel,
    entries: Seq<EntryModel>,
    now: i64,
)
    requires
        upserted(ledger, entries, now).applied.errors.len() > 0,
    ensures
        upserted(ledger, entries, now).ledger == ledger,
        !upserted(ledger, entries, now).applied.changed,
        upserted(ledger, entries, now).applied.outcomes.len() == entries.len(),
        forall|i: int|
            0 <= i < entries.len() ==> (#[trigger] upserted(
                ledger,
                entries,
                now,
            ).applied.outcomes[i]).refused,
        upserted(ledger, entries, now).applied.divided.len() == 0,
        upserted(ledger, entries, now).applied.merged.len() == 0,
{
}

/// The text starts with the label of the entry at a place, or of the task that the entry was found
/// to be about.
pub open spec fn names_entry(
    error: Seq<char>,
    entries: Seq<EntryModel>,
    outcomes: Seq<OutcomeModel>,
    k: int,
) -> bool {
    ||| (place_of(entries[k], k) + ":"@).is_prefix_of(error)
    ||| outcomes[k].task is Some && ("#"@ + outcomes[k].task->0 + ":"@).is_prefix_of(error)
}

/// The text names an entry of the batch.
pub open spec fn named(
    error: Seq<char>,
    entries: Seq<EntryModel>,
    outcomes: Seq<OutcomeModel>,
) -> bool {
    exists|k: int| 0 <= k < entries.len() && #[trigger] names_entry(error, entries, outcomes, k)
}

/// Each text names an entry of the batch.
pub open spec fn all_named(
    errors: Seq<Seq<char>>,
    entries: Seq<EntryModel>,
    outcomes: Seq<OutcomeModel>,
) -> bool {
    forall|i: int| 0 <= i < errors.len() ==> named(#[trigger] errors[i], entries, outcomes)
}

/// Each text starts with the label of an entry.
spec fn all_placed(errors: Seq<Seq<char>>, entries: Seq<EntryModel>) -> bool {
    forall|i: int| 0 <= i < errors.len() ==> labelled(#[trigger] errors[i], entries)
}

spec fn labelled(error: Seq<char>, entries: Seq<EntryModel>) -> bool {
    exists|k: int| 0 <= k < entries.len() && #[trigger] placed_at(error, entries, k)
}

spec fn placed_at(error: Seq<char>, entries: Seq<EntryModel>, k: int) -> bool {
    (place_of(entries[k], k) + ":"@).is_prefix_of(error)
}

/// A label, a colon and a text start with the label and the colon.
proof fn label_leads(label: Seq<char>, why: Seq<char>)
    ensures
        (label + ":"@).is_prefix_of(label + ": "@ + why),
{
    reveal_strlit(":");
    reveal_strlit(": ");
    let whole = label + ": "@ + why;
    assert(label + ":"@ =~= whole.take((label + ":"@).len() as int));
}

/// One more text that starts with the label of an entry.
proof fn placed_push(errors: Seq<Seq<char>>, entries: Seq<EntryModel>, k: int, why: Seq<char>)
    requires
        all_placed(errors, entries),
        0 <= k < entries.len(),
    ensures
        all_placed(errors.push(place_of(entries[k], k) + ": "@ + why), entries),
{
    label_leads(place_of(entries[k], k), why);
    let error = place_of(entries[k], k) + ": "@ + why;
    let longer = errors.push(error);
    assert(placed_at(error, entries, k));
    assert(labelled(error, entries));
    assert forall|i: int| 0 <= i < longer.len() implies labelled(#[trigger] longer[i], entries) by {
        if i < errors.len() {
            assert(longer[i] == errors[i]);
        }
    }
}

/// A pass over an entry adds no error, or one that starts with the entry's label.
pub(crate) open spec fn refusal(before: Seq<Seq<char>>, after: Seq<Seq<char>>, label: Seq<char>) -> bool {
    after == before || exists|why: Seq<char>| after == before.push(#[trigger] (label + ": "@ + why))
}

proof fn refusal_placed(
    before: Seq<Seq<char>>,
    after: Seq<Seq<char>>,
    entries: Seq<EntryModel>,
    k: int,
)
    requires
        all_placed(before, entries),
        0 <= k < entries.len(),
        refusal(before, after, place_of(entries[k], k)),
    ensures
        all_placed(after, entries),
{
    if after != before {
        let why = choose|why: Seq<char>|
            after == before.push(#[trigger] (place_of(entries[k], k) + ": "@ + why));
        placed_push(before, entries, k, why);
    }
}

pub(crate) proof fn claimed_refuses(draft: Draft, entry: EntryModel, position: int, now: i64)
    ensures
        refusal(
            draft.applied.errors,
            claimed(draft, entry, position, now).applied.errors,
            place_of(entry, position),
        ),
{
    reveal(claimed);
}

pub(crate) proof fn amended_refuses(draft: Draft, entry: EntryModel, position: int, now: i64)
    ensures
        refusal(
            draft.applied.errors,
            amended(draft, entry, position, now).applied.errors,
            place_of(entry, position),
        ),
{
    reveal(amended);
}

pub(crate) proof fn related_refuses(draft: Draft, entry: EntryModel, position: int, now: i64)
    ensures
        refusal(
            draft.applied.errors,
            related(draft, entry, position, now).applied.errors,
            place_of(entry, position),
        ),
{
    reveal(related);
}

proof fn claims_placed(draft: Draft, entries: Seq<EntryModel>, n: nat, now: i64)
    requires
        n <= entries.len(),
        all_placed(draft.applied.errors, entries),
    ensures
        all_placed(all_claimed(draft, entries, n, now).applied.errors, entries),
    decreases n,
{
    if n > 0 {
        let before = all_claimed(draft, entries, (n - 1) as nat, now);
        claims_placed(draft, entries, (n - 1) as nat, now);
        claimed_refuses(before, entries[n - 1], n - 1, now);
        refusal_placed(
            before.applied.errors,
            all_claimed(draft, entries, n, now).applied.errors,
            entries,
            n - 1,
        );
    }
}

proof fn amendments_placed(draft: Draft, entries: Seq<EntryModel>, n: nat, now: i64)
    requires
        n <= entries.len(),
        all_placed(draft.applied.errors, entries),
    ensures
        all_placed(all_amended(draft, entries, n, now).applied.errors, entries),
    decreases n,
{
    if n > 0 {
        let before = all_amended(draft, entries, (n - 1) as nat, now);
        amendments_placed(draft, entries, (n - 1) as nat, now);
        amended_refuses(before, entries[n - 1], n - 1, now);
        refusal_placed(
            before.applied.errors,
            all_amended(draft, entries, n, now).applied.errors,
            entries,
            n - 1,
        );
    }
}

proof fn relations_placed(draft: Draft, entries: Seq<EntryModel>, n: nat, now: i64)
    requires
        n <= entries.len(),
        all_placed(draft.applied.errors, entries),
    ensures
        all_placed(all_related(draft, entries, n, now).applied.errors, entries),
    decreases n,
{
    if n > 0 {
        let before = all_related(draft, entries, (n - 1) as nat, now);
        relations_placed(draft, entries, (n - 1) as nat, now);
        related_refuses(before, entries[n - 1], n - 1, now);
        refusal_placed(
            before.applied.errors,
            all_related(draft, entries, n, now).applied.errors,
            entries,
            n - 1,
        );
    }
}

/// Texts that start with the label of an entry name it.
proof fn placed_are_named(
    errors: Seq<Seq<char>>,
    entries: Seq<EntryModel>,
    outcomes: Seq<OutcomeModel>,
)
    requires
        all_placed(errors, entries),
    ensures
        all_named(errors, entries, outcomes),
{
    assert forall|i: int| 0 <= i < errors.len() implies named(
        #[trigger] errors[i],
        entries,
        outcomes,
    ) by {
        assert(labelled(errors[i], entries));
        let k = choose|k: int|
            0 <= k < entries.len() && #[trigger] placed_at(errors[i], entries, k);
        assert(names_entry(errors[i], entries, outcomes, k));
    }
}

/// One more text that names an entry.
proof fn named_push(
    errors: Seq<Seq<char>>,
    error: Seq<char>,
    entries: Seq<EntryModel>,
    outcomes: Seq<OutcomeModel>,
    k: int,
)
    requires
        all_named(errors, entries, outcomes),
        0 <= k < entries.len(),
        names_entry(error, entries, outcomes, k),
    ensures
        all_named(errors.push(error), entries, outcomes),
{
    let longer = errors.push(error);
    assert(named(error, entries, outcomes));
    assert forall|i: int| 0 <= i < longer.len() implies named(
        #[trigger] longer[i],
        entries,
        outcomes,
    ) by {
        if i < errors.len() {
            assert(longer[i] == errors[i]);
        }
    }
}

proof fn demotions_named(draft: Draft, entries: Seq<EntryModel>, ids: Seq<Seq<char>>, now: i64)
    requires
        all_named(draft.applied.errors, entries, draft.applied.outcomes),
    ensures
        demoted(draft, entries, ids, now).applied.outcomes == draft.applied.outcomes,
        all_named(
            demoted(draft, entries, ids, now).applied.errors,
            entries,
            draft.applied.outcomes,
        ),
    decreases ids.len(),
{
    if ids.len() > 0 {
        let head = ids.drop_last();
        let id = ids.last();
        let outcomes = draft.applied.outcomes;
        demotions_named(draft, entries, head, now);
        if asked_active(entries, outcomes, id) {
            let error = "#"@ + id + ": an active task cannot wait for unfinished prerequisites."@;
            let k = choose|k: int|
                0 <= k < entries.len() && (#[trigger] entries[k]).status == Some("active"@)
                    && outcomes[k].task == Some(id);
            reveal_strlit(":");
            reveal_strlit(": an active task cannot wait for unfinished prerequisites.");
            assert("#"@ + id + ":"@ =~= error.take(("#"@ + id + ":"@).len() as int));
            assert(names_entry(error, entries, outcomes, k));
            named_push(
                demoted(draft, entries, head, now).applied.errors,
                error,
                entries,
                outcomes,
                k,
            );
        }
    }
}

/// The entry that is found is one of the batch.
proof fn about_within(
    entries: Seq<EntryModel>,
    outcomes: Seq<OutcomeModel>,
    ids: Seq<Seq<char>>,
    active: bool,
    n: nat,
)
    ensures
        last_about(entries, outcomes, ids, active, n) matches Some(k) ==> 0 <= k < n,
    decreases n,
{
    if n > 0 {
        about_within(entries, outcomes, ids, active, (n - 1) as nat);
    }
}

/// Every rejection names the entry: each error of a refused batch starts with the label of an entry
/// of the batch, or of the task that the entry was found to be about.
pub proof fn rejections_name_the_entry(ledger: LedgerModel, entries: Seq<EntryModel>, now: i64)
    requires
        entries.len() > 0,
    ensures
        all_named(
            upserted(ledger, entries, now).applied.errors,
            entries,
            worked(ledger, entries, now).applied.outcomes,
        ),
{
    reveal(settled);
    let n = entries.len();
    let start = opened(ledger, n);
    let first = all_claimed(start, entries, n, now);
    let second = all_amended(first, entries, n, now);
    let third = all_related(second, entries, n, now);
    let outcomes = third.applied.outcomes;
    claims_placed(start, entries, n, now);
    amendments_placed(first, entries, n, now);
    relations_placed(second, entries, n, now);
    if third.applied.errors.len() == 0 {
        let cycle = ids_of(cycle_of(third.ledger.tasks));
        let sorted = put_in_order(third, entries);
        about_within(entries, outcomes, cycle, false, n);
        if let Err(message) = ordered(third.ledger.tasks) {
            placed_push(
                third.applied.errors,
                entries,
                cycle_closer(entries, outcomes, cycle),
                message,
            );
        }
        placed_are_named(sorted.applied.errors, entries, outcomes);
        let last = demoted(sorted, entries, premature(sorted.ledger.tasks), now);
        demotions_named(sorted, entries, premature(sorted.ledger.tasks), now);
        let ran = ids_of(in_state(ledger.tasks, View::Active));
        let running = in_state(last.ledger.tasks, View::Active);
        let started = beyond(ids_of(running), ran);
        about_within(entries, outcomes, started, true, n);
        about_within(entries, outcomes, started, false, n);
        let k = overloader(entries, outcomes, started);
        let why = overload(last.ledger, running, admitted(last.ledger, ran.len()));
        label_leads(place_of(entries[k], k), why);
        let error = place_of(entries[k], k) + ": "@ + why;
        assert(names_entry(error, entries, outcomes, k));
        named_push(last.applied.errors, error, entries, outcomes, k);
    } else {
        placed_are_named(third.applied.errors, entries, outcomes);
    }
}

/// Nothing was refused and nothing changed.
spec fn idle(applied: AppliedModel) -> bool {
    applied.errors.len() == 0 && !applied.changed
}

/// A step of a batch that refused and changed nothing started from a draft that had neither, and
/// left the ledger as it was.
spec fn left_alone(before: Draft, after: Draft) -> bool {
    idle(after.applied) ==> idle(before.applied) && after.ledger == before.ledger
}

proof fn claimed_left_alone(draft: Draft, entry: EntryModel, position: int, now: i64)
    ensures
        left_alone(draft, claimed(draft, entry, position, now)),
{
    reveal(claimed);
}

/// A task that an entry does not change stays as it is.
proof fn unchanged_tasks_stay(task: TaskModel, id: Seq<char>, entry: EntryModel, now: i64)
    requires
        !changes(task, id, entry, now),
    ensures
        edited(task, id, entry, now) == task,
{
    assert(edited(task, id, entry, now) =~= task);
}

proof fn amended_left_alone(draft: Draft, entry: EntryModel, at: int, now: i64)
    ensures
        left_alone(draft, amended(draft, entry, at, now)),
{
    reveal(amended);
    let tasks = draft.ledger.tasks;
    if let Some(id) = assigned(draft, at) {
        if let Some(row) = position(tasks, id) {
            position_iff(tasks, id);
            if !changes(tasks[row], id, entry, now) {
                unchanged_tasks_stay(tasks[row], id, entry, now);
                assert(tasks.update(row, tasks[row]) =~= tasks);
            }
        }
    }
}

/// Prerequisites that do not differ stay as they are.
proof fn same_after_stays(tasks: Seq<TaskModel>, id: Seq<char>, after: Seq<Seq<char>>)
    requires
        !after_differs(tasks, id, after),
    ensures
        with_after(tasks, id, after) == tasks,
{
    position_iff(tasks, id);
    if let Some(row) = position(tasks, id) {
        assert(TaskModel { after, ..tasks[row] } =~= tasks[row]);
        assert(tasks.update(row, tasks[row]) =~= tasks);
    }
}

/// Dependents that do not differ stay as they are.
proof fn same_dependents_stay(
    tasks: Seq<TaskModel>,
    id: Seq<char>,
    wanted: Seq<Seq<char>>,
    now: i64,
)
    requires
        !dependents_differ(tasks, id, wanted),
    ensures
        with_dependents(tasks, id, wanted, now) == tasks,
{
    assert forall|i: int| 0 <= i < tasks.len() implies as_dependent(
        #[trigger] tasks[i],
        id,
        wanted,
        now,
    ) == tasks[i] by {}
    assert(with_dependents(tasks, id, wanted, now) =~= tasks);
}

proof fn related_left_alone(draft: Draft, entry: EntryModel, at: int, now: i64)
    ensures
        left_alone(draft, related(draft, entry, at, now)),
{
    reveal(related);
    let tasks = draft.ledger.tasks;
    if let Some(id) = assigned(draft, at) {
        match entry.after {
            None => {
                before_left_alone(draft, id, entry, at, false, now);
            },
            Some(field) => {
                if let Ok(after) = relation_of(tasks, id, field, "after"@) {
                    let moved = after_differs(tasks, id, after);
                    let next = with_tasks(draft, with_after(tasks, id, after));
                    before_left_alone(next, id, entry, at, moved, now);
                    if !moved {
                        same_after_stays(tasks, id, after);
                    }
                }
            },
        }
    }
}

proof fn before_left_alone(
    draft: Draft,
    id: Seq<char>,
    entry: EntryModel,
    at: int,
    moved: bool,
    now: i64,
)
    ensures
        left_alone(draft, related_before(draft, id, entry, at, moved, now)),
        idle(related_before(draft, id, entry, at, moved, now).applied) ==> !moved,
{
    let tasks = draft.ledger.tasks;
    if let Some(field) = entry.before {
        if let Ok(wanted) = relation_of(tasks, id, field, "before"@) {
            if !dependents_differ(tasks, id, wanted) {
                same_dependents_stay(tasks, id, wanted, now);
            }
        }
    }
}

proof fn claims_left_alone(draft: Draft, entries: Seq<EntryModel>, n: nat, now: i64)
    ensures
        left_alone(draft, all_claimed(draft, entries, n, now)),
    decreases n,
{
    if n > 0 {
        let before = all_claimed(draft, entries, (n - 1) as nat, now);
        claims_left_alone(draft, entries, (n - 1) as nat, now);
        claimed_left_alone(before, entries[n - 1], n - 1, now);
    }
}

proof fn amendments_left_alone(draft: Draft, entries: Seq<EntryModel>, n: nat, now: i64)
    ensures
        left_alone(draft, all_amended(draft, entries, n, now)),
    decreases n,
{
    if n > 0 {
        let before = all_amended(draft, entries, (n - 1) as nat, now);
        amendments_left_alone(draft, entries, (n - 1) as nat, now);
        amended_left_alone(before, entries[n - 1], n - 1, now);
    }
}

proof fn relations_left_alone(draft: Draft, entries: Seq<EntryModel>, n: nat, now: i64)
    ensures
        left_alone(draft, all_related(draft, entries, n, now)),
    decreases n,
{
    if n > 0 {
        let before = all_related(draft, entries, (n - 1) as nat, now);
        relations_left_alone(draft, entries, (n - 1) as nat, now);
        related_left_alone(before, entries[n - 1], n - 1, now);
    }
}

proof fn demotions_left_alone(draft: Draft, entries: Seq<EntryModel>, ids: Seq<Seq<char>>, now: i64)
    ensures
        left_alone(draft, demoted(draft, entries, ids, now)),
    decreases ids.len(),
{
    if ids.len() > 0 {
        demotions_left_alone(draft, entries, ids.drop_last(), now);
    }
}

/// The plan stands in the order that it is put in, where it has one.
pub open spec fn in_place(tasks: Seq<TaskModel>) -> bool {
    ordered(tasks) matches Ok(order) ==> regrouped(tasks, ids_of(order)) == tasks
}

/// A batch that reports no change leaves the ledger as it was, where the plan stands in its order.
pub proof fn unchanged_batches_leave_the_ledger(
    ledger: LedgerModel,
    entries: Seq<EntryModel>,
    now: i64,
)
    requires
        in_place(ledger.tasks),
        !upserted(ledger, entries, now).applied.changed,
    ensures
        upserted(ledger, entries, now).ledger == ledger,
{
    reveal(settled);
    let n = entries.len();
    let start = opened(ledger, n);
    let first = all_claimed(start, entries, n, now);
    let second = all_amended(first, entries, n, now);
    let third = all_related(second, entries, n, now);
    claims_left_alone(start, entries, n, now);
    amendments_left_alone(first, entries, n, now);
    relations_left_alone(second, entries, n, now);
    let sorted = put_in_order(third, entries);
    demotions_left_alone(sorted, entries, premature(sorted.ledger.tasks), now);
    if worked(ledger, entries, now).applied.errors.len() == 0 {
        assert(idle(sorted.applied));
        assert(third.ledger == ledger);
        assert(sorted.ledger =~= ledger);
    }
}

/// A plan in which each task comes after its prerequisites, as every accepted batch leaves it, stands
/// in the order that it is put in.
pub proof fn plans_in_order_stay_in_place(tasks: Seq<TaskModel>)
    requires
        distinct(tasks),
        in_order(tasks),
    ensures
        ordered(tasks) == Ok::<Seq<TaskModel>, Seq<char>>(tasks),
        in_place(tasks),
{
    scheduled_in_order(tasks);
    assert forall|i: int| 0 <= i < tasks.len() implies tasks.contains(#[trigger] tasks[i]) by {}
    regrouped_is(tasks, tasks);
}

/// Where tasks come after their prerequisites, the first one is free, and is the first that is.
proof fn first_is_free(tasks: Seq<TaskModel>)
    requires
        tasks.len() > 0,
        in_order(tasks),
    ensures
        next_free(tasks) == Some(0int),
{
    let after = tasks[0].after;
    assert forall|k: int| 0 <= k < after.len() implies !has_id(tasks, #[trigger] after[k]) by {
        if has_id(tasks, tasks[0].after[k]) {
            let j = choose|j: int| 0 <= j < 0 && (#[trigger] tasks[j]).id == tasks[0].after[k];
        }
    }
    assert(free(tasks, tasks[0]));
    assert(first_free_at(tasks, 0));
    let i = choose|i: int| first_free_at(tasks, i);
    assert(first_free_at(tasks, i));
    if i > 0 {
        assert(!free(tasks, tasks[0]));
    }
}

/// What follows the first task still has distinct ids, and comes after its prerequisites.
proof fn rest_in_order(tasks: Seq<TaskModel>)
    requires
        tasks.len() > 0,
        distinct(tasks),
        in_order(tasks),
    ensures
        distinct(tasks.skip(1)),
        in_order(tasks.skip(1)),
{
    let rest = tasks.skip(1);
    assert forall|i: int, j: int| 0 <= i < j < rest.len() implies (#[trigger] rest[i]).id != (
    #[trigger] rest[j]).id by {
        assert(tasks[i + 1].id != tasks[j + 1].id);
    }
    assert forall|i: int, k: int|
        0 <= i < rest.len() && 0 <= k < rest[i].after.len() && has_id(
            rest,
            #[trigger] rest[i].after[k],
        ) implies exists|j: int| 0 <= j < i && (#[trigger] rest[j]).id == rest[i].after[k] by {
        let wanted = tasks[i + 1].after[k];
        let x = choose|x: int| 0 <= x < rest.len() && (#[trigger] rest[x]).id == wanted;
        assert(tasks[x + 1].id == wanted);
        assert(has_id(tasks, wanted));
        let j = choose|j: int| 0 <= j < i + 1 && (#[trigger] tasks[j]).id == wanted;
        if j == 0 {
            assert(tasks[0].id != tasks[x + 1].id);
        }
        assert(rest[j - 1].id == wanted);
    }
}

/// Tasks that come after their prerequisites are taken in the order in which they stand.
proof fn scheduled_in_order(tasks: Seq<TaskModel>)
    requires
        distinct(tasks),
        in_order(tasks),
    ensures
        scheduled(tasks).0 == tasks,
        scheduled(tasks).1.len() == 0,
    decreases tasks.len(),
{
    if tasks.len() == 0 {
        assert(next_free(tasks) is None);
        assert(scheduled(tasks).0 =~= tasks);
    } else {
        let rest = tasks.skip(1);
        first_is_free(tasks);
        first_goes(tasks);
        rest_in_order(tasks);
        scheduled_in_order(rest);
        assert(seq![tasks[0]] + rest =~= tasks);
    }
}

/// Taking the first of tasks with distinct ids away leaves the rest.
proof fn first_goes(tasks: Seq<TaskModel>)
    requires
        tasks.len() > 0,
        distinct(tasks),
    ensures
        without(tasks, tasks[0].id) == tasks.skip(1),
    decreases tasks.len(),
{
    let keep = |task: TaskModel| task.id != tasks[0].id;
    reveal(Seq::filter);
    if tasks.len() == 1 {
        assert(tasks.drop_last() =~= Seq::<TaskModel>::empty());
        assert(Seq::<TaskModel>::empty().filter(keep) =~= Seq::<TaskModel>::empty());
        assert(tasks.last() == tasks[0]);
        assert(tasks.filter(keep) =~= tasks.skip(1));
    } else {
        let head = tasks.drop_last();
        assert forall|i: int, j: int| 0 <= i < j < head.len() implies (#[trigger] head[i]).id != (
        #[trigger] head[j]).id by {
            assert(tasks[i].id != tasks[j].id);
        }
        first_goes(head);
        assert(head[0] == tasks[0]);
        assert(tasks[0].id != tasks[tasks.len() - 1].id);
        assert(head.filter(keep) == head.skip(1)) by {
            assert(keep =~= (|task: TaskModel| task.id != head[0].id));
        }
        assert(keep(tasks.last()));
        assert(tasks.filter(keep) == head.filter(keep).push(tasks.last()));
        assert(tasks.filter(keep) =~= tasks.skip(1));
    }
}

/// What an entry leaves out stays as it is: a clearable field is cleared only where the entry says
/// so.
pub proof fn fields_left_out_stay(task: TaskModel, id: Seq<char>, entry: EntryModel, now: i64)
    ensures
        entry.cancelled is None ==> edited(task, id, entry, now).cancelled == task.cancelled,
        entry.waiting is None ==> edited(task, id, entry, now).waiting == task.waiting,
        entry.owner is None ==> edited(task, id, entry, now).owner == task.owner,
        entry.body is None ==> edited(task, id, entry, now).body == task.body,
        entry.title is None ==> edited(task, id, entry, now).title == task.title,
        entry.status is None && entry.cancelled is None ==> edited(task, id, entry, now).status
            == task.status,
{
}

/// No batch loses a task or a finding: every id stays, with all the findings it had. Where ids
/// are distinct they stay distinct.
pub proof fn batch_keeps_tasks(ledger: LedgerModel, entries: Seq<EntryModel>, now: i64)
    requires
        has_room(ledger, entries, now),
    ensures
        keeps(ledger.tasks, upserted(ledger, entries, now).ledger.tasks),
        distinct(ledger.tasks) ==> distinct(upserted(ledger, entries, now).ledger.tasks),
{
    let third = third_draft(ledger, entries, now);
    let ran = ids_of(in_state(ledger.tasks, View::Active));
    third_sound(ledger, entries, now);
    settled_sound(third, entries, ran, now);
    sound_reflexive(ledger.tasks);
    sound_transitive(
        ledger.tasks,
        third.ledger.tasks,
        settled(third, entries, ran, now).ledger.tasks,
    );
}

/// An accepted batch leaves a plan without cycles, in which each task comes after its
/// prerequisites.
pub proof fn batch_leaves_order(ledger: LedgerModel, entries: Seq<EntryModel>, now: i64)
    requires
        has_room(ledger, entries, now),
        distinct(ledger.tasks),
        upserted(ledger, entries, now).applied.errors.len() == 0,
    ensures
        in_order(upserted(ledger, entries, now).ledger.tasks),
{
    reveal(settled);
    let third = third_draft(ledger, entries, now);
    third_sound(ledger, entries, now);
    let sorted = put_in_order(third, entries);
    let ids = premature(sorted.ledger.tasks);
    let last = demoted(sorted, entries, ids, now);
    assert(third.applied.errors.len() == 0);
    if ordered(third.ledger.tasks) is Ok {
        order_sound(third.ledger.tasks);
        demoted_sound(sorted, entries, ids, now);
        let a = sorted.ledger.tasks;
        let b = last.ledger.tasks;
        assert forall|i: int, k: int|
            0 <= i < b.len() && 0 <= k < b[i].after.len() && has_id(
                b,
                #[trigger] b[i].after[k],
            ) implies exists|j: int| 0 <= j < i && (#[trigger] b[j]).id == b[i].after[k] by {
            assert(b[i].after == a[i].after);
            let x = choose|x: int| 0 <= x < b.len() && (#[trigger] b[x]).id == b[i].after[k];
            assert(a[x].id == b[x].id);
            assert(has_id(a, a[i].after[k]));
            let j = choose|j: int| 0 <= j < i && (#[trigger] a[j]).id == a[i].after[k];
            assert(b[j].id == a[j].id);
        }
    } else {
        demoted_resets(sorted, entries, ids, now);
        assert(last.applied.errors.len() > 0);
    }
}

/// After an accepted batch no active task waits for an unfinished prerequisite.
pub proof fn batch_leaves_none_premature(
    ledger: LedgerModel,
    entries: Seq<EntryModel>,
    now: i64,
    i: int,
)
    requires
        has_room(ledger, entries, now),
        distinct(ledger.tasks),
        upserted(ledger, entries, now).applied.errors.len() == 0,
        0 <= i < upserted(ledger, entries, now).ledger.tasks.len(),
        upserted(ledger, entries, now).ledger.tasks[i].status == Status::Active,
    ensures
        unfinished(
            upserted(ledger, entries, now).ledger.tasks,
            upserted(ledger, entries, now).ledger.tasks[i].after,
        ).len() == 0,
{
    reveal(settled);
    let third = third_draft(ledger, entries, now);
    third_sound(ledger, entries, now);
    let sorted = put_in_order(third, entries);
    let a = sorted.ledger.tasks;
    let ids = premature(a);
    let last = demoted(sorted, entries, ids, now);
    let b = last.ledger.tasks;
    if ordered(third.ledger.tasks) is Ok {
        order_sound(third.ledger.tasks);
    }
    assert(distinct(a));
    demoted_sound(sorted, entries, ids, now);
    demoted_resets(sorted, entries, ids, now);
    assert(last.applied.errors.len() == sorted.applied.errors.len());
    let early = |task: TaskModel|
        task.status == Status::Active && unfinished(a, task.after).len() > 0;
    let group = a.filter(early);
    assert forall|j: int| 0 <= j < a.len() implies (#[trigger] a[j]).id == b[j].id && terminal(a[j])
        == terminal(b[j]) by {
        if b[j].status != a[j].status {
            let k = choose|k: int| 0 <= k < ids.len() && ids[k] == a[j].id;
            a.lemma_filter_pred(early, k);
            assert(group.contains(group[k]));
            a.lemma_filter_contains_rev(early, group[k]);
            let x = choose|x: int| 0 <= x < a.len() && a[x] == group[k];
            if x < j {
                assert(a[x].id != a[j].id);
            } else if j < x {
                assert(a[j].id != a[x].id);
            }
        }
    }
    unfinished_same(a, b, b[i].after);
    assert(b[i].after == a[i].after);
    if unfinished(b, b[i].after).len() > 0 {
        assert(early(a[i]));
        a.lemma_filter_contains(early, i);
        let k = choose|k: int| 0 <= k < group.len() && group[k] == a[i];
        assert(ids[k] == a[i].id);
        assert(ids.contains(a[i].id));
        assert(b[i].status == Status::Pending);
    }
}

/// After an accepted batch no more tasks are active than the limit allows, or than were active
/// before it.
pub proof fn batch_keeps_capacity(ledger: LedgerModel, entries: Seq<EntryModel>, now: i64)
    requires
        ledger.parallelism > 0,
        upserted(ledger, entries, now).applied.errors.len() == 0,
    ensures
        in_state(upserted(ledger, entries, now).ledger.tasks, View::Active).len() <= admitted(
            ledger,
            in_state(ledger.tasks, View::Active).len(),
        ),
{
    reveal(settled);
    let n = entries.len();
    let start = opened(ledger, n);
    limits_claimed(start, entries, n, now);
    limits_amended(all_claimed(start, entries, n, now), entries, n, now);
    limits_related(
        all_amended(all_claimed(start, entries, n, now), entries, n, now),
        entries,
        n,
        now,
    );
    let third = third_draft(ledger, entries, now);
    let sorted = put_in_order(third, entries);
    limits_demoted(sorted, entries, premature(sorted.ledger.tasks), now);
}

proof fn limits_claimed(draft: Draft, entries: Seq<EntryModel>, n: nat, now: i64)
    ensures
        all_claimed(draft, entries, n, now).ledger == (LedgerModel {
            tasks: all_claimed(draft, entries, n, now).ledger.tasks,
            ..draft.ledger
        }),
    decreases n,
{
    reveal(claimed);
    if n > 0 {
        limits_claimed(draft, entries, (n - 1) as nat, now);
    }
}

proof fn limits_amended(draft: Draft, entries: Seq<EntryModel>, n: nat, now: i64)
    ensures
        all_amended(draft, entries, n, now).ledger == (LedgerModel {
            tasks: all_amended(draft, entries, n, now).ledger.tasks,
            ..draft.ledger
        }),
    decreases n,
{
    reveal(amended);
    if n > 0 {
        limits_amended(draft, entries, (n - 1) as nat, now);
    }
}

proof fn limits_related(draft: Draft, entries: Seq<EntryModel>, n: nat, now: i64)
    ensures
        all_related(draft, entries, n, now).ledger == (LedgerModel {
            tasks: all_related(draft, entries, n, now).ledger.tasks,
            ..draft.ledger
        }),
    decreases n,
{
    reveal(related);
    if n > 0 {
        limits_related(draft, entries, (n - 1) as nat, now);
    }
}

proof fn limits_demoted(draft: Draft, entries: Seq<EntryModel>, ids: Seq<Seq<char>>, now: i64)
    ensures
        demoted(draft, entries, ids, now).ledger == (LedgerModel {
            tasks: demoted(draft, entries, ids, now).ledger.tasks,
            ..draft.ledger
        }),
    decreases ids.len(),
{
    if ids.len() > 0 {
        limits_demoted(draft, entries, ids.drop_last(), now);
    }
}

/// A batch changes the plan alone: limits, pause and workers stay as they are.
pub proof fn batch_changes_tasks_only(ledger: LedgerModel, entries: Seq<EntryModel>, now: i64)
    ensures
        upserted(ledger, entries, now).ledger == (LedgerModel {
            tasks: upserted(ledger, entries, now).ledger.tasks,
            ..ledger
        }),
{
    reveal(settled);
    let n = entries.len();
    let start = opened(ledger, n);
    limits_claimed(start, entries, n, now);
    limits_amended(all_claimed(start, entries, n, now), entries, n, now);
    limits_related(
        all_amended(all_claimed(start, entries, n, now), entries, n, now),
        entries,
        n,
        now,
    );
    let third = third_draft(ledger, entries, now);
    let sorted = put_in_order(third, entries);
    limits_demoted(sorted, entries, premature(sorted.ledger.tasks), now);
}

/// Without white space there is nothing to trim.
proof fn trimmed_same(s: Seq<char>)
    requires
        s.len() > 0 ==> !space(s[0]) && !space(s.last()),
    ensures
        trimmed(s) == s,
{
}

/// The first white space of a text that starts with none.
proof fn space_comes_after(head: Seq<char>, rest: Seq<char>)
    requires
        forall|i: int| 0 <= i < head.len() ==> !space(#[trigger] head[i]),
        rest.len() == 0 || space(rest[0]),
    ensures
        space_at(head + rest) == head.len(),
    decreases head.len(),
{
    let whole = head + rest;
    if head.len() > 0 {
        assert(whole[0] == head[0]);
        assert(whole.skip(1) == head.skip(1) + rest);
        assert forall|i: int| 0 <= i < head.skip(1).len() implies !space(
            #[trigger] head.skip(1)[i],
        ) by {
            assert(head.skip(1)[i] == head[i + 1]);
        }
        space_comes_after(head.skip(1), rest);
    } else if rest.len() > 0 {
        assert(whole[0] == rest[0]);
    }
}

/// An id names its task, whatever titles there are.
pub proof fn id_resolves(tasks: Seq<TaskModel>, id: Seq<char>)
    requires
        has_id(tasks, id),
        forall|i: int| 0 <= i < id.len() ==> !space(#[trigger] id[i]),
    ensures
        resolved(tasks, id) == find(tasks, id),
{
    trimmed_same(id);
    space_comes_after(id, Seq::empty());
    assert(id + Seq::<char>::empty() == id);
    position_iff(tasks, id);
}

/// A display label, an id followed by a title, names the task with that id.
pub proof fn label_resolves(tasks: Seq<TaskModel>, id: Seq<char>, title: Seq<char>)
    requires
        has_id(tasks, id),
        id.len() > 0,
        all_digits(id),
        title.len() > 0,
        !space(title[0]),
        !space(title.last()),
    ensures
        resolved(tasks, id + seq![' '] + title) == find(tasks, id),
{
    let label = id + seq![' '] + title;
    assert(label[0] == id[0]);
    assert(digit(id[0]));
    trimmed_same(label);
    assert(label == id + (seq![' '] + title));
    assert forall|i: int| 0 <= i < id.len() implies !space(#[trigger] id[i]) by {
        assert(digit(id[i]));
    }
    space_comes_after(id, seq![' '] + title);
    assert(label.take(id.len() as int) == id);
    assert(label.skip(id.len() as int + 1) == title);
    trimmed_same(title);
    position_iff(tasks, id);
}

} // verus!
