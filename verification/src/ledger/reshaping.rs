//! What splitting does to each task, and what batches that split or merge come to.

use vstd::prelude::*;
use vstd::view::View as _;

use crate::ledger::batch::EntryModel;
use crate::ledger::effects::accepted_throughout;
use crate::ledger::effects::amended_outcome;
use crate::ledger::effects::found_by_rows;
use crate::ledger::effects::references_resolve_to_tasks;
use crate::ledger::effects::related_outcome;
use crate::ledger::effects::same_but_status;
use crate::ledger::effects::settling_sets_back;
use crate::ledger::effects::task_at;
use crate::ledger::effects::titled_are_tasks;
use crate::ledger::laws::distinct;
use crate::ledger::laws::merge_keeps;
use crate::ledger::laws::number_is_new;
use crate::ledger::laws::split_keeps;
use crate::ledger::merge::absorbed_into;
use crate::ledger::merge::merged_tasks;
use crate::ledger::merging::absorbed_tasks_become_references;
use crate::ledger::merging::brings;
use crate::ledger::merging::is_brought;
use crate::ledger::merging::merges_absorb_what_they_name;
use crate::ledger::merging::missing_are_added;
use crate::ledger::merging::some_means;
use crate::ledger::merging::survivors_take_over;
use crate::ledger::model::FindingModel;
use crate::ledger::model::LedgerModel;
use crate::ledger::model::Status;
use crate::ledger::model::TaskModel;
use crate::ledger::query::View;
use crate::ledger::query::find;
use crate::ledger::query::has_id;
use crate::ledger::query::highest;
use crate::ledger::query::in_state;
use crate::ledger::query::position;
use crate::ledger::query::position_iff;
use crate::ledger::query::problem_with;
use crate::ledger::query::resolved;
use crate::ledger::query::titled_ids;
use crate::ledger::split::clashes;
use crate::ledger::split::clashing;
use crate::ledger::split::divided;
use crate::ledger::split::first_piece;
use crate::ledger::split::first_problem;
use crate::ledger::split::ids_of;
use crate::ledger::split::piece_tasks;
use crate::ledger::split::piece_titles;
use crate::ledger::split::split_finding;
use crate::ledger::split::split_fits;
use crate::ledger::split::split_refusal;
use crate::ledger::split::split_up;
use crate::ledger::split::with_missing;
use crate::ledger::standing::kept_by_filter;
use crate::ledger::standing::rows_are_found;
use crate::ledger::write::Draft;
use crate::ledger::write::amended;
use crate::ledger::write::assigned;
use crate::ledger::write::claimed;
use crate::ledger::write::edited;
use crate::ledger::write::opened;
use crate::ledger::write::related;
use crate::ledger::write::settled;
use crate::ledger::write::upserted;
use crate::text::decimal_of;
use crate::text::folded;
use crate::text::joined;
use crate::text::name_of;
use crate::text_laws::joined_mentions;
use crate::text_laws::mentioned_after;
use crate::text_laws::mentioned_before;
use crate::text_laws::mentions;
use crate::text_laws::mentions_itself;

verus! {

/// Where a row stands once `n` rows were put in behind another.
spec fn moved_row(i: int, row: int, n: int) -> int {
    if i <= row {
        i
    } else {
        i + n
    }
}

/// The plan after a split, by the rows before it.
proof fn split_rows(tasks: Seq<TaskModel>, row: int, titles: Seq<Seq<char>>, now: i64)
    requires
        0 <= row < tasks.len(),
        titles.len() >= 2,
    ensures
        ({
            let next = split_up(tasks, row, titles, now);
            let created = piece_tasks(tasks, titles, tasks[row].after, now);
            let n = created.len() as int;
            &&& n == titles.len() - 1
            &&& next.len() == tasks.len() + n
            &&& forall|i: int|
                0 <= i < tasks.len() ==> next[moved_row(i, row, n)]
                    == crate::ledger::split::waits_too(
                    if i == row {
                        crate::ledger::split::first_piece(tasks[row], titles[0], created, now)
                    } else {
                        #[trigger] tasks[i]
                    },
                    tasks[row].id,
                    ids_of(created),
                )
            &&& forall|k: int| 0 <= k < n ==> #[trigger] next[row + 1 + k] == created[k]
        }),
{
}

/// Splitting a task gives, for the pieces after the first, new pending tasks with the prerequisites of
/// the task and nothing else, under the numbers that follow the highest. The task itself keeps its id,
/// status, prerequisites, body, owner and findings, takes the title of the first piece, and gains one
/// finding. Every other task that waited for it waits for the new ones too, and is otherwise as it was.
pub proof fn splits_keep_the_task_and_add_the_rest(
    tasks: Seq<TaskModel>,
    id: Seq<char>,
    pieces: Seq<Seq<char>>,
    now: i64,
)
    requires
        distinct(tasks),
        divided(tasks, id, pieces, now) is Ok,
        split_fits(tasks, id, pieces),
        !task_at(tasks, id).after.contains(id),
    ensures
        ({
            let (next, division) = divided(tasks, id, pieces, now)->Ok_0;
            let titles = piece_titles(pieces);
            let old = task_at(tasks, id);
            let new = task_at(next, id);
            let n = titles.len() as int;
            &&& n >= 2
            &&& has_id(tasks, id) && has_id(next, id)
            &&& distinct(next)
            &&& next.len() == tasks.len() + n - 1
            &&& division.task == id
            &&& division.from == old.title
            &&& division.into.len() == n - 1
            &&& new == TaskModel {
                title: titles[0],
                updated: now,
                findings: new.findings,
                ..old
            }
            &&& new.findings.len() == old.findings.len() + 1
            &&& old.findings.is_prefix_of(new.findings)
            &&& new.findings.last().at == now
            &&& new.findings.last().from is None
            &&& forall|k: int|
                0 <= k < n - 1 ==> is_new_piece(
                    tasks,
                    next,
                    #[trigger] division.into[k],
                    titles[k + 1],
                    old.after,
                    (highest(tasks) + 1 + k) as nat,
                    now,
                )
            &&& forall|other: Seq<char>| other != id && #[trigger] has_id(tasks, other)
                ==> waits_for_pieces(tasks, next, other, id, division.into)
        }),
{
    let titles = piece_titles(pieces);
    let row = position(tasks, id)->0;
    position_iff(tasks, id);
    let (next, division) = divided(tasks, id, pieces, now)->Ok_0;
    let created = piece_tasks(tasks, titles, tasks[row].after, now);
    let n = created.len() as int;
    split_keeps(tasks, id, pieces, now);
    split_rows(tasks, row, titles, now);
    let old = tasks[row];
    assert(moved_row(row, row, n) == row);
    assert(tasks[row].id == id);
    assert(next[row] == crate::ledger::split::first_piece(old, titles[0], created, now));
    rows_are_found(next, row);
    let new = next[row];
    assert(old.findings =~= new.findings.take(old.findings.len() as int));
    assert forall|k: int| 0 <= k < titles.len() - 1 implies is_new_piece(
        tasks,
        next,
        #[trigger] division.into[k],
        titles[k + 1],
        old.after,
        (highest(tasks) + 1 + k) as nat,
        now,
    ) by {
        assert(next[row + 1 + k] == created[k]);
        rows_are_found(next, row + 1 + k);
        number_is_new(tasks, (highest(tasks) + 1 + k) as nat);
        assert(next[row + 1 + k].id == division.into[k]);
    }
    assert forall|other: Seq<char>| other != id && #[trigger]
        has_id(tasks, other) implies waits_for_pieces(tasks, next, other, id, division.into) by {
        let i = position(tasks, other)->0;
        position_iff(tasks, other);
        let at = moved_row(i, row, n);
        assert(tasks[i].id == other);
        assert(next[at] == crate::ledger::split::waits_too(tasks[i], id, ids_of(created)));
        rows_are_found(next, at);
        let a = tasks[i].after;
        let b = next[at].after;
        assert forall|x: Seq<char>| #[trigger] b.contains(x) <==> a.contains(x) || a.contains(id)
            && division.into.contains(x) by {
            missing_are_added(a, ids_of(created), x);
        }
        missing_are_added(a, ids_of(created), id);
        assert(a =~= a.take(a.len() as int));
    }
}

/// The id is a new one of the plan after a split: the next number, of a pending task with the title of
/// the piece, the prerequisites of the task that was split, and nothing else.
pub open spec fn is_new_piece(
    tasks: Seq<TaskModel>,
    next: Seq<TaskModel>,
    id: Seq<char>,
    title: Seq<char>,
    after: Seq<Seq<char>>,
    number: nat,
    now: i64,
) -> bool {
    &&& id == decimal_of(number)
    &&& !has_id(tasks, id)
    &&& has_id(next, id)
    &&& task_at(next, id) == TaskModel {
        id,
        title,
        status: Status::Pending,
        after,
        cancelled: None,
        waiting: None,
        owner: None,
        body: Seq::empty(),
        findings: Seq::empty(),
        created: now,
        updated: now,
    }
}

/// After a split a task waits for what it waited for, and for all pieces where it waited for the task.
pub open spec fn waits_for_pieces(
    tasks: Seq<TaskModel>,
    next: Seq<TaskModel>,
    other: Seq<char>,
    id: Seq<char>,
    into: Seq<Seq<char>>,
) -> bool {
    let old = task_at(tasks, other);
    let new = task_at(next, other);
    &&& has_id(next, other)
    &&& new == TaskModel { after: new.after, ..old }
    &&& old.after.is_prefix_of(new.after)
    &&& forall|x: Seq<char>| #[trigger]
        new.after.contains(x) <==> old.after.contains(x) || old.after.contains(id) && into.contains(
            x,
        )
}

/// The titles of pieces are their words, with one space between them, without pieces that have none.
pub proof fn pieces_are_named(pieces: Seq<Seq<char>>, title: Seq<char>)
    ensures
        piece_titles(pieces).contains(title) <==> title.len() > 0 && exists|k: int|
            0 <= k < pieces.len() && name_of(#[trigger] pieces[k]) == title,
{
    let names = Seq::new(pieces.len(), |i: int| name_of(pieces[i]));
    kept_by_filter(names, |title: Seq<char>| title.len() > 0, title);
    if names.contains(title) {
        let k = choose|k: int| 0 <= k < names.len() && names[k] == title;
        assert(name_of(pieces[k]) == title);
    }
    if exists|k: int| 0 <= k < pieces.len() && name_of(#[trigger] pieces[k]) == title {
        let k = choose|k: int| 0 <= k < pieces.len() && name_of(#[trigger] pieces[k]) == title;
        assert(names[k] == title);
    }
}

/// The first pass over an entry that merges into a task that is there.
proof fn merge_is_claimed(ledger: LedgerModel, entry: EntryModel, now: i64)
    requires
        entry.split is None,
        entry.merge is Some,
        claimed(opened(ledger, 1), entry, 0, now).applied.errors.len() == 0,
    ensures
        ({
            let first = claimed(opened(ledger, 1), entry, 0, now);
            &&& first.applied.outcomes.len() == 1
            &&& !first.applied.outcomes[0].refused
            &&& first.applied.outcomes[0].task matches Some(id) && {
                &&& has_id(ledger.tasks, id)
                &&& absorbed_into(ledger, id, entry.merge->0, now) matches Ok((tasks, absorption))
                    && {
                    &&& first.ledger.tasks == tasks
                    &&& first.applied.merged == seq![absorption]
                    &&& first.applied.divided.len() == 0
                }
            }
        }),
{
    reveal(claimed);
    let tasks = ledger.tasks;
    match (entry.id, entry.title) {
        (Some(id), _) => {
            if resolved(tasks, id) is Some {
                references_resolve_to_tasks(tasks, id);
            }
        },
        (None, Some(title)) => {
            let named = crate::ledger::query::titled(tasks, title);
            if crate::ledger::query::preferred(named) is Some {
                let task = crate::ledger::query::preferred(named)->0;
                titled_are_tasks(tasks, title, named, task);
                let i = choose|i: int| 0 <= i < tasks.len() && tasks[i] == task;
                assert(tasks[i].id == task.id);
            }
        },
        (None, None) => {},
    }
    let first = claimed(opened(ledger, 1), entry, 0, now);
    assert(opened(ledger, 1).ledger == ledger);
    assert(first.applied.merged =~= seq![first.applied.merged.last()]);
}

/// The second and third pass over an entry without relations edit the row of its task.
proof fn only_fields_change(first: Draft, entry: EntryModel, now: i64, id: Seq<char>)
    requires
        entry.after is None,
        entry.before is None,
        first.applied.outcomes.len() == 1,
        assigned(first, 0) == Some(id),
        has_id(first.ledger.tasks, id),
        amended(first, entry, 0, now).applied.errors.len() == 0,
    ensures
        ({
            let tasks = first.ledger.tasks;
            let row = position(tasks, id)->0;
            let third = related(amended(first, entry, 0, now), entry, 0, now);
            &&& third.ledger.tasks == tasks.update(row, edited(tasks[row], id, entry, now))
            &&& third.applied.merged == first.applied.merged
            &&& third.applied.divided == first.applied.divided
        }),
{
    position_iff(first.ledger.tasks, id);
    amended_outcome(first, entry, now);
    reveal(amended);
    reveal(related);
}

/// An accepted entry that merges gives its task, beside what the task waited for, the prerequisites of
/// the tasks it absorbs, but for themselves; their findings with where they came from; and leaves each
/// of them as a cancelled reference. What it absorbs is what the entry names.
pub proof fn merging_entries_take_over(
    ledger: LedgerModel,
    entry: EntryModel,
    now: i64,
    id: Seq<char>,
    absorbed: Seq<Seq<char>>,
)
    requires
        distinct(ledger.tasks),
        entry.split is None,
        entry.merge is Some,
        entry.after is None,
        entry.before is None,
        entry.note is None,
        upserted(ledger, seq![entry], now).applied.errors.len() == 0,
        upserted(ledger, seq![entry], now).applied.outcomes[0].task == Some(id),
        upserted(ledger, seq![entry], now).applied.merged.len() > 0,
        upserted(ledger, seq![entry], now).applied.merged[0].absorbed == absorbed,
    ensures
        ({
            let last = upserted(ledger, seq![entry], now).ledger.tasks;
            let old = task_at(ledger.tasks, id);
            let new = task_at(last, id);
            &&& has_id(ledger.tasks, id) && has_id(last, id)
            &&& absorbed.len() > 0
            &&& !absorbed.contains(id)
            &&& forall|x: Seq<char>| #[trigger]
                absorbed.contains(x) <==> some_means(ledger.tasks, entry.merge->0, x)
            &&& forall|x: Seq<char>| #[trigger]
                new.after.contains(x) <==> !absorbed.contains(x) && (old.after.contains(x) || x != id
                    && brings(ledger.tasks, absorbed, x))
            &&& forall|finding: FindingModel| #[trigger]
                new.findings.contains(finding) <==> old.findings.contains(finding) || is_brought(
                    ledger.tasks,
                    absorbed,
                    finding,
                )
            &&& forall|x: Seq<char>| #[trigger]
                absorbed.contains(x) ==> has_id(last, x) && task_at(last, x).cancelled is Some
                    && task_at(last, x).owner is None && task_at(last, x).findings == task_at(
                    ledger.tasks,
                    x,
                ).findings
        }),
{
    let entries = seq![entry];
    let tasks = ledger.tasks;
    let first = claimed(opened(ledger, 1), entry, 0, now);
    let third = related(amended(first, entry, 0, now), entry, 0, now);
    let ran = ids_of(in_state(tasks, View::Active));
    merged_entry_rows(ledger, entry, now, id, absorbed);
    accepted_throughout(ledger, entry, now);
    let merged = merged_tasks(tasks, id, absorbed, now);
    let rows = third.ledger.tasks;
    survivors_take_over(tasks, id, absorbed, now);
    let row = position(merged, id)->0;
    position_iff(merged, id);
    assert forall|i: int| 0 <= i < merged.len() implies (#[trigger] merged[i]).id == rows[i].id by {}
    found_by_rows(merged, rows, id);
    settling_sets_back(third, entries, ran, now, id);
    let last = upserted(ledger, entries, now).ledger.tasks;
    assert(task_at(last, id).after == task_at(merged, id).after);
    assert(task_at(last, id).findings == task_at(merged, id).findings);
    assert forall|x: Seq<char>| #[trigger] absorbed.contains(x) implies has_id(last, x) && task_at(
        last,
        x,
    ).cancelled is Some && task_at(last, x).owner is None && task_at(last, x).findings == task_at(
        tasks,
        x,
    ).findings by {
        let k = choose|k: int| 0 <= k < absorbed.len() && absorbed[k] == x;
        assert(has_id(tasks, absorbed[k]));
        absorbed_tasks_become_references(tasks, id, absorbed, now, x);
        found_by_rows(merged, rows, x);
        settling_sets_back(third, entries, ran, now, x);
        position_iff(merged, x);
        assert(position(merged, x)->0 != row);
    }
}

/// The plan of a batch of one merging entry before its end.
proof fn merged_entry_rows(
    ledger: LedgerModel,
    entry: EntryModel,
    now: i64,
    id: Seq<char>,
    absorbed: Seq<Seq<char>>,
)
    requires
        distinct(ledger.tasks),
        entry.split is None,
        entry.merge is Some,
        entry.after is None,
        entry.before is None,
        upserted(ledger, seq![entry], now).applied.errors.len() == 0,
        upserted(ledger, seq![entry], now).applied.outcomes[0].task == Some(id),
        upserted(ledger, seq![entry], now).applied.merged.len() > 0,
        upserted(ledger, seq![entry], now).applied.merged[0].absorbed == absorbed,
    ensures
        ({
            let tasks = ledger.tasks;
            let first = claimed(opened(ledger, 1), entry, 0, now);
            let third = related(amended(first, entry, 0, now), entry, 0, now);
            let merged = merged_tasks(tasks, id, absorbed, now);
            let row = position(merged, id)->0;
            &&& has_id(tasks, id)
            &&& has_id(merged, id)
            &&& distinct(third.ledger.tasks)
            &&& third.ledger.tasks == merged.update(row, edited(merged[row], id, entry, now))
            &&& absorbed.len() > 0
            &&& !absorbed.contains(id)
            &&& forall|x: Seq<char>| #[trigger]
                absorbed.contains(x) <==> some_means(tasks, entry.merge->0, x)
            &&& forall|k: int| 0 <= k < absorbed.len() ==> has_id(tasks, #[trigger] absorbed[k])
        }),
{
    let entries = seq![entry];
    let tasks = ledger.tasks;
    let first = claimed(opened(ledger, 1), entry, 0, now);
    let second = amended(first, entry, 0, now);
    let third = related(second, entry, 0, now);
    let ran = ids_of(in_state(tasks, View::Active));
    accepted_throughout(ledger, entry, now);
    merge_is_claimed(ledger, entry, now);
    amended_outcome(first, entry, now);
    related_outcome(second, entry, now);
    assert(first.applied.outcomes[0].task == Some(id));
    let sources = entry.merge->0;
    merges_absorb_what_they_name(ledger, id, sources, now);
    let absorption = absorbed_into(ledger, id, sources, now)->Ok_0.1;
    let merged = first.ledger.tasks;
    merge_keeps(tasks, id, absorption.absorbed, now);
    assert(has_id(tasks, id));
    assert(has_id(merged, id));
    only_fields_change(first, entry, now, id);
    settled_keeps_reports(third, entries, ran, now);
    assert(absorption.absorbed == absorbed);
    assert(merged == merged_tasks(tasks, id, absorbed, now));
    position_iff(merged, id);
    let rows = third.ledger.tasks;
    assert forall|i: int, j: int| 0 <= i < j < rows.len() implies (#[trigger] rows[i]).id != (
    #[trigger] rows[j]).id by {
        assert(merged[i].id != merged[j].id);
    }
}

/// The end of a batch adds nothing to what was split and merged.
proof fn settled_keeps_reports(
    draft: Draft,
    entries: Seq<EntryModel>,
    ran: Seq<Seq<char>>,
    now: i64,
)
    ensures
        settled(draft, entries, ran, now).applied.merged == draft.applied.merged,
        settled(draft, entries, ran, now).applied.divided == draft.applied.divided,
{
    reveal(settled);
    let sorted = crate::ledger::write::put_in_order(draft, entries);
    demoted_keeps_reports(
        sorted,
        entries,
        crate::ledger::write::premature(sorted.ledger.tasks),
        now,
    );
}

proof fn demoted_keeps_reports(draft: Draft, entries: Seq<EntryModel>, ids: Seq<Seq<char>>, now: i64)
    ensures
        crate::ledger::write::demoted(draft, entries, ids, now).applied.merged
            == draft.applied.merged,
        crate::ledger::write::demoted(draft, entries, ids, now).applied.divided
            == draft.applied.divided,
    decreases ids.len(),
{
    if ids.len() > 0 {
        demoted_keeps_reports(draft, entries, ids.drop_last(), now);
    }
}

/// A task is divided exactly when it is there, at least two pieces have a name, every name can be a title,
/// no two pieces are called alike, and no other task is called like one of them.
pub proof fn divisions_are_refused_for_a_reason(
    tasks: Seq<TaskModel>,
    id: Seq<char>,
    pieces: Seq<Seq<char>>,
    now: i64,
)
    ensures
        ({
            let titles = piece_titles(pieces);
            divided(tasks, id, pieces, now) is Ok <==> has_id(tasks, id) && titles.len() >= 2 && (
            forall|i: int| 0 <= i < titles.len() ==> problem_with(#[trigger] titles[i]) is None) && (
            forall|i: int, j: int|
                0 <= i < j < titles.len() ==> folded(#[trigger] titles[i]) != folded(
                    #[trigger] titles[j],
                )) && (forall|i: int, k: int|
                0 <= i < titles.len() && 0 <= k < tasks.len() && (#[trigger] tasks[k]).id != id
                    ==> folded(tasks[k].title) != folded(#[trigger] titles[i]))
        }),
{
    let titles = piece_titles(pieces);
    let n = titles.len();
    position_iff(tasks, id);
    problems_are_found(titles);
    clashes_are_found(tasks, id, titles, n);
    if clashes(tasks, id, titles, n).len() == 0 {
        assert forall|i: int, j: int| 0 <= i < j < n implies folded(#[trigger] titles[i]) != folded(
            #[trigger] titles[j],
        ) by {
            assert(!clashing(tasks, id, titles, j));
        }
        assert forall|i: int, k: int|
            0 <= i < n && 0 <= k < tasks.len() && (#[trigger] tasks[k]).id != id implies folded(
            tasks[k].title,
        ) != folded(#[trigger] titles[i]) by {
            assert(!clashing(tasks, id, titles, i));
        }
    } else {
        let at = choose|at: int| 0 <= at < n && #[trigger] clashing(tasks, id, titles, at);
        if exists|j: int| 0 <= j < at && folded(#[trigger] titles[j]) == folded(titles[at]) {
            let j = choose|j: int| 0 <= j < at && folded(#[trigger] titles[j]) == folded(titles[at]);
        } else {
            let k = choose|k: int|
                0 <= k < tasks.len() && folded((#[trigger] tasks[k]).title) == folded(titles[at])
                    && tasks[k].id != id;
            assert(folded(tasks[k].title) == folded(titles[at]));
        }
    }
}

/// There is a problem with titles exactly when there is one with some of them.
proof fn problems_are_found(titles: Seq<Seq<char>>)
    ensures
        first_problem(titles) is None <==> forall|i: int|
            0 <= i < titles.len() ==> problem_with(#[trigger] titles[i]) is None,
    decreases titles.len(),
{
    if titles.len() > 0 {
        let rest = titles.skip(1);
        problems_are_found(rest);
        if first_problem(titles) is None {
            assert forall|i: int| 0 <= i < titles.len() implies problem_with(#[trigger] titles[i])
                is None by {
                if i > 0 {
                    assert(rest[i - 1] == titles[i]);
                }
            }
        }
        if forall|i: int| 0 <= i < titles.len() ==> problem_with(#[trigger] titles[i]) is None {
            assert(problem_with(titles[0]) is None);
            assert forall|i: int| 0 <= i < rest.len() implies problem_with(#[trigger] rest[i])
                is None by {
                assert(rest[i] == titles[i + 1]);
            }
        }
    }
}

/// There are clashes exactly when some title clashes.
proof fn clashes_are_found(
    tasks: Seq<TaskModel>,
    id: Seq<char>,
    titles: Seq<Seq<char>>,
    n: nat,
)
    requires
        n <= titles.len(),
    ensures
        clashes(tasks, id, titles, n).len() > 0 <==> exists|at: int|
            0 <= at < n && #[trigger] clashing(tasks, id, titles, at),
    decreases n,
{
    if n > 0 {
        clashes_are_found(tasks, id, titles, (n - 1) as nat);
        if clashing(tasks, id, titles, n - 1) {
        } else if exists|at: int| 0 <= at < n && #[trigger] clashing(tasks, id, titles, at) {
            let at = choose|at: int| 0 <= at < n && #[trigger] clashing(tasks, id, titles, at);
            assert(at < n - 1);
        }
    }
}

/// The note on a division tells what the task was called, and the id and title of every task that came
/// of it.
pub proof fn divisions_are_noted(from: Seq<char>, created: Seq<TaskModel>, now: i64, k: int)
    ensures
        mentions(split_finding(from, created, now).text, from),
        0 <= k < created.len() ==> mentions(
            split_finding(from, created, now).text,
            created[k].id + " "@ + created[k].title,
        ),
        split_finding(from, created, now).at == now,
        split_finding(from, created, now).from is None,
{
    let names = titled_ids(created);
    let list = joined(names, ", "@);
    let a = "Split from \""@ + from;
    let b = a + "\"; the rest became "@;
    mentions_itself(from);
    mentioned_after("Split from \""@, from, from);
    mentioned_before(a, "\"; the rest became "@, from);
    mentioned_before(b, list, from);
    mentioned_before(b + list, "."@, from);
    if 0 <= k < created.len() {
        let part = created[k].id + " "@ + created[k].title;
        assert(names[k] == part);
        joined_mentions(names, ", "@, k);
        mentioned_after(b, list, part);
        mentioned_before(b + list, "."@, part);
    }
}

/// The first piece is the task itself under its new title: it keeps all else, with a note on the
/// division, which is the last of its findings.
pub proof fn first_pieces_note_the_division(
    task: TaskModel,
    title: Seq<char>,
    created: Seq<TaskModel>,
    now: i64,
)
    ensures
        first_piece(task, title, created, now).findings.last() == split_finding(
            task.title,
            created,
            now,
        ),
        first_piece(task, title, created, now).title == title,
        first_piece(task, title, created, now).updated == now,
{
}

} // verus!
