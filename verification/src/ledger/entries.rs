//! Which task an entry is about, when it creates one, and when it is refused.

use vstd::prelude::*;
use vstd::view::View as _;

use crate::ledger::batch::EntryModel;
use crate::ledger::effects::accepted_throughout;
use crate::ledger::effects::amended_outcome;
use crate::ledger::effects::demoted_rows;
use crate::ledger::effects::entry_is_well_formed;
use crate::ledger::effects::field_after;
use crate::ledger::effects::found_by_rows;
use crate::ledger::effects::passes_of_one;
use crate::ledger::effects::related_outcome;
use crate::ledger::effects::same_but_status;
use crate::ledger::effects::settling_sets_back;
use crate::ledger::effects::status_words;
use crate::ledger::effects::task_at;
use crate::ledger::effects::titled_are_tasks;
use crate::ledger::laws::amended_refuses;
use crate::ledger::laws::claimed_refuses;
use crate::ledger::laws::distinct;
use crate::ledger::laws::number_is_new;
use crate::ledger::laws::related_refuses;
use crate::ledger::model::FindingModel;
use crate::ledger::model::LedgerModel;
use crate::ledger::model::Status;
use crate::ledger::model::TaskModel;
use crate::ledger::query::View;
use crate::ledger::query::find;
use crate::ledger::query::has_id;
use crate::ledger::query::highest;
use crate::ledger::query::in_state;
use crate::ledger::query::normalized;
use crate::ledger::query::open_tasks;
use crate::ledger::query::position;
use crate::ledger::query::position_iff;
use crate::ledger::query::preferred;
use crate::ledger::query::problem_with;
use crate::ledger::query::resolved;
use crate::ledger::query::space_at;
use crate::ledger::query::titled;
use crate::ledger::split::ids_of;
use crate::ledger::standing::kept_by_filter;
use crate::ledger::standing::rows_are_found;
use crate::ledger::standing::still_open;
use crate::ledger::write::Draft;
use crate::ledger::write::all_amended;
use crate::ledger::write::all_claimed;
use crate::ledger::write::all_related;
use crate::ledger::write::amended;
use crate::ledger::write::assigned;
use crate::ledger::write::claimed;
use crate::ledger::write::edited;
use crate::ledger::write::has_room;
use crate::ledger::write::opened;
use crate::ledger::write::premature;
use crate::ledger::write::put_in_order;
use crate::ledger::write::related;
use crate::ledger::write::settled;
use crate::ledger::write::upserted;
use crate::ledger::write::worked;
use crate::text::all_digits;
use crate::text::decimal_of;
use crate::text::digit;
use crate::text::folded;
use crate::text::name_of;
use crate::text::number_of;
use crate::text::space;
use crate::text::trimmed;
use crate::text_laws::trimming_takes_outer_space;

verus! {

/// Some task of the plan is called that.
pub open spec fn is_called(tasks: Seq<TaskModel>, title: Seq<char>) -> bool {
    exists|i: int| 0 <= i < tasks.len() && folded((#[trigger] tasks[i]).title) == folded(title)
}

/// Some open task of the plan is called that.
pub open spec fn is_called_open(tasks: Seq<TaskModel>, title: Seq<char>) -> bool {
    exists|i: int|
        0 <= i < tasks.len() && still_open(#[trigger] tasks[i]) && folded(tasks[i].title) == folded(
            title,
        )
}

/// The preferred task of a title: an open one where there is one, and else any.
pub(crate) proof fn preferred_is_called(tasks: Seq<TaskModel>, title: Seq<char>)
    ensures
        preferred(titled(tasks, title)) is Some <==> is_called(tasks, title),
        preferred(titled(tasks, title)) matches Some(task) ==> tasks.contains(task) && folded(
            task.title,
        ) == folded(title) && (is_called_open(tasks, title) ==> still_open(task)),
{
    let named = titled(tasks, title);
    let keep = |task: TaskModel| folded(task.title) == folded(title);
    let open = open_tasks(named);
    let live = |task: TaskModel| !crate::ledger::model::terminal(task);
    if is_called(tasks, title) {
        let i = choose|i: int|
            0 <= i < tasks.len() && folded((#[trigger] tasks[i]).title) == folded(title);
        kept_by_filter(tasks, keep, tasks[i]);
        assert(tasks.contains(tasks[i]));
        let k = choose|k: int| 0 <= k < named.len() && named[k] == tasks[i];
    }
    if is_called_open(tasks, title) {
        let i = choose|i: int|
            0 <= i < tasks.len() && still_open(#[trigger] tasks[i]) && folded(tasks[i].title)
                == folded(title);
        kept_by_filter(tasks, keep, tasks[i]);
        assert(tasks.contains(tasks[i]));
        kept_by_filter(named, live, tasks[i]);
        let k = choose|k: int| 0 <= k < open.len() && open[k] == tasks[i];
    }
    if let Some(task) = preferred(named) {
        titled_are_tasks(tasks, title, named, task);
        kept_by_filter(tasks, keep, task);
        if open.len() > 0 {
            assert(open.contains(open[0]));
            kept_by_filter(named, live, task);
        } else {
            assert(named.contains(named[0]));
        }
        let i = choose|i: int| 0 <= i < tasks.len() && tasks[i] == task;
        assert(folded(tasks[i].title) == folded(title));
    }
}

/// White space comes at the start or later.
proof fn space_comes_later(s: Seq<char>)
    ensures
        space_at(s) >= 0,
    decreases s.len(),
{
    if s.len() > 0 {
        space_comes_later(s.skip(1));
    }
}

/// What changed stays so to the end of a batch.
proof fn changes_stay(draft: Draft, entries: Seq<EntryModel>, ran: Seq<Seq<char>>, now: i64)
    requires
        draft.applied.changed,
    ensures
        settled(draft, entries, ran, now).applied.changed,
{
    reveal(settled);
    let sorted = put_in_order(draft, entries);
    demotions_stay_changes(sorted, entries, premature(sorted.ledger.tasks), now);
}

proof fn demotions_stay_changes(draft: Draft, entries: Seq<EntryModel>, ids: Seq<Seq<char>>, now: i64)
    requires
        draft.applied.changed,
    ensures
        crate::ledger::write::demoted(draft, entries, ids, now).applied.changed,
    decreases ids.len(),
{
    if ids.len() > 0 {
        demotions_stay_changes(draft, entries, ids.drop_last(), now);
    }
}

/// A reference that does not start with a digit means the task whose id it is, and else a task of that
/// title: an open one where there is one. Where neither is there, it means nothing. White space around
/// it does not matter.
pub proof fn references_mean_ids_or_titles(tasks: Seq<TaskModel>, reference: Seq<char>)
    requires
        trimmed(reference).len() == 0 || !digit(trimmed(reference)[0]),
    ensures
        ({
            let wanted = trimmed(reference);
            &&& has_id(tasks, wanted) ==> resolved(tasks, reference) == find(tasks, wanted)
            &&& !has_id(tasks, wanted) ==> {
                &&& resolved(tasks, reference) is Some <==> is_called(tasks, wanted)
                &&& resolved(tasks, reference) matches Some(task) ==> tasks.contains(task)
                    && folded(task.title) == folded(wanted) && (is_called_open(tasks, wanted)
                    ==> still_open(task))
            }
        }),
{
    let wanted = trimmed(reference);
    trimming_takes_outer_space(reference);
    let k = space_at(wanted);
    if wanted.len() > 0 {
        space_comes_later(wanted.skip(1));
        assert(k > 0);
        if k < wanted.len() && all_digits(wanted.take(k)) {
            assert(digit(wanted.take(k)[0]));
        }
    }
    assert(normalized(tasks, reference) == wanted);
    position_iff(tasks, wanted);
    preferred_is_called(tasks, wanted);
}

/// A title has one to eighty characters, and not all of them are digits.
pub proof fn titles_are_short_names(title: Seq<char>)
    ensures
        problem_with(title) is None <==> 1 <= title.len() <= 80 && !(forall|i: int|
            0 <= i < title.len() ==> '0' <= #[trigger] title[i] <= '9'),
{
    if forall|i: int| 0 <= i < title.len() ==> '0' <= #[trigger] title[i] <= '9' {
        assert(all_digits(title)) by {
            assert forall|i: int| 0 <= i < title.len() implies digit(#[trigger] title[i]) by {
                assert('0' <= title[i] <= '9');
            }
        }
    } else {
        let i = choose|i: int| 0 <= i < title.len() && !('0' <= #[trigger] title[i] <= '9');
        assert(!digit(title[i]));
    }
}

/// Errors do not go away in the first pass.
proof fn claims_keep_errors(draft: Draft, entries: Seq<EntryModel>, k: nat, n: nat, now: i64)
    requires
        k <= n,
    ensures
        all_claimed(draft, entries, k, now).applied.errors.len() <= all_claimed(
            draft,
            entries,
            n,
            now,
        ).applied.errors.len(),
    decreases n,
{
    if k < n {
        claims_keep_errors(draft, entries, k, (n - 1) as nat, now);
        claimed_refuses(
            all_claimed(draft, entries, (n - 1) as nat, now),
            entries[n - 1],
            n - 1,
            now,
        );
    }
}

proof fn amendments_keep_errors(draft: Draft, entries: Seq<EntryModel>, n: nat, now: i64)
    ensures
        draft.applied.errors.len() <= all_amended(draft, entries, n, now).applied.errors.len(),
    decreases n,
{
    if n > 0 {
        amendments_keep_errors(draft, entries, (n - 1) as nat, now);
        amended_refuses(
            all_amended(draft, entries, (n - 1) as nat, now),
            entries[n - 1],
            n - 1,
            now,
        );
    }
}

proof fn relations_keep_errors(draft: Draft, entries: Seq<EntryModel>, n: nat, now: i64)
    ensures
        draft.applied.errors.len() <= all_related(draft, entries, n, now).applied.errors.len(),
    decreases n,
{
    if n > 0 {
        relations_keep_errors(draft, entries, (n - 1) as nat, now);
        related_refuses(
            all_related(draft, entries, (n - 1) as nat, now),
            entries[n - 1],
            n - 1,
            now,
        );
    }
}

/// A batch with an entry that was no object, or that names a status other than pending, active and
/// done, is refused.
pub proof fn malformed_entries_refuse_the_batch(
    ledger: LedgerModel,
    entries: Seq<EntryModel>,
    now: i64,
    k: int,
)
    requires
        0 <= k < entries.len(),
        entries[k].invalid is Some || (entries[k].status is Some && entries[k].status->0
            != "pending"@ && entries[k].status->0 != "active"@ && entries[k].status->0 != "done"@),
    ensures
        upserted(ledger, entries, now).applied.errors.len() > 0,
        upserted(ledger, entries, now).ledger == ledger,
{
    let n = entries.len();
    let start = opened(ledger, n);
    let first = all_claimed(start, entries, n, now);
    let second = all_amended(first, entries, n, now);
    reveal(claimed);
    claims_keep_errors(start, entries, (k + 1) as nat, n, now);
    amendments_keep_errors(first, entries, n, now);
    relations_keep_errors(second, entries, n, now);
    reveal(settled);
}

/// An entry on its own is refused where its id names nothing; where it gives no id and its title names
/// no task and cannot be one; and where it splits or merges what is not there.
pub proof fn entries_about_nothing_are_refused(ledger: LedgerModel, entry: EntryModel, now: i64)
    ensures
        ({
            let errors = upserted(ledger, seq![entry], now).applied.errors;
            &&& entry.id is Some && resolved(ledger.tasks, entry.id->0) is None ==> errors.len() > 0
            &&& entry.id is None && (entry.title matches Some(title) ==> !is_called(
                ledger.tasks,
                title,
            )) && (entry.title is None || problem_with(name_of(entry.title->0)) is Some
                || entry.split is Some || entry.merge is Some) ==> errors.len() > 0
        }),
{
    let start = opened(ledger, 1);
    let first = claimed(start, entry, 0, now);
    let second = amended(first, entry, 0, now);
    let third = related(second, entry, 0, now);
    passes_of_one(ledger, entry, now);
    if upserted(ledger, seq![entry], now).applied.errors.len() == 0 {
        accepted_throughout(ledger, entry, now);
        reveal(claimed);
        if let Some(title) = entry.title {
            preferred_is_called(ledger.tasks, title);
        }
        assert(start.applied.divided.len() == 0);
    }
}

/// An accepted entry without an id, whose title names no task, creates one: a new task under the next
/// number, with the title and the fields that the entry gives, and nothing else; every other task stays.
pub proof fn entries_create_tasks(ledger: LedgerModel, entry: EntryModel, now: i64)
    requires
        distinct(ledger.tasks),
        has_room(ledger, seq![entry], now),
        entry.id is None,
        entry.title is Some,
        !is_called(ledger.tasks, entry.title->0),
        entry.after is None,
        entry.before is None,
        upserted(ledger, seq![entry], now).applied.errors.len() == 0,
    ensures
        ({
            let r = upserted(ledger, seq![entry], now);
            let last = r.ledger.tasks;
            let id = decimal_of(highest(ledger.tasks) + 1);
            let new = task_at(last, id);
            &&& r.applied.outcomes[0].task == Some(id)
            &&& r.applied.outcomes[0].created
            &&& r.applied.changed
            &&& !has_id(ledger.tasks, id)
            &&& has_id(last, id)
            &&& problem_with(name_of(entry.title->0)) is None
            &&& new.title == name_of(entry.title->0)
            &&& new.after.len() == 0
            &&& new.created == now
            &&& new.updated == now
            &&& new.body == if entry.body is Some {
                entry.body->0
            } else {
                Seq::empty()
            }
            &&& new.cancelled == field_after(None, entry.cancelled)
            &&& new.waiting == field_after(None, entry.waiting)
            &&& new.owner == field_after(None, entry.owner)
            &&& new.findings == if entry.note is Some && trimmed(entry.note->0).len() > 0 {
                seq![FindingModel { at: now, text: entry.note->0, from: None }]
            } else {
                Seq::empty()
            }
            &&& new.status == if new.cancelled is Some {
                Status::Pending
            } else if entry.status == Some("active"@) {
                Status::Active
            } else if entry.status == Some("done"@) {
                Status::Done
            } else {
                Status::Pending
            }
            &&& forall|other: Seq<char>| #[trigger]
                has_id(ledger.tasks, other) ==> has_id(last, other) && same_but_status(
                    task_at(ledger.tasks, other),
                    task_at(last, other),
                )
        }),
{
    let entries = seq![entry];
    let tasks = ledger.tasks;
    let start = opened(ledger, 1);
    let first = claimed(start, entry, 0, now);
    let second = amended(first, entry, 0, now);
    let third = related(second, entry, 0, now);
    let ran = ids_of(in_state(tasks, View::Active));
    let id = decimal_of(highest(tasks) + 1);
    accepted_throughout(ledger, entry, now);
    entry_is_well_formed(ledger, entry, now);
    status_words();
    preferred_is_called(tasks, entry.title->0);
    creation_is_claimed(ledger, entry, now);
    let fresh = crate::ledger::split::fresh_task(id, name_of(entry.title->0), Seq::empty(), now);
    let all = tasks.push(fresh);
    assert(first.ledger.tasks == all);
    assert forall|i: int, j: int| 0 <= i < j < all.len() implies (#[trigger] all[i]).id != (
    #[trigger] all[j]).id by {
        if j < tasks.len() {
            assert(tasks[i].id != tasks[j].id);
        } else {
            assert(tasks[i].id != id);
        }
    }
    let row = tasks.len() as int;
    rows_are_found(all, row);
    amended_outcome(first, entry, now);
    related_outcome(second, entry, now);
    created_is_edited(first, entry, now, id, row);
    let rows = third.ledger.tasks;
    assert forall|i: int| 0 <= i < all.len() implies (#[trigger] all[i]).id == rows[i].id by {}
    assert(distinct(rows)) by {
        assert forall|i: int, j: int| 0 <= i < j < rows.len() implies (#[trigger] rows[i]).id != (
        #[trigger] rows[j]).id by {
            assert(all[i].id != all[j].id);
        }
    }
    found_by_rows(all, rows, id);
    settling_sets_back(third, entries, ran, now, id);
    let last = upserted(ledger, entries, now).ledger.tasks;
    let new = task_at(last, id);
    assert(same_but_status(rows[row], new));
    assert(!crate::ledger::standing::awaits(rows, rows[row])) by {
        assert(rows[row].after.len() == 0);
    }
    assert(fresh.findings =~= Seq::empty());
    if entry.note is Some && trimmed(entry.note->0).len() > 0 {
        let note = FindingModel { at: now, text: entry.note->0, from: None };
        assert(fresh.findings.push(note) =~= seq![note]);
    }
    new_tasks_are_not_touched(third, entries, ran, now, id);
    changes_stay(third, entries, ran, now);
    assert(new.title == name_of(entry.title->0));
    assert(new.status == if new.cancelled is Some {
        Status::Pending
    } else if entry.status == Some("active"@) {
        Status::Active
    } else if entry.status == Some("done"@) {
        Status::Done
    } else {
        Status::Pending
    });
    assert forall|other: Seq<char>| #[trigger] has_id(tasks, other) implies has_id(last, other)
        && same_but_status(task_at(tasks, other), task_at(last, other)) by {
        let i = position(tasks, other)->0;
        position_iff(tasks, other);
        rows_are_found(all, i);
        assert(all[i] == tasks[i]);
        assert(has_id(all, other));
        found_by_rows(all, rows, other);
        settling_sets_back(third, entries, ran, now, other);
    }
}

/// A task that is not active is not touched at the end of a batch.
proof fn new_tasks_are_not_touched(
    draft: Draft,
    entries: Seq<EntryModel>,
    ran: Seq<Seq<char>>,
    now: i64,
    id: Seq<char>,
)
    requires
        distinct(draft.ledger.tasks),
        settled(draft, entries, ran, now).applied.errors.len() == 0,
        has_id(draft.ledger.tasks, id),
        task_at(draft.ledger.tasks, id).updated == now,
    ensures
        task_at(settled(draft, entries, ran, now).ledger.tasks, id).updated == now,
{
    settling_sets_back(draft, entries, ran, now, id);
    reveal(settled);
    let sorted = put_in_order(draft, entries);
    let a = sorted.ledger.tasks;
    let ids = premature(a);
    demoted_rows(sorted, entries, ids, now);
    assert(crate::ledger::graph::ordered(draft.ledger.tasks) is Ok);
    crate::ledger::effects::order_finds(draft.ledger.tasks, id);
    demoted_touches_now(sorted, entries, ids, now);
    let b = crate::ledger::write::demoted(sorted, entries, ids, now).ledger.tasks;
    assert forall|i: int| 0 <= i < a.len() implies (#[trigger] a[i]).id == b[i].id by {
        assert(same_but_status(a[i], b[i]));
    }
    found_by_rows(a, b, id);
}

proof fn demoted_touches_now(draft: Draft, entries: Seq<EntryModel>, ids: Seq<Seq<char>>, now: i64)
    ensures
        ({
            let tasks = draft.ledger.tasks;
            let next = crate::ledger::write::demoted(draft, entries, ids, now).ledger.tasks;
            forall|i: int|
                0 <= i < tasks.len() ==> (#[trigger] next[i]).updated == now || next[i].updated
                    == tasks[i].updated
        }),
    decreases ids.len(),
{
    if ids.len() > 0 {
        demoted_touches_now(draft, entries, ids.drop_last(), now);
        demoted_rows(draft, entries, ids.drop_last(), now);
        position_iff(
            crate::ledger::write::demoted(draft, entries, ids.drop_last(), now).ledger.tasks,
            ids.last(),
        );
    }
}

/// The first pass over an entry that creates a task.
proof fn creation_is_claimed(ledger: LedgerModel, entry: EntryModel, now: i64)
    requires
        has_room(ledger, seq![entry], now),
        entry.id is None,
        entry.title is Some,
        !is_called(ledger.tasks, entry.title->0),
        claimed(opened(ledger, 1), entry, 0, now).applied.errors.len() == 0,
    ensures
        ({
            let first = claimed(opened(ledger, 1), entry, 0, now);
            let id = decimal_of(highest(ledger.tasks) + 1);
            &&& first.ledger.tasks == ledger.tasks.push(
                crate::ledger::split::fresh_task(id, name_of(entry.title->0), Seq::empty(), now),
            )
            &&& first.applied.outcomes.len() == 1
            &&& first.applied.outcomes[0].task == Some(id)
            &&& first.applied.outcomes[0].created
            &&& !first.applied.outcomes[0].refused
            &&& first.applied.changed
            &&& first.applied.divided.len() == 0
            &&& !has_id(ledger.tasks, id)
            &&& problem_with(name_of(entry.title->0)) is None
        }),
{
    let entries = seq![entry];
    let start = opened(ledger, 1);
    let tasks = ledger.tasks;
    preferred_is_called(tasks, entry.title->0);
    assert(crate::ledger::write::fits(
        all_claimed(opened(ledger, entries.len()), entries, 0, now),
        entries[0],
    ));
    reveal(crate::ledger::write::fits);
    reveal(claimed);
    assert(open_tasks(titled(tasks, entry.title->0)).len() == 0) by {
        reveal(Seq::filter);
        assert(titled(tasks, entry.title->0).len() == 0);
    }
    number_is_new(tasks, highest(tasks) + 1);
}

/// The fields of a new task are set as the entry gives them.
proof fn created_is_edited(first: Draft, entry: EntryModel, now: i64, id: Seq<char>, row: int)
    requires
        entry.id is None,
        entry.after is None,
        entry.before is None,
        first.applied.outcomes.len() == 1,
        assigned(first, 0) == Some(id),
        position(first.ledger.tasks, id) == Some(row),
        0 <= row < first.ledger.tasks.len(),
        amended(first, entry, 0, now).applied.errors.len() == 0,
        first.applied.changed,
    ensures
        ({
            let tasks = first.ledger.tasks;
            let third = related(amended(first, entry, 0, now), entry, 0, now);
            &&& third.ledger.tasks == tasks.update(row, edited(tasks[row], id, entry, now))
            &&& third.applied.changed
        }),
{
    amended_outcome(first, entry, now);
    reveal(amended);
    reveal(related);
}

/// The first item of a list that passes is the first of what passes.
proof fn first_passes<A>(list: Seq<A>, keep: spec_fn(A) -> bool, i: int)
    requires
        0 <= i < list.len(),
        keep(list[i]),
        forall|j: int| 0 <= j < i ==> !keep(#[trigger] list[j]),
    ensures
        list.filter(keep).len() > 0,
        list.filter(keep)[0] == list[i],
    decreases list.len(),
{
    reveal(Seq::filter);
    let head = list.drop_last();
    if i < head.len() {
        assert forall|j: int| 0 <= j < i implies !keep(#[trigger] head[j]) by {
            assert(head[j] == list[j]);
        }
        first_passes(head, keep, i);
    } else {
        none_pass(head, keep);
    }
}

/// Nothing is left where nothing passes.
proof fn none_pass<A>(list: Seq<A>, keep: spec_fn(A) -> bool)
    requires
        forall|j: int| 0 <= j < list.len() ==> !keep(#[trigger] list[j]),
    ensures
        list.filter(keep).len() == 0,
    decreases list.len(),
{
    reveal(Seq::filter);
    if list.len() > 0 {
        let head = list.drop_last();
        assert forall|j: int| 0 <= j < head.len() implies !keep(#[trigger] head[j]) by {
            assert(head[j] == list[j]);
        }
        none_pass(head, keep);
        assert(!keep(list[list.len() - 1]));
    }
}

/// The first item that passes twice is the first of what passes the one and then the other.
proof fn first_passes_twice<A>(
    list: Seq<A>,
    one: spec_fn(A) -> bool,
    other: spec_fn(A) -> bool,
    i: int,
)
    requires
        0 <= i < list.len(),
        one(list[i]),
        other(list[i]),
        forall|j: int| 0 <= j < i ==> !(one(#[trigger] list[j]) && other(list[j])),
    ensures
        list.filter(one).filter(other).len() > 0,
        list.filter(one).filter(other)[0] == list[i],
    decreases list.len(),
{
    reveal(Seq::filter);
    let head = list.drop_last();
    if i < head.len() {
        assert forall|j: int| 0 <= j < i implies !(one(#[trigger] head[j]) && other(head[j])) by {
            assert(head[j] == list[j]);
        }
        first_passes_twice(head, one, other, i);
        if one(list.last()) {
            let before = head.filter(one);
            assert(before.push(list.last()).drop_last() =~= before);
        }
    } else {
        let before = head.filter(one);
        assert forall|k: int| 0 <= k < before.len() implies !other(#[trigger] before[k]) by {
            assert(before.contains(before[k]));
            kept_by_filter(head, one, before[k]);
            let j = choose|j: int| 0 <= j < head.len() && head[j] == before[k];
            assert(list[j] == before[k]);
        }
        none_pass(before, other);
        assert(before.push(list.last()).drop_last() =~= before);
    }
}

/// A reference whose first word is no id, and that is no id itself, means the first open task of that title,
/// and where none is open the first of that title.
pub proof fn titles_mean_the_first_task(tasks: Seq<TaskModel>, reference: Seq<char>, i: int)
    requires
        !has_id(tasks, trimmed(reference)),
        forall|k: int|
            0 <= k < trimmed(reference).len() && space(#[trigger] trimmed(reference)[k]) ==> !has_id(
                tasks,
                trimmed(reference).take(k),
            ),
        0 <= i < tasks.len(),
        folded(tasks[i].title) == folded(trimmed(reference)),
    ensures
        still_open(tasks[i]) && (forall|j: int|
            0 <= j < i ==> !(still_open(#[trigger] tasks[j]) && folded(tasks[j].title) == folded(
                trimmed(reference),
            ))) ==> resolved(tasks, reference) == Some(tasks[i]),
        !is_called_open(tasks, trimmed(reference)) && (forall|j: int|
            0 <= j < i ==> folded((#[trigger] tasks[j]).title) != folded(trimmed(reference)))
            ==> resolved(tasks, reference) == Some(tasks[i]),
{
    let wanted = trimmed(reference);
    let named = titled(tasks, wanted);
    let one = |task: TaskModel| folded(task.title) == folded(wanted);
    let live = |task: TaskModel| !crate::ledger::model::terminal(task);
    let k = space_at(wanted);
    space_comes_later(wanted);
    if 0 <= k < wanted.len() {
        first_space_is_space(wanted);
        assert(space(wanted[k]));
        assert(!has_id(tasks, wanted.take(k)));
    }
    assert(normalized(tasks, reference) == wanted);
    position_iff(tasks, wanted);
    if still_open(tasks[i]) && (forall|j: int|
        0 <= j < i ==> !(still_open(#[trigger] tasks[j]) && folded(tasks[j].title) == folded(
            wanted,
        ))) {
        first_passes_twice(tasks, one, live, i);
    }
    if !is_called_open(tasks, wanted) && (forall|j: int|
        0 <= j < i ==> folded((#[trigger] tasks[j]).title) != folded(wanted)) {
        first_passes(tasks, one, i);
        let open = open_tasks(named);
        if open.len() > 0 {
            preferred_is_called(tasks, wanted);
            assert(open.contains(open[0]));
            kept_by_filter(named, live, open[0]);
            kept_by_filter(tasks, one, open[0]);
            let j = choose|j: int| 0 <= j < tasks.len() && tasks[j] == open[0];
            assert(still_open(tasks[j]) && folded(tasks[j].title) == folded(wanted));
        }
    }
}

/// The first white space is white space.
proof fn first_space_is_space(s: Seq<char>)
    requires
        0 <= space_at(s) < s.len(),
    ensures
        space(s[space_at(s)]),
    decreases s.len(),
{
    if !space(s[0]) {
        space_comes_later(s.skip(1));
        first_space_is_space(s.skip(1));
        assert(s.skip(1)[space_at(s.skip(1))] == s[space_at(s)]);
    }
}

/// The highest number is that of some task, and no task has a higher one; a plan without numbers has none.
pub proof fn the_highest_number_is_a_tasks(tasks: Seq<TaskModel>)
    ensures
        forall|i: int|
            0 <= i < tasks.len() ==> (number_of((#[trigger] tasks[i]).id) matches Some(n) ==> n
                <= highest(tasks)),
        highest(tasks) > 0 ==> exists|i: int|
            0 <= i < tasks.len() && number_of((#[trigger] tasks[i]).id) is Some && number_of(
                tasks[i].id,
            )->0 == highest(tasks),
    decreases tasks.len(),
{
    if tasks.len() > 0 {
        let head = tasks.drop_last();
        the_highest_number_is_a_tasks(head);
        assert forall|i: int| 0 <= i < tasks.len() implies (number_of(
            (#[trigger] tasks[i]).id,
        ) matches Some(n) ==> n <= highest(tasks)) by {
            if i < head.len() {
                assert(head[i] == tasks[i]);
            }
        }
        if highest(tasks) > 0 {
            if highest(tasks) == highest(head) {
                let i = choose|i: int|
                    0 <= i < head.len() && number_of((#[trigger] head[i]).id) is Some && number_of(
                        head[i].id,
                    )->0 == highest(head);
                assert(tasks[i] == head[i]);
            } else {
                assert(tasks[tasks.len() - 1] == tasks.last());
            }
        }
    }
}

} // verus!
