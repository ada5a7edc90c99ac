//! What a recall answers and what a write does, told by what goes in and what comes out.

use vstd::prelude::*;

use crate::details::page_text;
use crate::ledger::batch::AppliedModel;
use crate::ledger::batch::EntryModel;
use crate::ledger::batch::OutcomeModel;
use crate::ledger::effects::references_resolve_to_tasks;
use crate::ledger::laws::batch_changes_tasks_only;
use crate::ledger::laws::distinct;
use crate::ledger::model::LedgerModel;
use crate::ledger::model::Status;
use crate::ledger::model::TaskModel;
use crate::ledger::query::find;
use crate::ledger::query::has_id;
use crate::ledger::query::open_tasks;
use crate::ledger::query::resolved;
use crate::ledger::query::state_of;
use crate::ledger::query::summary_of;
use crate::ledger::query::titled_id;
use crate::ledger::render::recall_of;
use crate::ledger::render::rendered_of;
use crate::ledger::standing::open_tasks_are_open;
use crate::ledger::standing::rows_are_found;
use crate::ledger::standing::standing_is_told_by_the_fields;
use crate::ledger::standing::still_open;
use crate::ledger::standing::workable;
use crate::ledger::write::upserted;
use crate::presentation::plan_of;
use crate::table::ascending;
use crate::table::listed;
use crate::table::listed_iff;
use crate::table::lookup;
use crate::table::placed;
use crate::table::placed_found;
use crate::text::joined;
use crate::text::stripped;
use crate::text::trimmed;
use crate::text_laws::both_tell;
use crate::text_laws::joined_lines_tell;
use crate::text_laws::joined_mentions;
use crate::text_laws::line_tells;
use crate::text_laws::listed_line_tells;
use crate::text_laws::mentioned_after;
use crate::text_laws::mentioned_before;
use crate::text_laws::mentioned_by_way_of;
use crate::text_laws::mentions;
use crate::text_laws::mentions_itself;
use crate::text_laws::stands_at;
use crate::text_laws::tells;
use crate::tool::recall::Gathered;
use crate::tool::recall::RecallModel;
use crate::tool::recall::any_local;
use crate::tool::recall::any_to_parent;
use crate::tool::recall::gathered;
use crate::tool::recall::gathered_one;
use crate::tool::recall::hints;
use crate::tool::recall::in_text_order;
use crate::tool::recall::recall_answer;
use crate::tool::recall::recalled;
use crate::tool::recall::record_messages;
use crate::tool::recall::to_parent;
use crate::tool::recall::unknown_messages;
use crate::tool::recall::values_of;
use crate::tool::write::Changes;
use crate::tool::write::Prior;
use crate::tool::write::WrittenModel;
use crate::tool::write::any_taken;
use crate::tool::write::changes_of;
use crate::tool::write::division_parts;
use crate::tool::write::feedback_lines;
use crate::tool::write::feedback_of;
use crate::tool::write::list_of;
use crate::tool::write::merely_updated;
use crate::tool::write::merge_parts;
use crate::tool::write::names_of;
use crate::tool::write::naming_part;
use crate::tool::write::parent_ids;
use crate::tool::write::parent_note;
use crate::tool::write::parent_notes;
use crate::tool::write::part_if;
use crate::tool::write::prior_of;
use crate::tool::write::taken_task;
use crate::tool::write::unknown_ids;
use crate::tool::write::with_new;
use crate::tool::write::write_parts;
use crate::tool::write::written;

verus! {

/// The text starts with `parent:`.
pub open spec fn names_the_parent(reference: Seq<char>) -> bool {
    reference.len() >= 7 && reference[0] == 'p' && reference[1] == 'a' && reference[2] == 'r'
        && reference[3] == 'e' && reference[4] == 'n' && reference[5] == 't' && reference[6] == ':'
}

/// A reference is to the parent's ledger exactly when it starts with `parent:`.
pub proof fn parent_references_are_marked(reference: Seq<char>)
    ensures
        to_parent(reference) == names_the_parent(reference),
        to_parent(reference) ==> stripped(reference, "parent:"@) == Some(reference.skip(7)),
{
    reveal_strlit("parent:");
    let lead = "parent:"@;
    assert(lead.len() == 7);
    if names_the_parent(reference) {
        assert(reference.take(7) =~= lead);
    }
    if to_parent(reference) {
        assert forall|i: int| 0 <= i < 7 implies reference[i] == lead[i] by {
            assert(reference.take(7)[i] == reference[i]);
        }
    }
}

/// A recall of nothing in particular answers the overview, with the file that holds the ledger.
pub proof fn recalls_of_nothing_show_the_overview(
    own: LedgerModel,
    file: Seq<char>,
    spawned: bool,
    parent: Option<LedgerModel>,
    page: nat,
)
    ensures
        recalled(own, file, spawned, parent, Seq::empty(), page) == RecallModel::Reply(
            "Ledger file: "@ + file + "\n"@ + rendered_of(own),
        ),
{
}

/// Where a reference names the parent, a session without a parent is told that it has none, and a session
/// with one reads the parent's ledger before it answers.
pub proof fn parents_are_read_when_named(
    own: LedgerModel,
    file: Seq<char>,
    references: Seq<Seq<char>>,
    k: int,
    page: nat,
)
    requires
        0 <= k < references.len(),
        names_the_parent(references[k]),
    ensures
        forall|parent: Option<LedgerModel>| #[trigger]
            recalled(own, file, false, parent, references, page) == RecallModel::Reply(
                "This thread has no parent ledger to recall."@,
            ),
        recalled(own, file, true, None, references, page) == RecallModel::ReadParent,
{
    parent_references_are_marked(references[k]);
    assert(any_to_parent(references));
}

/// The text is the record of a task under its key: a task of the session by its id, and one of the parent
/// by its id behind `parent:`.
pub open spec fn is_record(
    own: Seq<TaskModel>,
    parent: Option<Seq<TaskModel>>,
    key: Seq<char>,
    text: Seq<char>,
) -> bool {
    if names_the_parent(key) {
        parent matches Some(tasks) && exists|i: int|
            0 <= i < tasks.len() && key == "parent:"@ + (#[trigger] tasks[i]).id && text
                == recall_of(tasks, tasks[i], "parent:"@)
    } else {
        exists|i: int|
            0 <= i < own.len() && key == (#[trigger] own[i]).id && text == recall_of(
                own,
                own[i],
                Seq::empty(),
            )
    }
}

/// Every text that is listed is the record of a task under its key.
spec fn all_records(
    own: Seq<TaskModel>,
    parent: Option<Seq<TaskModel>>,
    records: Seq<(Seq<char>, Seq<char>)>,
) -> bool {
    ascending(records) && forall|key: Seq<char>| #[trigger]
        listed(records, key) ==> is_record(own, parent, key, lookup(records, key)->0)
}

/// No id of the plan starts with `parent:`.
pub open spec fn plain_ids(tasks: Seq<TaskModel>) -> bool {
    forall|i: int| 0 <= i < tasks.len() ==> !names_the_parent(#[trigger] tasks[i].id)
}

/// One more record keeps what is listed.
proof fn record_placed(
    own: Seq<TaskModel>,
    parent: Option<Seq<TaskModel>>,
    records: Seq<(Seq<char>, Seq<char>)>,
    key: Seq<char>,
    text: Seq<char>,
)
    requires
        all_records(own, parent, records),
        is_record(own, parent, key, text),
    ensures
        all_records(own, parent, placed(records, key, text)),
        listed(placed(records, key, text), key),
        forall|other: Seq<char>| #[trigger]
            listed(records, other) ==> listed(placed(records, key, text), other),
{
    let after = placed(records, key, text);
    placed_found(records, key, text, key);
    assert forall|other: Seq<char>| #[trigger] listed(after, other) implies is_record(
        own,
        parent,
        other,
        lookup(after, other)->0,
    ) by {
        placed_found(records, key, text, other);
        if other != key {
            assert(lookup(records, other) is Some);
            assert(listed(records, other));
        }
    }
    assert forall|other: Seq<char>| #[trigger] listed(records, other) implies listed(
        after,
        other,
    ) by {
        placed_found(records, key, text, other);
        assert(lookup(records, other) is Some);
    }
}

/// What one more reference adds to what is found.
proof fn one_is_gathered(
    own: Seq<TaskModel>,
    parent: Option<Seq<TaskModel>>,
    before: Gathered,
    reference: Seq<char>,
    local: bool,
    wanted: Seq<char>,
)
    requires
        plain_ids(own),
        all_records(own, parent, before.records),
    ensures
        ({
            let source = if local {
                Some(own)
            } else {
                parent
            };
            let prefix = if local {
                Seq::empty()
            } else {
                "parent:"@
            };
            let after = gathered_one(before, source, wanted, prefix, reference);
            let found = match source {
                Some(tasks) => resolved(tasks, wanted),
                None => None,
            };
            &&& all_records(own, parent, after.records)
            &&& forall|key: Seq<char>| #[trigger]
                listed(before.records, key) ==> listed(after.records, key)
            &&& match found {
                Some(task) => after.unknown == before.unknown && listed(
                    after.records,
                    prefix + task.id,
                ),
                None => after.unknown == before.unknown.push(reference),
            }
        }),
{
    let source = if local {
        Some(own)
    } else {
        parent
    };
    let prefix = if local {
        Seq::empty()
    } else {
        "parent:"@
    };
    let found = match source {
        Some(tasks) => resolved(tasks, wanted),
        None => None,
    };
    if let Some(task) = found {
        let tasks = source->0;
        let key = prefix + task.id;
        references_resolve_to_tasks(tasks, wanted);
        let i = choose|i: int| 0 <= i < tasks.len() && tasks[i] == task;
        if local {
            assert(key =~= task.id);
            assert(!names_the_parent(own[i].id));
        } else {
            reveal_strlit("parent:");
            assert(names_the_parent(key));
        }
        assert(is_record(own, parent, key, recall_of(tasks, task, prefix)));
        if !listed(before.records, key) {
            record_placed(own, parent, before.records, key, recall_of(tasks, task, prefix));
        }
    }
}

/// The task that a reference names, with the key of its record.
pub open spec fn named_key(
    own: Seq<TaskModel>,
    parent: Option<Seq<TaskModel>>,
    reference: Seq<char>,
) -> Option<Seq<char>> {
    if names_the_parent(reference) {
        match parent {
            Some(tasks) => match resolved(tasks, trimmed(reference.skip(7))) {
                Some(task) => Some("parent:"@ + task.id),
                None => None,
            },
            None => None,
        }
    } else {
        match resolved(own, reference) {
            Some(task) => Some(task.id),
            None => None,
        }
    }
}

/// What is found of the first references: the record of each that names a task, and each other reference
/// among the unknown.
proof fn all_are_gathered(
    own: Seq<TaskModel>,
    parent: Option<Seq<TaskModel>>,
    rows: Seq<(Seq<char>, Seq<char>)>,
    n: nat,
)
    requires
        plain_ids(own),
        n <= rows.len(),
        gathered(own, parent, rows, n) is Some,
    ensures
        ({
            let found = gathered(own, parent, rows, n)->0;
            &&& all_records(own, parent, found.records)
            &&& forall|k: int|
                #![trigger rows[k]]
                0 <= k < n ==> match named_key(own, parent, rows[k].0) {
                    Some(key) => listed(found.records, key),
                    None => found.unknown.contains(rows[k].0),
                }
            &&& forall|u: int|
                0 <= u < found.unknown.len() ==> named_key(
                    own,
                    parent,
                    #[trigger] found.unknown[u],
                ) is None
        }),
    decreases n,
{
    if n > 0 {
        all_are_gathered(own, parent, rows, (n - 1) as nat);
        let before = gathered(own, parent, rows, (n - 1) as nat)->0;
        let after = gathered(own, parent, rows, n)->0;
        let reference = rows[n - 1].0;
        parent_references_are_marked(reference);
        if names_the_parent(reference) {
            one_is_gathered(own, parent, before, reference, false, trimmed(reference.skip(7)));
        } else {
            one_is_gathered(own, parent, before, reference, true, reference);
            if let Some(task) = resolved(own, reference) {
                assert(Seq::<char>::empty() + task.id =~= task.id);
            }
        }
        assert forall|k: int|
            #![trigger rows[k]]
            0 <= k < n implies match named_key(own, parent, rows[k].0) {
            Some(key) => listed(after.records, key),
            None => after.unknown.contains(rows[k].0),
        } by {
            if k == n - 1 {
                if named_key(own, parent, reference) is None {
                    assert(after.unknown.last() == reference);
                    assert(after.unknown[after.unknown.len() - 1] == reference);
                }
            } else if named_key(own, parent, rows[k].0) is None {
                let u = choose|u: int|
                    0 <= u < before.unknown.len() && before.unknown[u] == rows[k].0;
                assert(after.unknown[u] == rows[k].0);
            }
        }
        assert forall|u: int| 0 <= u < after.unknown.len() implies named_key(
            own,
            parent,
            #[trigger] after.unknown[u],
        ) is None by {
            if u < before.unknown.len() {
                assert(after.unknown[u] == before.unknown[u]);
            }
        }
    } else {
        let none = gathered(own, parent, rows, 0)->0.records;
        assert forall|key: Seq<char>| #[trigger] listed(none, key) implies is_record(
            own,
            parent,
            key,
            lookup(none, key)->0,
        ) by {
            listed_iff(none, key);
        }
    }
}

/// The references in order are the references.
proof fn ordered_are_references(references: Seq<Seq<char>>, n: nat, reference: Seq<char>)
    requires
        n <= references.len(),
    ensures
        ascending(in_text_order(references, n)),
        listed(in_text_order(references, n), reference) <==> exists|k: int|
            0 <= k < n && references[k] == reference,
    decreases n,
{
    let rows = in_text_order(references, n);
    if n == 0 {
        listed_iff(rows, reference);
    } else {
        let before = in_text_order(references, (n - 1) as nat);
        let last = references[n - 1];
        ordered_are_references(references, (n - 1) as nat, reference);
        placed_found(before, last, last, reference);
        if reference != last {
            assert(lookup(rows, reference) == lookup(before, reference));
            if listed(rows, reference) {
                assert(lookup(before, reference) is Some);
            }
            if listed(before, reference) {
                assert(lookup(rows, reference) is Some);
            }
        } else {
            assert(references[n - 1] == reference);
        }
    }
}

/// The answer is a page of a text that mentions the part.
pub open spec fn answers_with(answer: RecallModel, page: nat, part: Seq<char>) -> bool {
    exists|text: Seq<char>|
        answer == RecallModel::Reply(#[trigger] page_text(text, page)) && mentions(text, part)
}

/// What is found is in the answer: every record, and every unknown reference.
proof fn found_is_answered(
    found: Gathered,
    parent: Option<Seq<TaskModel>>,
    page: nat,
    key: Seq<char>,
    u: int,
)
    requires
        ascending(found.records),
    ensures
        listed(found.records, key) ==> answers_with(
            RecallModel::Reply(recall_answer(found, parent, page)),
            page,
            lookup(found.records, key)->0,
        ),
        0 <= u < found.unknown.len() ==> answers_with(
            RecallModel::Reply(recall_answer(found, parent, page)),
            page,
            found.unknown[u],
        ),
{
    let a = unknown_messages(found.unknown, parent);
    let b = record_messages(found.records);
    let messages = a + b;
    let text = joined(messages, "\n\n"@);
    if listed(found.records, key) {
        let i = crate::table::slot(found.records, key);
        let values = values_of(found.records);
        assert(values[i] == lookup(found.records, key)->0);
        joined_mentions(values, "\n\n"@, i);
        assert(b[0] == joined(values, "\n\n"@));
        assert(messages[a.len() as int] == b[0]);
        joined_mentions(messages, "\n\n"@, a.len() as int);
        mentioned_by_way_of(text, b[0], values[i]);
        assert(messages.len() > 0);
        assert(recall_answer(found, parent, page) == page_text(text, page));
    }
    if 0 <= u < found.unknown.len() {
        let list = joined(found.unknown, ", "@);
        let lead = "Unknown task references: "@;
        let part = found.unknown[u];
        joined_mentions(found.unknown, ", "@, u);
        mentioned_after(lead, list, part);
        mentioned_before(lead + list, "."@, part);
        assert(a[0] == lead + list + "."@);
        assert(messages[0] == a[0]);
        joined_mentions(messages, "\n\n"@, 0);
        mentioned_by_way_of(text, a[0], part);
        assert(recall_answer(found, parent, page) == page_text(text, page));
    }
}

/// A recall of named tasks that does not need the parent's ledger any more is answered with the complete
/// record of every task that a reference names, a task of the session or of the parent, and tells every
/// reference that names none.
pub proof fn recalls_answer_every_reference(
    own: LedgerModel,
    file: Seq<char>,
    spawned: bool,
    parent: Option<LedgerModel>,
    references: Seq<Seq<char>>,
    page: nat,
    k: int,
)
    requires
        distinct(own.tasks),
        plain_ids(own.tasks),
        parent matches Some(ledger) ==> distinct(ledger.tasks),
        parent is Some == spawned,
        0 <= k < references.len(),
        forall|j: int|
            0 <= j < references.len() && names_the_parent(#[trigger] references[j]) ==> spawned
                && trimmed(references[j].skip(7)).len() > 0,
    ensures
        ({
            let answer = recalled(own, file, spawned, parent, references, page);
            let reference = references[k];
            if names_the_parent(reference) {
                let tasks = parent->0.tasks;
                match resolved(tasks, trimmed(reference.skip(7))) {
                    Some(task) => answers_with(answer, page, recall_of(tasks, task, "parent:"@)),
                    None => answers_with(answer, page, reference),
                }
            } else {
                match resolved(own.tasks, reference) {
                    Some(task) => answers_with(
                        answer,
                        page,
                        recall_of(own.tasks, task, Seq::empty()),
                    ),
                    None => answers_with(answer, page, reference),
                }
            }
        }),
{
    let rows = in_text_order(references, references.len());
    let plan = if spawned {
        Some(parent->0.tasks)
    } else {
        None
    };
    assert(plan == if spawned {
        crate::tool::recall::plan_in(parent)
    } else {
        None
    });
    let reference = references[k];
    if any_to_parent(references) {
        let j = choose|j: int| 0 <= j < references.len() && to_parent(#[trigger] references[j]);
        parent_references_are_marked(references[j]);
    }
    assert forall|i: int| 0 <= i < rows.len() && names_the_parent(
        (#[trigger] rows[i]).0,
    ) implies trimmed(rows[i].0.skip(7)).len() > 0 by {
        ordered_are_references(references, references.len(), rows[i].0);
        listed_iff(rows, rows[i].0);
        let j = choose|j: int| 0 <= j < references.len() && references[j] == rows[i].0;
        assert(references[j] == rows[i].0);
    }
    something_is_found(own.tasks, plan, rows, rows.len());
    let found = gathered(own.tasks, plan, rows, rows.len())->0;
    all_are_gathered(own.tasks, plan, rows, rows.len());
    assert(recalled(own, file, spawned, parent, references, page) == RecallModel::Reply(
        recall_answer(found, plan, page),
    ));
    ordered_are_references(references, references.len(), reference);
    listed_iff(rows, reference);
    assert(references[k] == reference);
    let at = crate::table::slot(rows, reference);
    assert(rows[at].0 == reference);
    match named_key(own.tasks, plan, reference) {
        Some(key) => {
            found_is_answered(found, plan, page, key, -1);
            assert(is_record(own.tasks, plan, key, lookup(found.records, key)->0));
            if names_the_parent(reference) {
                let tasks = plan->0;
                let task = resolved(tasks, trimmed(reference.skip(7)))->0;
                references_resolve_to_tasks(tasks, trimmed(reference.skip(7)));
                record_is_the_parents(own.tasks, tasks, task, lookup(found.records, key)->0);
            } else {
                let task = resolved(own.tasks, reference)->0;
                references_resolve_to_tasks(own.tasks, reference);
                record_is_ones_own(own.tasks, plan, task, lookup(found.records, key)->0);
            }
        },
        None => {
            let u = choose|u: int| 0 <= u < found.unknown.len() && found.unknown[u] == reference;
            found_is_answered(found, plan, page, Seq::empty(), u);
        },
    }
}

/// The record under the id of a task of the session is that task's.
proof fn record_is_ones_own(
    own: Seq<TaskModel>,
    parent: Option<Seq<TaskModel>>,
    task: TaskModel,
    text: Seq<char>,
)
    requires
        distinct(own),
        plain_ids(own),
        own.contains(task),
        is_record(own, parent, task.id, text),
    ensures
        text == recall_of(own, task, Seq::empty()),
{
    let j = choose|j: int| 0 <= j < own.len() && own[j] == task;
    assert(!names_the_parent(own[j].id));
    let i = choose|i: int|
        0 <= i < own.len() && task.id == (#[trigger] own[i]).id && text == recall_of(
            own,
            own[i],
            Seq::empty(),
        );
    if i < j {
        assert(own[i].id != own[j].id);
    } else if j < i {
        assert(own[j].id != own[i].id);
    }
}

/// The record under the id of a task of the parent behind `parent:` is that task's.
proof fn record_is_the_parents(
    own: Seq<TaskModel>,
    tasks: Seq<TaskModel>,
    task: TaskModel,
    text: Seq<char>,
)
    requires
        distinct(tasks),
        tasks.contains(task),
        is_record(own, Some(tasks), "parent:"@ + task.id, text),
    ensures
        text == recall_of(tasks, task, "parent:"@),
{
    reveal_strlit("parent:");
    let lead = "parent:"@;
    let j = choose|j: int| 0 <= j < tasks.len() && tasks[j] == task;
    assert(names_the_parent(lead + task.id));
    let i = choose|i: int|
        0 <= i < tasks.len() && lead + task.id == lead + (#[trigger] tasks[i]).id && text
            == recall_of(tasks, tasks[i], lead);
    assert((lead + task.id).skip(7) =~= task.id);
    assert((lead + tasks[i].id).skip(7) =~= tasks[i].id);
    if i < j {
        assert(tasks[i].id != tasks[j].id);
    } else if j < i {
        assert(tasks[j].id != tasks[i].id);
    }
}

/// Something is found where no reference asks for the whole parent ledger.
proof fn something_is_found(
    own: Seq<TaskModel>,
    parent: Option<Seq<TaskModel>>,
    rows: Seq<(Seq<char>, Seq<char>)>,
    n: nat,
)
    requires
        n <= rows.len(),
        forall|i: int|
            0 <= i < rows.len() && names_the_parent((#[trigger] rows[i]).0) ==> trimmed(
                rows[i].0.skip(7),
            ).len() > 0,
    ensures
        gathered(own, parent, rows, n) is Some,
    decreases n,
{
    if n > 0 {
        something_is_found(own, parent, rows, (n - 1) as nat);
        parent_references_are_marked(rows[n - 1].0);
    }
}

/// A recall never reads the whole parent ledger: a bare `parent:` is refused.
pub proof fn whole_parents_are_not_recalled(
    own: LedgerModel,
    file: Seq<char>,
    parent: LedgerModel,
    references: Seq<Seq<char>>,
    page: nat,
    k: int,
)
    requires
        0 <= k < references.len(),
        names_the_parent(references[k]),
        trimmed(references[k].skip(7)).len() == 0,
    ensures
        recalled(own, file, true, Some(parent), references, page) == RecallModel::Reply(
            "Parent recall requires a task id or title; it never reads the whole parent ledger."@,
        ),
{
    let rows = in_text_order(references, references.len());
    parent_references_are_marked(references[k]);
    ordered_are_references(references, references.len(), references[k]);
    let at = crate::table::slot(rows, references[k]);
    assert(listed(rows, references[k]));
    assert(gathered(own.tasks, Some(parent.tasks), rows, (at + 1) as nat) is None);
    crate::tool::recall::gathered_stays(
        own.tasks,
        Some(parent.tasks),
        rows,
        (at + 1) as nat,
        rows.len(),
    );
}

/// A session with a parent reads the parent's ledger before it says that a reference names nothing, and
/// does not read it where every reference names a task of its own.
pub proof fn parents_are_read_for_the_unknown(
    own: LedgerModel,
    file: Seq<char>,
    references: Seq<Seq<char>>,
    page: nat,
)
    requires
        plain_ids(own.tasks),
        references.len() > 0,
        forall|j: int| 0 <= j < references.len() ==> !names_the_parent(#[trigger] references[j]),
    ensures
        recalled(own, file, true, None, references, page) is ReadParent <==> exists|j: int|
            0 <= j < references.len() && resolved(own.tasks, #[trigger] references[j]) is None,
{
    let rows = in_text_order(references, references.len());
    if any_to_parent(references) {
        let j = choose|j: int| 0 <= j < references.len() && to_parent(#[trigger] references[j]);
        parent_references_are_marked(references[j]);
    }
    assert forall|i: int| 0 <= i < rows.len() implies !names_the_parent(
        (#[trigger] rows[i]).0,
    ) && references.contains(rows[i].0) by {
        ordered_are_references(references, references.len(), rows[i].0);
        listed_iff(rows, rows[i].0);
        let j = choose|j: int| 0 <= j < references.len() && references[j] == rows[i].0;
        assert(references[j] == rows[i].0);
    }
    something_is_found(own.tasks, None, rows, rows.len());
    let found = gathered(own.tasks, None, rows, rows.len())->0;
    all_are_gathered(own.tasks, None, rows, rows.len());
    unknown_are_references(own.tasks, None, rows, rows.len());
    if any_local(found.unknown) {
        let u = choose|u: int|
            0 <= u < found.unknown.len() && !to_parent(#[trigger] found.unknown[u]);
        let i = choose|i: int| 0 <= i < rows.len() && rows[i].0 == found.unknown[u];
        assert(references.contains(rows[i].0));
        let j = choose|j: int| 0 <= j < references.len() && references[j] == rows[i].0;
        assert(resolved(own.tasks, references[j]) is None);
    }
    if exists|j: int|
        0 <= j < references.len() && resolved(own.tasks, #[trigger] references[j]) is None {
        let j = choose|j: int|
            0 <= j < references.len() && resolved(own.tasks, #[trigger] references[j]) is None;
        ordered_are_references(references, references.len(), references[j]);
        let at = crate::table::slot(rows, references[j]);
        assert(listed(rows, references[j]));
        assert(rows[at].0 == references[j]);
        assert(named_key(own.tasks, None, references[j]) is None);
        let u = choose|u: int|
            0 <= u < found.unknown.len() && found.unknown[u] == references[j];
        parent_references_are_marked(found.unknown[u]);
        assert(!to_parent(found.unknown[u]));
    }
}

/// What is unknown is a reference.
proof fn unknown_are_references(
    own: Seq<TaskModel>,
    parent: Option<Seq<TaskModel>>,
    rows: Seq<(Seq<char>, Seq<char>)>,
    n: nat,
)
    requires
        n <= rows.len(),
        gathered(own, parent, rows, n) is Some,
    ensures
        forall|u: int|
            0 <= u < gathered(own, parent, rows, n)->0.unknown.len() ==> exists|i: int|
                0 <= i < n && (#[trigger] rows[i]).0 == #[trigger] gathered(
                    own,
                    parent,
                    rows,
                    n,
                )->0.unknown[u],
    decreases n,
{
    if n > 0 {
        unknown_are_references(own, parent, rows, (n - 1) as nat);
        let before = gathered(own, parent, rows, (n - 1) as nat)->0.unknown;
        let after = gathered(own, parent, rows, n)->0.unknown;
        assert forall|u: int| 0 <= u < after.len() implies exists|i: int|
            0 <= i < n && (#[trigger] rows[i]).0 == #[trigger] after[u] by {
            if u < before.len() {
                assert(after[u] == before[u]);
                let i = choose|i: int| 0 <= i < n - 1 && (#[trigger] rows[i]).0 == before[u];
                assert(rows[i].0 == after[u]);
            } else {
                assert(rows[n - 1].0 == after[u]);
            }
        }
    }
}

/// Some task of the plan is open.
pub open spec fn any_open(tasks: Seq<TaskModel>) -> bool {
    exists|i: int| 0 <= i < tasks.len() && still_open(#[trigger] tasks[i])
}

/// There are open tasks exactly when some task is open.
proof fn open_tasks_are_some(tasks: Seq<TaskModel>)
    ensures
        open_tasks(tasks).len() > 0 <==> any_open(tasks),
{
    let list = open_tasks(tasks);
    if list.len() > 0 {
        assert(list.contains(list[0]));
        open_tasks_are_open(tasks, list[0]);
        let i = choose|i: int| 0 <= i < tasks.len() && tasks[i] == list[0];
        assert(still_open(tasks[i]));
    }
    if any_open(tasks) {
        let i = choose|i: int| 0 <= i < tasks.len() && still_open(#[trigger] tasks[i]);
        assert(tasks.contains(tasks[i]));
        open_tasks_are_open(tasks, tasks[i]);
        let k = choose|k: int| 0 <= k < list.len() && list[k] == tasks[i];
    }
}

/// A pause is kept with its reason where the batch is accepted and leaves open work; without open work it
/// is refused, and nothing is stored.
pub proof fn pauses_need_open_work(
    ledger: LedgerModel,
    spawned: bool,
    entries: Seq<EntryModel>,
    reason: Seq<char>,
    now: i64,
)
    requires
        upserted(ledger, entries, now).applied.errors.len() == 0,
    ensures
        ({
            let (after, write, stored) = written(
                ledger,
                spawned,
                entries,
                true,
                Some(reason),
                now,
            );
            if any_open(after.tasks) {
                &&& after.pause == Some(reason)
                &&& write.errors.len() == 0
                &&& write.pause_line == Some("Paused: "@ + reason)
                &&& ledger.pause != Some(reason) ==> stored
            } else {
                &&& after.pause == ledger.pause
                &&& write.errors.len() == 1
                &&& write.pause_line is None
                &&& !stored
            }
        }),
{
    batch_changes_tasks_only(ledger, entries, now);
    open_tasks_are_some(upserted(ledger, entries, now).ledger.tasks);
}

/// A write that resumes clears the pause, whatever else it holds, where its batch is accepted.
pub proof fn resuming_clears_the_pause(
    ledger: LedgerModel,
    spawned: bool,
    entries: Seq<EntryModel>,
    now: i64,
)
    requires
        upserted(ledger, entries, now).applied.errors.len() == 0,
    ensures
        written(ledger, spawned, entries, true, None, now).0.pause is None,
        written(ledger, spawned, entries, true, None, now).1.pause_line == Some("Resumed."@),
        ledger.pause is Some ==> written(ledger, spawned, entries, true, None, now).2,
{
    batch_changes_tasks_only(ledger, entries, now);
}

/// A write keeps the batch's plan, and the limits and workers of the ledger; it is stored where the batch
/// changed a task, and the surface is shown the plan exactly where a stored write changed what is shown.
pub proof fn writes_keep_the_batch(
    ledger: LedgerModel,
    spawned: bool,
    entries: Seq<EntryModel>,
    pausing: bool,
    pause: Option<Seq<char>>,
    now: i64,
)
    ensures
        ({
            let draft = upserted(ledger, entries, now);
            let (after, write, stored) = written(ledger, spawned, entries, pausing, pause, now);
            &&& after.tasks == draft.ledger.tasks
            &&& after.parallelism == ledger.parallelism
            &&& after.executions == ledger.executions
            &&& write.errors.len() == 0 && draft.applied.changed ==> stored
            &&& write.errors.len() == 0 && after.pause != ledger.pause ==> stored
            &&& write.plan_update is Some <==> stored && plan_of(ledger) != plan_of(after)
            &&& write.plan_update matches Some(plan) ==> plan == plan_of(after)
            &&& forall|e: int|
                0 <= e < draft.applied.errors.len() ==> write.errors.contains(
                    #[trigger] draft.applied.errors[e],
                )
        }),
{
    batch_changes_tasks_only(ledger, entries, now);
    let errors = upserted(ledger, entries, now).applied.errors;
    let told = written(ledger, spawned, entries, pausing, pause, now).1.errors;
    assert forall|e: int| 0 <= e < errors.len() implies told.contains(#[trigger] errors[e]) by {
        assert(told[e] == errors[e]);
    }
}

/// What a list held, it holds with one more id, and the one more where it was wanted.
proof fn new_is_held(list: Seq<Seq<char>>, id: Seq<char>, wanted: bool, other: Seq<char>)
    ensures
        list.contains(other) ==> with_new(list, id, wanted).contains(other),
        wanted ==> with_new(list, id, wanted).contains(id),
{
    let after = with_new(list, id, wanted);
    if wanted && !list.contains(id) {
        assert(after[list.len() as int] == id);
    }
    if list.contains(other) {
        let k = choose|k: int| 0 <= k < list.len() && list[k] == other;
        assert(after[k] == other);
    }
}

/// How a task stood is told by its row.
proof fn prior_is_the_row(
    plan: Seq<TaskModel>,
    rows: Seq<TaskModel>,
    id: Seq<char>,
)
    requires
        distinct(rows),
    ensures
        forall|i: int|
            0 <= i < rows.len() && (#[trigger] rows[i]).id == id ==> prior_of(plan, rows, id)
                == Some(Prior { status: rows[i].status, state: state_of(plan, rows[i]) }),
        prior_of(plan, rows, id) is Some ==> has_id(rows, id),
    decreases rows.len(),
{
    if rows.len() > 0 {
        let head = rows.drop_last();
        assert(distinct(head)) by {
            assert forall|i: int, j: int| 0 <= i < j < head.len() implies (#[trigger] head[i]).id
                != (#[trigger] head[j]).id by {
                assert(rows[i].id != rows[j].id);
            }
        }
        prior_is_the_row(plan, head, id);
        assert forall|i: int| 0 <= i < rows.len() && (#[trigger] rows[i]).id == id implies prior_of(
            plan,
            rows,
            id,
        ) == Some(Prior { status: rows[i].status, state: state_of(plan, rows[i]) }) by {
            if i < rows.len() - 1 {
                assert(rows[i].id != rows[rows.len() - 1].id);
                assert(head[i] == rows[i]);
            }
        }
        if rows.last().id == id {
            assert(rows[rows.len() - 1].id == id);
        } else if has_id(head, id) {
            let i = choose|i: int| 0 <= i < head.len() && (#[trigger] head[i]).id == id;
            assert(rows[i].id == id);
        }
    }
}

/// The task was not active before.
pub open spec fn was_not_active(prior: Seq<TaskModel>, id: Seq<char>) -> bool {
    forall|i: int|
        0 <= i < prior.len() && (#[trigger] prior[i]).id == id ==> !(workable(prior, prior[i])
            && prior[i].status == Status::Active)
}

/// The task was not done before.
pub open spec fn was_not_done(prior: Seq<TaskModel>, id: Seq<char>) -> bool {
    forall|i: int|
        0 <= i < prior.len() && (#[trigger] prior[i]).id == id ==> prior[i].status != Status::Done
}

/// What outcomes did to a task that one of them stands for.
proof fn changes_hold(
    prior: Seq<TaskModel>,
    tasks: Seq<TaskModel>,
    outcomes: Seq<OutcomeModel>,
    n: nat,
    k: int,
    task: TaskModel,
)
    requires
        distinct(prior),
        distinct(tasks),
        tasks.contains(task),
        0 <= k < n <= outcomes.len(),
        !outcomes[k].refused,
        outcomes[k].task == Some(task.id),
    ensures
        ({
            let changes = changes_of(prior, tasks, outcomes, n);
            &&& outcomes[k].created ==> changes.added.contains(task.id)
            &&& outcomes[k].changed ==> changes.added.contains(task.id) || changes.updated.contains(
                task.id,
            )
            &&& task.status == Status::Done && was_not_done(prior, task.id)
                ==> changes.finished.contains(task.id)
            &&& workable(tasks, task) && task.status == Status::Active && was_not_active(
                prior,
                task.id,
            ) ==> listed(changes.activated, task.id)
        }),
    decreases n,
{
    let i = choose|i: int| 0 <= i < tasks.len() && tasks[i] == task;
    rows_are_found(tasks, i);
    standing_is_told_by_the_fields(tasks, task);
    prior_is_the_row(prior, prior, task.id);
    activated_hold(prior, tasks, outcomes, (n - 1) as nat);
    if has_id(prior, task.id) {
        let j = choose|j: int| 0 <= j < prior.len() && (#[trigger] prior[j]).id == task.id;
        standing_is_told_by_the_fields(prior, prior[j]);
    }
    let before = changes_of(prior, tasks, outcomes, (n - 1) as nat);
    if k < n - 1 {
        changes_hold(prior, tasks, outcomes, (n - 1) as nat, k, task);
    }
    if let Some(id) = taken_task(outcomes[n - 1]) {
        if let Some(other) = find(tasks, id) {
            let outcome = outcomes[n - 1];
            let adds = outcome.created && !before.added.contains(id);
            let finishes = other.status == Status::Done && (match prior_of(prior, prior, id) {
                Some(prior) => prior.status != Status::Done,
                None => true,
            });
            new_is_held(before.added, id, outcome.created, task.id);
            new_is_held(before.updated, id, !adds && outcome.changed, task.id);
            new_is_held(before.finished, id, finishes, task.id);
            placed_found(
                before.activated,
                id,
                recall_of(tasks, other, Seq::empty()),
                task.id,
            );
            placed_found(before.activated, id, recall_of(tasks, other, Seq::empty()), id);
            if listed(before.activated, task.id) {
                assert(lookup(before.activated, task.id) is Some);
            }
        }
    }
}

/// What is activated is in order, and each record is that of a task that is active now.
proof fn activated_hold(
    prior: Seq<TaskModel>,
    tasks: Seq<TaskModel>,
    outcomes: Seq<OutcomeModel>,
    n: nat,
)
    requires
        distinct(tasks),
        n <= outcomes.len(),
    ensures
        ascending(changes_of(prior, tasks, outcomes, n).activated),
        forall|id: Seq<char>| #[trigger]
            listed(changes_of(prior, tasks, outcomes, n).activated, id) ==> has_id(tasks, id)
                && is_active_record(
                tasks,
                id,
                lookup(changes_of(prior, tasks, outcomes, n).activated, id)->0,
            ),
    decreases n,
{
    let after = changes_of(prior, tasks, outcomes, n).activated;
    if n > 0 {
        activated_hold(prior, tasks, outcomes, (n - 1) as nat);
        let before = changes_of(prior, tasks, outcomes, (n - 1) as nat).activated;
        if let Some(id) = taken_task(outcomes[n - 1]) {
            if let Some(task) = find(tasks, id) {
                let text = recall_of(tasks, task, Seq::empty());
                crate::ledger::query::position_iff(tasks, id);
                let p = crate::ledger::query::position(tasks, id)->0;
                assert(tasks[p] == task && task.id == id);
                standing_is_told_by_the_fields(tasks, task);
                placed_found(before, id, text, id);
                assert forall|other: Seq<char>| #[trigger] listed(after, other) implies has_id(
                    tasks,
                    other,
                ) && is_active_record(tasks, other, lookup(after, other)->0) by {
                    placed_found(before, id, text, other);
                    if after != before {
                        if other == id {
                            assert(tasks[p].id == other);
                            assert(is_active_row(tasks, p, other, text));
                        } else {
                            assert(lookup(before, other) is Some);
                            assert(listed(before, other));
                        }
                    }
                }
            }
        }
    } else {
        assert forall|id: Seq<char>| #[trigger] listed(after, id) implies has_id(tasks, id)
            && is_active_record(tasks, id, lookup(after, id)->0) by {
            listed_iff(after, id);
        }
    }
}

/// The text is the record of a row that is active.
pub open spec fn is_active_row(
    tasks: Seq<TaskModel>,
    i: int,
    id: Seq<char>,
    text: Seq<char>,
) -> bool {
    0 <= i < tasks.len() && tasks[i].id == id && workable(tasks, tasks[i]) && tasks[i].status
        == Status::Active && text == recall_of(tasks, tasks[i], Seq::empty())
}

/// The text is the record of the task with this id, and the task is active.
pub open spec fn is_active_record(tasks: Seq<TaskModel>, id: Seq<char>, text: Seq<char>) -> bool {
    exists|i: int| is_active_row(tasks, i, id, text)
}

/// A write hands out the complete record of every task that it started: one that an accepted entry
/// stands for, that is active now and was not before. It hands out no other.
pub proof fn started_tasks_are_handed_out(
    ledger: LedgerModel,
    spawned: bool,
    entries: Seq<EntryModel>,
    pausing: bool,
    pause: Option<Seq<char>>,
    now: i64,
    k: int,
    i: int,
)
    requires
        distinct(ledger.tasks),
        distinct(upserted(ledger, entries, now).ledger.tasks),
        0 <= k < upserted(ledger, entries, now).applied.outcomes.len(),
        0 <= i < upserted(ledger, entries, now).ledger.tasks.len(),
    ensures
        ({
            let draft = upserted(ledger, entries, now);
            let tasks = draft.ledger.tasks;
            let outcome = draft.applied.outcomes[k];
            let write = written(ledger, spawned, entries, pausing, pause, now).1;
            &&& !outcome.refused && outcome.task == Some(tasks[i].id) && workable(tasks, tasks[i])
                && tasks[i].status == Status::Active && was_not_active(ledger.tasks, tasks[i].id)
                ==> lookup(write.activated, tasks[i].id) == Some(
                recall_of(tasks, tasks[i], Seq::empty()),
            )
            &&& listed(write.activated, tasks[i].id) ==> workable(tasks, tasks[i])
                && tasks[i].status == Status::Active
        }),
{
    let draft = upserted(ledger, entries, now);
    let tasks = draft.ledger.tasks;
    let outcomes = draft.applied.outcomes;
    let n = outcomes.len();
    let activated = changes_of(ledger.tasks, tasks, outcomes, n).activated;
    let id = tasks[i].id;
    activated_hold(ledger.tasks, tasks, outcomes, n);
    if !outcomes[k].refused && outcomes[k].task == Some(id) {
        assert(tasks.contains(tasks[i]));
        changes_hold(ledger.tasks, tasks, outcomes, n, k, tasks[i]);
    }
    if listed(activated, id) {
        let text = lookup(activated, id)->0;
        assert(is_active_record(tasks, id, text));
        let j = choose|j: int| is_active_row(tasks, j, id, text);
        if j < i {
            assert(tasks[j].id != tasks[i].id);
        } else if i < j {
            assert(tasks[i].id != tasks[j].id);
        }
    }
}

/// A list of ids names each task among them.
proof fn names_are_listed(tasks: Seq<TaskModel>, ids: Seq<Seq<char>>, task: TaskModel)
    requires
        distinct(tasks),
        tasks.contains(task),
        ids.contains(task.id),
    ensures
        mentions(list_of(tasks, ids), task.id + " "@ + task.title),
{
    let i = choose|i: int| 0 <= i < tasks.len() && tasks[i] == task;
    rows_are_found(tasks, i);
    let k = choose|k: int| 0 <= k < ids.len() && ids[k] == task.id;
    names_hold(tasks, ids, k, task);
    let names = names_of(tasks, ids);
    let at = choose|at: int| 0 <= at < names.len() && names[at] == titled_id(task);
    joined_mentions(names, ", "@, at);
}

/// The names of ids hold that of each.
proof fn names_hold(tasks: Seq<TaskModel>, ids: Seq<Seq<char>>, k: int, task: TaskModel)
    requires
        0 <= k < ids.len(),
        find(tasks, ids[k]) == Some(task),
    ensures
        names_of(tasks, ids).contains(titled_id(task)),
    decreases ids.len(),
{
    let before = names_of(tasks, ids.drop_last());
    let after = names_of(tasks, ids);
    if k == ids.len() - 1 {
        assert(after[before.len() as int] == titled_id(task));
    } else {
        names_hold(tasks, ids.drop_last(), k, task);
        let at = choose|at: int| 0 <= at < before.len() && before[at] == titled_id(task);
        assert(after[at] == titled_id(task));
    }
}

/// A part that names tasks tells each of them.
proof fn naming_part_tells(lead: Seq<char>, tasks: Seq<TaskModel>, ids: Seq<Seq<char>>, task: TaskModel)
    requires
        distinct(tasks),
        tasks.contains(task),
        ids.contains(task.id),
    ensures
        tells(naming_part(lead, tasks, ids), task.id + " "@ + task.title),
{
    let part = task.id + " "@ + task.title;
    names_are_listed(tasks, ids, task);
    mentioned_after(lead, list_of(tasks, ids), part);
    line_tells(lead + list_of(tasks, ids), part);
}

/// What a group of the parts of a write's summary tells, the summary mentions.
proof fn summary_tells(
    ledger: LedgerModel,
    applied: AppliedModel,
    changes: Changes,
    any_entry: bool,
    any_error: bool,
    part: Seq<char>,
)
    requires
        tells(naming_part("added "@, ledger.tasks, changes.added), part) || tells(
            naming_part("done "@, ledger.tasks, changes.finished),
            part,
        ) || mentions(summary_of(ledger), part),
    ensures
        mentions(
            joined(write_parts(ledger, applied, changes, any_entry, any_error), " · "@),
            part,
        ),
{
    let tasks = ledger.tasks;
    let taken = any_taken(applied.outcomes);
    let a = naming_part("added "@, tasks, changes.added);
    let b = naming_part("updated "@, tasks, merely_updated(applied, changes));
    let c = part_if(any_entry && !taken && !any_error, "nothing taken"@);
    let d = part_if(any_entry && taken && !applied.changed, "nothing changed"@);
    let e = division_parts(tasks, applied.divided);
    let f = merge_parts(tasks, applied.merged);
    let g = naming_part("done "@, tasks, changes.finished);
    let h = seq![summary_of(ledger)];
    if tells(a, part) {
        both_tell(a, b, part);
        both_tell(a + b, c, part);
        both_tell(a + b + c, d, part);
        both_tell(a + b + c + d, e, part);
        both_tell(a + b + c + d + e, f, part);
    }
    if tells(a, part) || tells(g, part) {
        both_tell(a + b + c + d + e + f, g, part);
    } else {
        line_tells(summary_of(ledger), part);
    }
    both_tell(a + b + c + d + e + f + g, h, part);
    joined_lines_tell(
        write_parts(ledger, applied, changes, any_entry, any_error),
        " · "@,
        part,
    );
}

/// The summary of a write names every task that it added and every task that it finished.
pub proof fn summaries_name_what_changed(
    ledger: LedgerModel,
    spawned: bool,
    entries: Seq<EntryModel>,
    pausing: bool,
    pause: Option<Seq<char>>,
    now: i64,
    k: int,
    i: int,
)
    requires
        distinct(ledger.tasks),
        distinct(upserted(ledger, entries, now).ledger.tasks),
        0 <= k < upserted(ledger, entries, now).applied.outcomes.len(),
        0 <= i < upserted(ledger, entries, now).ledger.tasks.len(),
        !upserted(ledger, entries, now).applied.outcomes[k].refused,
        upserted(ledger, entries, now).applied.outcomes[k].task == Some(
            upserted(ledger, entries, now).ledger.tasks[i].id,
        ),
        upserted(ledger, entries, now).applied.outcomes[k].created || (upserted(
            ledger,
            entries,
            now,
        ).ledger.tasks[i].status == Status::Done && was_not_done(
            ledger.tasks,
            upserted(ledger, entries, now).ledger.tasks[i].id,
        )),
    ensures
        mentions(
            written(ledger, spawned, entries, pausing, pause, now).1.summary_line,
            upserted(ledger, entries, now).ledger.tasks[i].id + " "@ + upserted(
                ledger,
                entries,
                now,
            ).ledger.tasks[i].title,
        ),
{
    let draft = upserted(ledger, entries, now);
    let tasks = draft.ledger.tasks;
    let applied = draft.applied;
    let task = tasks[i];
    let part = task.id + " "@ + task.title;
    let changes = changes_of(ledger.tasks, tasks, applied.outcomes, applied.outcomes.len());
    assert(tasks.contains(task));
    changes_hold(ledger.tasks, tasks, applied.outcomes, applied.outcomes.len(), k, task);
    let (after, write, _) = written(ledger, spawned, entries, pausing, pause, now);
    if applied.outcomes[k].created {
        naming_part_tells("added "@, tasks, changes.added, task);
    } else {
        naming_part_tells("done "@, tasks, changes.finished, task);
    }
    summary_tells(after, applied, changes, entries.len() > 0, write.errors.len() > 0, part);
}

/// What the caller is told of a write that starts nothing holds every error and the summary, and of a
/// refused one that no task entry changed.
pub proof fn feedback_tells_errors(write: WrittenModel, parent: Option<Seq<TaskModel>>, e: int)
    requires
        write.activated.len() == 0,
    ensures
        0 <= e < write.errors.len() ==> mentions(feedback_of(write, parent), write.errors[e])
            && mentions(
            feedback_of(write, parent),
            "No task entry changed because this batch is transactional."@,
        ),
        mentions(feedback_of(write, parent), write.summary_line),
        write.pause_line matches Some(line) ==> mentions(feedback_of(write, parent), line),
{
    let a = write.errors;
    let b = parent_notes(parent, write.attempted_unknown);
    let none = "No task entry changed because this batch is transactional."@;
    let c = part_if(write.errors.len() > 0, none);
    let d = seq![write.summary_line];
    let g = match write.pause_line {
        Some(line) => seq![line],
        None => Seq::empty(),
    };
    let lines = feedback_lines(write, parent);
    if 0 <= e < a.len() {
        mentions_itself(a[e]);
        listed_line_tells(a, e, a[e]);
        both_tell(a, b, a[e]);
        both_tell(a + b, c, a[e]);
        both_tell(a + b + c, d, a[e]);
        both_tell(a + b + c + d, g, a[e]);
        joined_lines_tell(lines, "\n"@, a[e]);
        mentions_itself(none);
        line_tells(none, none);
        both_tell(a + b, c, none);
        both_tell(a + b + c, d, none);
        both_tell(a + b + c + d, g, none);
        joined_lines_tell(lines, "\n"@, none);
    }
    mentions_itself(write.summary_line);
    line_tells(write.summary_line, write.summary_line);
    both_tell(a + b + c, d, write.summary_line);
    both_tell(a + b + c + d, g, write.summary_line);
    joined_lines_tell(lines, "\n"@, write.summary_line);
    if let Some(line) = write.pause_line {
        mentions_itself(line);
        line_tells(line, line);
        both_tell(a + b + c + d, g, line);
        joined_lines_tell(lines, "\n"@, line);
    }
}

/// A session with a parent whose batch is refused is told, of an entry whose id names nothing here and a
/// task of the parent, that the task is the parent's.
pub proof fn tasks_of_the_parent_are_told(
    ledger: LedgerModel,
    entries: Seq<EntryModel>,
    now: i64,
    parent: Seq<TaskModel>,
    k: int,
)
    requires
        upserted(ledger, entries, now).applied.errors.len() > 0,
        0 <= k < entries.len(),
        entries[k].id matches Some(id) && resolved(ledger.tasks, id) is None && resolved(
            parent,
            id,
        ) is Some,
    ensures
        ({
            let write = written(ledger, true, entries, false, None, now).1;
            let found = resolved(parent, entries[k].id->0)->0;
            &&& tells(feedback_lines(write, Some(parent)), found.id)
            &&& tells(feedback_lines(write, Some(parent)), " is in the parent ledger."@)
        }),
{
    let write = written(ledger, true, entries, false, None, now).1;
    let id = entries[k].id->0;
    let found = resolved(parent, id)->0;
    refused_batch_keeps_the_ledger(ledger, entries, now);
    unknown_holds(ledger.tasks, entries, k);
    let ids = write.attempted_unknown;
    let u = choose|u: int| 0 <= u < ids.len() && ids[u] == id;
    parent_ids_hold(parent, ids, u);
    let tasks = parent_ids(parent, ids);
    let i = choose|i: int| 0 <= i < tasks.len() && tasks[i] == found.id;
    let b = parent_notes(Some(parent), ids);
    parent_note_tells(found.id);
    listed_line_tells(b, i, found.id);
    listed_line_tells(b, i, " is in the parent ledger."@);
    notes_are_told(write, parent, found.id);
    notes_are_told(write, parent, " is in the parent ledger."@);
}

/// A refused batch leaves the plan.
proof fn refused_batch_keeps_the_ledger(ledger: LedgerModel, entries: Seq<EntryModel>, now: i64)
    requires
        upserted(ledger, entries, now).applied.errors.len() > 0,
    ensures
        upserted(ledger, entries, now).ledger == ledger,
{
}

/// What the notes on tasks of the parent tell, the lines tell.
proof fn notes_are_told(write: WrittenModel, parent: Seq<TaskModel>, part: Seq<char>)
    requires
        tells(parent_notes(Some(parent), write.attempted_unknown), part),
    ensures
        tells(feedback_lines(write, Some(parent)), part),
{
    let a = write.errors;
    let b = parent_notes(Some(parent), write.attempted_unknown);
    let c = part_if(
        write.errors.len() > 0,
        "No task entry changed because this batch is transactional."@,
    );
    let d = seq![write.summary_line];
    let g = match write.pause_line {
        Some(line) => seq![line],
        None => Seq::empty(),
    };
    both_tell(a, b, part);
    both_tell(a + b, c, part);
    both_tell(a + b + c, d, part);
    both_tell(a + b + c + d, g, part);
}

/// The note on a task of the parent tells its id, and that it is the parent's.
proof fn parent_note_tells(id: Seq<char>)
    ensures
        mentions(parent_note(id), id),
        mentions(parent_note(id), " is in the parent ledger."@),
{
    let lead = "#"@ + id;
    let long =
        " is in the parent ledger. Child ledgers are separate: use recall [\"parent:"@;
    let end =
        "\"] to read it, then record child-local work here; a child cannot change its parent's tasks."@;
    let short = " is in the parent ledger."@;
    reveal_strlit(" is in the parent ledger. Child ledgers are separate: use recall [\"parent:");
    reveal_strlit(" is in the parent ledger.");
    assert(long.subrange(0, short.len() as int) =~= short);
    assert(stands_at(long, short, 0));
    mentioned_after(lead, long, short);
    mentioned_before(lead + long, id, short);
    mentioned_before(lead + long + id, end, short);
    mentions_itself(id);
    mentioned_after(lead + long, id, id);
    mentioned_before(lead + long + id, end, id);
}

/// Ids that name nothing hold the id of each entry that names nothing.
proof fn unknown_holds(tasks: Seq<TaskModel>, entries: Seq<EntryModel>, k: int)
    requires
        0 <= k < entries.len(),
        entries[k].id matches Some(id) && resolved(tasks, id) is None,
    ensures
        unknown_ids(tasks, entries).contains(entries[k].id->0),
    decreases entries.len(),
{
    let before = unknown_ids(tasks, entries.drop_last());
    let after = unknown_ids(tasks, entries);
    if k == entries.len() - 1 {
        assert(after[before.len() as int] == entries[k].id->0);
    } else {
        unknown_holds(tasks, entries.drop_last(), k);
        let u = choose|u: int| 0 <= u < before.len() && before[u] == entries[k].id->0;
        assert(after[u] == entries[k].id->0);
    }
}

/// The tasks of the parent that ids name hold that of each.
proof fn parent_ids_hold(parent: Seq<TaskModel>, ids: Seq<Seq<char>>, u: int)
    requires
        0 <= u < ids.len(),
        resolved(parent, ids[u]) is Some,
    ensures
        parent_ids(parent, ids).contains(resolved(parent, ids[u])->0.id),
    decreases ids.len(),
{
    let before = parent_ids(parent, ids.drop_last());
    let id = resolved(parent, ids[u])->0.id;
    if u < ids.len() - 1 {
        parent_ids_hold(parent, ids.drop_last(), u);
    }
    if let Some(task) = resolved(parent, ids.last()) {
        new_is_held(before, task.id, true, id);
    }
}

/// A reference that names nothing of the session but a task of its parent is answered with how to recall
/// that task.
pub proof fn tasks_of_the_parent_are_pointed_out(
    unknown: Seq<Seq<char>>,
    parent: Seq<TaskModel>,
    u: int,
)
    requires
        0 <= u < unknown.len(),
        !names_the_parent(unknown[u]),
        resolved(parent, unknown[u]) is Some,
    ensures
        tells(
            unknown_messages(unknown, Some(parent)),
            "parent:"@ + resolved(parent, unknown[u])->0.id,
        ),
{
    let part = "parent:"@ + resolved(parent, unknown[u])->0.id;
    let list = hints(parent, unknown);
    parent_references_are_marked(unknown[u]);
    assert(any_local(unknown));
    hints_hold(parent, unknown, u);
    let k = choose|k: int| 0 <= k < list.len() && list[k] == part;
    let lead = "These tasks are in the parent ledger. Retry them as: "@;
    let text = joined(list, ", "@);
    mentions_itself(part);
    joined_mentions(list, ", "@, k);
    mentioned_after(lead, text, part);
    mentioned_before(lead + text, "."@, part);
    line_tells(lead + text + "."@, part);
    both_tell(
        seq!["Unknown task references: "@ + joined(unknown, ", "@) + "."@],
        seq![lead + text + "."@],
        part,
    );
}

/// The hints hold one for each reference that names a task of the parent.
proof fn hints_hold(parent: Seq<TaskModel>, unknown: Seq<Seq<char>>, u: int)
    requires
        0 <= u < unknown.len(),
        !to_parent(unknown[u]),
        resolved(parent, unknown[u]) is Some,
    ensures
        hints(parent, unknown).contains("parent:"@ + resolved(parent, unknown[u])->0.id),
    decreases unknown.len(),
{
    let part = "parent:"@ + resolved(parent, unknown[u])->0.id;
    let before = hints(parent, unknown.drop_last());
    let after = hints(parent, unknown);
    if u == unknown.len() - 1 {
        assert(after[before.len() as int] == part);
    } else {
        hints_hold(parent, unknown.drop_last(), u);
        let k = choose|k: int| 0 <= k < before.len() && before[k] == part;
        assert(after[k] == part);
    }
}

/// Nothing of the batch was divided or merged.
pub open spec fn reshapes_nothing(applied: AppliedModel) -> bool {
    applied.divided.len() == 0 && applied.merged.len() == 0
}

/// The summary of a write names every task that it changed, where no more came of it than a change: the
/// task is not new, not done and not active.
pub proof fn summaries_name_what_was_updated(
    ledger: LedgerModel,
    spawned: bool,
    entries: Seq<EntryModel>,
    pausing: bool,
    pause: Option<Seq<char>>,
    now: i64,
    k: int,
    i: int,
)
    requires
        distinct(ledger.tasks),
        distinct(upserted(ledger, entries, now).ledger.tasks),
        reshapes_nothing(upserted(ledger, entries, now).applied),
        0 <= k < upserted(ledger, entries, now).applied.outcomes.len(),
        0 <= i < upserted(ledger, entries, now).ledger.tasks.len(),
        !upserted(ledger, entries, now).applied.outcomes[k].refused,
        upserted(ledger, entries, now).applied.outcomes[k].changed,
        upserted(ledger, entries, now).applied.outcomes[k].task == Some(
            upserted(ledger, entries, now).ledger.tasks[i].id,
        ),
        still_open(upserted(ledger, entries, now).ledger.tasks[i]),
        upserted(ledger, entries, now).ledger.tasks[i].status != Status::Active,
    ensures
        mentions(
            written(ledger, spawned, entries, pausing, pause, now).1.summary_line,
            upserted(ledger, entries, now).ledger.tasks[i].id + " "@ + upserted(
                ledger,
                entries,
                now,
            ).ledger.tasks[i].title,
        ),
{
    let draft = upserted(ledger, entries, now);
    let tasks = draft.ledger.tasks;
    let applied = draft.applied;
    let n = applied.outcomes.len();
    let task = tasks[i];
    let part = task.id + " "@ + task.title;
    let changes = changes_of(ledger.tasks, tasks, applied.outcomes, n);
    assert(tasks.contains(task));
    changes_hold(ledger.tasks, tasks, applied.outcomes, n, k, task);
    activated_hold(ledger.tasks, tasks, applied.outcomes, n);
    finished_are_done(ledger.tasks, tasks, applied.outcomes, n);
    let (after, write, _) = written(ledger, spawned, entries, pausing, pause, now);
    if changes.added.contains(task.id) {
        naming_part_tells("added "@, tasks, changes.added, task);
        summary_tells(after, applied, changes, entries.len() > 0, write.errors.len() > 0, part);
    } else {
        rows_are_found(tasks, i);
        if changes.finished.contains(task.id) {
            assert(find(tasks, task.id)->0.status == Status::Done);
        }
        if exists|a: int|
            0 <= a < changes.activated.len() && (#[trigger] changes.activated[a]).0 == task.id {
            listed_iff(changes.activated, task.id);
            assert(listed(changes.activated, task.id));
            let text = lookup(changes.activated, task.id)->0;
            assert(is_active_record(tasks, task.id, text));
            let j = choose|j: int| is_active_row(tasks, j, task.id, text);
            rows_are_found(tasks, j);
        }
        let keep = |id: Seq<char>| !crate::tool::write::detailed(applied, changes, id);
        crate::ledger::standing::kept_by_filter(changes.updated, keep, task.id);
        naming_part_tells("updated "@, tasks, merely_updated(applied, changes), task);
        updates_are_told(after, applied, changes, entries.len() > 0, write.errors.len() > 0, part);
    }
}

/// What the part on updated tasks tells, the summary mentions.
proof fn updates_are_told(
    ledger: LedgerModel,
    applied: AppliedModel,
    changes: Changes,
    any_entry: bool,
    any_error: bool,
    part: Seq<char>,
)
    requires
        tells(naming_part("updated "@, ledger.tasks, merely_updated(applied, changes)), part),
    ensures
        mentions(
            joined(write_parts(ledger, applied, changes, any_entry, any_error), " · "@),
            part,
        ),
{
    let tasks = ledger.tasks;
    let taken = any_taken(applied.outcomes);
    let a = naming_part("added "@, tasks, changes.added);
    let b = naming_part("updated "@, tasks, merely_updated(applied, changes));
    let c = part_if(any_entry && !taken && !any_error, "nothing taken"@);
    let d = part_if(any_entry && taken && !applied.changed, "nothing changed"@);
    let e = division_parts(tasks, applied.divided);
    let f = merge_parts(tasks, applied.merged);
    let g = naming_part("done "@, tasks, changes.finished);
    let h = seq![summary_of(ledger)];
    both_tell(a, b, part);
    both_tell(a + b, c, part);
    both_tell(a + b + c, d, part);
    both_tell(a + b + c + d, e, part);
    both_tell(a + b + c + d + e, f, part);
    both_tell(a + b + c + d + e + f, g, part);
    both_tell(a + b + c + d + e + f + g, h, part);
    joined_lines_tell(
        write_parts(ledger, applied, changes, any_entry, any_error),
        " · "@,
        part,
    );
}

/// What is told as finished is done.
proof fn finished_are_done(
    prior: Seq<TaskModel>,
    tasks: Seq<TaskModel>,
    outcomes: Seq<OutcomeModel>,
    n: nat,
)
    requires
        n <= outcomes.len(),
    ensures
        forall|id: Seq<char>| #[trigger]
            changes_of(prior, tasks, outcomes, n).finished.contains(id) ==> (find(
                tasks,
                id,
            ) matches Some(task) && task.status == Status::Done),
    decreases n,
{
    if n > 0 {
        finished_are_done(prior, tasks, outcomes, (n - 1) as nat);
        let before = changes_of(prior, tasks, outcomes, (n - 1) as nat).finished;
        let after = changes_of(prior, tasks, outcomes, n).finished;
        assert forall|id: Seq<char>| #[trigger] after.contains(id) implies (find(
            tasks,
            id,
        ) matches Some(task) && task.status == Status::Done) by {
            let k = choose|k: int| 0 <= k < after.len() && after[k] == id;
            if k < before.len() {
                assert(before[k] == id);
                assert(before.contains(id));
            }
        }
    }
}

} // verus!
