//! Read-only task detail from a session's own ledger and from its parent's.

use vstd::prelude::*;
use vstd::string::StringExecFns;
use vstd::view::View as _;

use crate::details;
use crate::details::page_text;
use crate::ledger::model::Ledger;
use crate::ledger::model::LedgerModel;
use crate::ledger::model::TaskModel;
use crate::ledger::query::resolved;
use crate::ledger::render::recall_of;
use crate::ledger::render::render;
use crate::ledger::render::render_recall;
use crate::ledger::render::rendered_of;
use crate::table::listed;
use crate::table::placed;
use crate::table::Table;
use crate::text::join;
use crate::text::joined;
use crate::text::strip;
use crate::text::stripped;
use crate::text::texts;
use crate::text::trim;
use crate::text::trimmed;

verus! {

/// What comes of a recall: an answer, or the need to read the parent's ledger first.
#[derive(Debug, PartialEq, Eq)]
pub enum RecallStep {
    Reply(String),
    ReadParent,
}

/// What comes of a recall, with its text as a sequence of characters.
pub enum RecallModel {
    Reply(Seq<char>),
    ReadParent,
}

impl vstd::view::View for RecallStep {
    type V = RecallModel;

    open spec fn view(&self) -> RecallModel {
        match self {
            RecallStep::Reply(text) => RecallModel::Reply(text@),
            RecallStep::ReadParent => RecallModel::ReadParent,
        }
    }
}

/// A reference to a task of the parent's ledger.
pub open spec fn to_parent(reference: Seq<char>) -> bool {
    stripped(reference, "parent:"@) is Some
}

/// Some reference is to the parent's ledger.
pub open spec fn any_to_parent(references: Seq<Seq<char>>) -> bool {
    exists|i: int| 0 <= i < references.len() && to_parent(#[trigger] references[i])
}

/// Some reference is to the session's own ledger.
pub open spec fn any_local(references: Seq<Seq<char>>) -> bool {
    exists|i: int| 0 <= i < references.len() && !to_parent(#[trigger] references[i])
}

/// The first `n` references in the order of texts, each once.
pub open spec fn in_text_order(references: Seq<Seq<char>>, n: nat) -> Seq<(Seq<char>, Seq<char>)>
    decreases n,
{
    if n == 0 {
        Seq::empty()
    } else {
        placed(in_text_order(references, (n - 1) as nat), references[n - 1], references[n - 1])
    }
}

/// What was found for references, and which of them name nothing. The found records are in the
/// order of the tasks' ids, each once.
#[verifier::ext_equal]
pub struct Gathered {
    pub unknown: Seq<Seq<char>>,
    pub records: Seq<(Seq<char>, Seq<char>)>,
}

/// What one more reference adds.
pub open spec fn gathered_one(
    before: Gathered,
    source: Option<Seq<TaskModel>>,
    wanted: Seq<char>,
    prefix: Seq<char>,
    reference: Seq<char>,
) -> Gathered {
    let found = match source {
        Some(tasks) => resolved(tasks, wanted),
        None => None,
    };
    match found {
        None => Gathered { unknown: before.unknown.push(reference), ..before },
        Some(task) => {
            let key = prefix + task.id;
            if listed(before.records, key) {
                before
            } else {
                Gathered {
                    records: placed(
                        before.records,
                        key,
                        recall_of(source->0, task, prefix),
                    ),
                    ..before
                }
            }
        },
    }
}

/// What is found for the first `n` references; nothing where one asks for the whole parent ledger.
pub open spec fn gathered(
    own: Seq<TaskModel>,
    parent: Option<Seq<TaskModel>>,
    references: Seq<(Seq<char>, Seq<char>)>,
    n: nat,
) -> Option<Gathered>
    decreases n,
{
    if n == 0 {
        Some(Gathered { unknown: Seq::empty(), records: Seq::empty() })
    } else {
        let reference = references[n - 1].0;
        match gathered(own, parent, references, (n - 1) as nat) {
            None => None,
            Some(before) => match stripped(reference, "parent:"@) {
                Some(rest) => if trimmed(rest).len() == 0 {
                    None
                } else {
                    Some(gathered_one(before, parent, trimmed(rest), "parent:"@, reference))
                },
                None => Some(gathered_one(before, Some(own), reference, Seq::empty(), reference)),
            },
        }
    }
}

/// How to name, in the parent's ledger, those references that are unknown here.
pub open spec fn hints(parent: Seq<TaskModel>, unknown: Seq<Seq<char>>) -> Seq<Seq<char>>
    decreases unknown.len(),
{
    if unknown.len() == 0 {
        Seq::empty()
    } else {
        let before = hints(parent, unknown.drop_last());
        if to_parent(unknown.last()) {
            before
        } else {
            match resolved(parent, unknown.last()) {
                Some(task) => before.push("parent:"@ + task.id),
                None => before,
            }
        }
    }
}

/// What a recall says of references that name nothing here.
pub open spec fn unknown_messages(
    unknown: Seq<Seq<char>>,
    parent: Option<Seq<TaskModel>>,
) -> Seq<Seq<char>> {
    if unknown.len() == 0 {
        Seq::empty()
    } else {
        seq!["Unknown task references: "@ + joined(unknown, ", "@) + "."@] + match parent {
            Some(parent) => if any_local(unknown) && hints(parent, unknown).len() > 0 {
                seq![
                    "These tasks are in the parent ledger. Retry them as: "@ + joined(
                        hints(parent, unknown),
                        ", "@,
                    ) + "."@,
                ]
            } else {
                Seq::empty()
            },
            None => Seq::empty(),
        }
    }
}

/// The values of rows.
pub open spec fn values_of(rows: Seq<(Seq<char>, Seq<char>)>) -> Seq<Seq<char>> {
    Seq::new(rows.len(), |i: int| rows[i].1)
}

/// The records that were found, one after the other.
pub open spec fn record_messages(records: Seq<(Seq<char>, Seq<char>)>) -> Seq<Seq<char>> {
    if records.len() == 0 {
        Seq::empty()
    } else {
        seq![joined(values_of(records), "\n\n"@)]
    }
}

/// The answer to a recall of named tasks.
pub open spec fn recall_answer(
    found: Gathered,
    parent: Option<Seq<TaskModel>>,
    page: nat,
) -> Seq<char> {
    let messages = unknown_messages(found.unknown, parent) + record_messages(found.records);
    if messages.len() == 0 {
        "No tasks found for the requested references."@
    } else {
        page_text(joined(messages, "\n\n"@), page)
    }
}

/// The plan of an optional ledger.
pub open spec fn plan_in(ledger: Option<LedgerModel>) -> Option<Seq<TaskModel>> {
    match ledger {
        Some(ledger) => Some(ledger.tasks),
        None => None,
    }
}

/// What comes of a recall, given the session's own ledger, whether it has a parent, and the
/// parent's ledger where it was read.
pub open spec fn recalled(
    own: LedgerModel,
    file: Seq<char>,
    spawned: bool,
    parent: Option<LedgerModel>,
    references: Seq<Seq<char>>,
    page: nat,
) -> RecallModel {
    let rows = in_text_order(references, references.len());
    let plan = if spawned {
        plan_in(parent)
    } else {
        None
    };
    if references.len() == 0 {
        RecallModel::Reply("Ledger file: "@ + file + "\n"@ + rendered_of(own))
    } else if any_to_parent(references) && !spawned {
        RecallModel::Reply("This thread has no parent ledger to recall."@)
    } else if any_to_parent(references) && plan is None {
        RecallModel::ReadParent
    } else {
        match gathered(own.tasks, plan, rows, rows.len()) {
            None => RecallModel::Reply(
                "Parent recall requires a task id or title; it never reads the whole parent ledger."@,
            ),
            Some(found) => if spawned && plan is None && any_local(found.unknown) {
                RecallModel::ReadParent
            } else {
                RecallModel::Reply(recall_answer(found, plan, page))
            },
        }
    }
}

/// Once the parent's ledger is read, or where there is none, a recall is answered.
pub proof fn recall_answers(
    own: LedgerModel,
    file: Seq<char>,
    spawned: bool,
    parent: Option<LedgerModel>,
    references: Seq<Seq<char>>,
    page: nat,
)
    requires
        spawned ==> parent is Some,
    ensures
        recalled(own, file, spawned, parent, references, page) is Reply,
{
}

/// Whether a reference is to the parent's ledger.
fn is_to_parent(reference: &str) -> (r: bool)
    ensures
        r == to_parent(reference@),
{
    strip(reference, "parent:").is_some()
}

/// Whether some reference is to the parent's ledger.
fn has_to_parent(references: &Vec<String>) -> (r: bool)
    ensures
        r == any_to_parent(texts(references@)),
{
    let ghost all = texts(references@);
    let mut i: usize = 0;
    while i < references.len()
        invariant
            i <= references@.len(),
            all == texts(references@),
            forall|j: int| 0 <= j < i ==> !to_parent(#[trigger] all[j]),
        decreases references@.len() - i,
    {
        if is_to_parent(references[i].as_str()) {
            assert(to_parent(all[i as int]));
            return true;
        }
        i += 1;
    }
    false
}

/// Whether some reference is to the session's own ledger.
fn has_local(references: &Vec<String>) -> (r: bool)
    ensures
        r == any_local(texts(references@)),
{
    let ghost all = texts(references@);
    let mut i: usize = 0;
    while i < references.len()
        invariant
            i <= references@.len(),
            all == texts(references@),
            forall|j: int| 0 <= j < i ==> to_parent(#[trigger] all[j]),
        decreases references@.len() - i,
    {
        if !is_to_parent(references[i].as_str()) {
            assert(!to_parent(all[i as int]));
            return true;
        }
        i += 1;
    }
    false
}

/// The references in the order of texts, each once.
fn order_texts(references: &Vec<String>) -> (rows: Table<String>)
    ensures
        rows@ == in_text_order(texts(references@), texts(references@).len()),
{
    let mut rows: Table<String> = Table::new();
    let mut i: usize = 0;
    while i < references.len()
        invariant
            i <= references@.len(),
            rows@ == in_text_order(texts(references@), i as nat),
        decreases references@.len() - i,
    {
        let _ = rows.insert(references[i].clone(), references[i].clone());
        i += 1;
    }
    rows
}

/// Adds what one reference names.
fn gather_one(
    unknown: &mut Vec<String>,
    records: &mut Table<String>,
    source: Option<&Ledger>,
    wanted: &str,
    prefix: &str,
    reference: &str,
)
    ensures
        (Gathered { unknown: texts(final(unknown)@), records: final(records)@ }) == gathered_one(
            (Gathered { unknown: texts(old(unknown)@), records: old(records)@ }),
            (match source {
                Some(ledger) => Some(ledger.model().tasks),
                None => None,
            }),
            wanted@,
            prefix@,
            reference@,
        ),
{
    let found = match source {
        Some(ledger) => match ledger.resolve(wanted) {
            Some(task) => Some((ledger, task)),
            None => None,
        },
        None => None,
    };
    match found {
        None => {
            let ghost before = unknown@;
            unknown.push(reference.to_string());
            assert(texts(unknown@) =~= texts(before).push(reference@));
        },
        Some((ledger, task)) => {
            let mut key = prefix.to_string();
            key.append(task.id.as_str());
            if records.get(key.as_str()).is_none() {
                let record = render_recall(ledger, task, prefix);
                let _ = records.insert(key, record);
            }
        },
    }
}

/// How to name, in the parent's ledger, those references that are unknown here.
fn find_hints(parent: &Ledger, unknown: &Vec<String>) -> (r: Vec<String>)
    ensures
        texts(r@) == hints(parent.model().tasks, texts(unknown@)),
{
    let ghost all = texts(unknown@);
    let mut r: Vec<String> = Vec::new();
    let mut i: usize = 0;
    assert(texts(r@) =~= hints(parent.model().tasks, all.take(0)));
    while i < unknown.len()
        invariant
            i <= unknown@.len(),
            all == texts(unknown@),
            texts(r@) == hints(parent.model().tasks, all.take(i as int)),
        decreases unknown@.len() - i,
    {
        assert(all.take(i + 1).drop_last() == all.take(i as int));
        let ghost before = r@;
        if !is_to_parent(unknown[i].as_str()) {
            if let Some(task) = parent.resolve(unknown[i].as_str()) {
                let mut hint = "parent:".to_string();
                hint.append(task.id.as_str());
                r.push(hint);
                assert(texts(r@) =~= texts(before).push(hint@));
            }
        }
        i += 1;
    }
    assert(all.take(all.len() as int) == all);
    r
}

/// What a recall says of references that name nothing here.
fn tell_unknown(unknown: &Vec<String>, parent: Option<&Ledger>) -> (messages: Vec<String>)
    ensures
        texts(messages@) == unknown_messages(
            texts(unknown@),
            match parent {
                Some(ledger) => Some(ledger.model().tasks),
                None => None,
            },
        ),
{
    let mut messages: Vec<String> = Vec::new();
    assert(texts(unknown@).len() == unknown@.len());
    if unknown.len() == 0 {
        assert(texts(messages@) =~= Seq::<Seq<char>>::empty());
        return messages;
    }
    let mut first = "Unknown task references: ".to_string();
    first.append(join(unknown, ", ").as_str());
    first.append(".");
    messages.push(first);
    assert(texts(messages@) =~= seq![first@]);
    assert(seq![first@] + Seq::<Seq<char>>::empty() =~= seq![first@]);
    if let Some(parent) = parent {
        if has_local(unknown) {
            let names = find_hints(parent, unknown);
            assert(texts(names@).len() == names@.len());
            if names.len() > 0 {
                let mut second =
                    "These tasks are in the parent ledger. Retry them as: ".to_string();
                second.append(join(&names, ", ").as_str());
                second.append(".");
                messages.push(second);
                assert(texts(messages@) =~= seq![first@] + seq![second@]);
            }
        }
    }
    messages
}

/// The values of a table.
pub(crate) fn values_in(rows: &Table<String>) -> (values: Vec<String>)
    ensures
        texts(values@) == values_of(rows@),
{
    let mut values: Vec<String> = Vec::new();
    let count: usize = rows.len();
    let mut i: usize = 0;
    while i < count
        invariant
            i <= count,
            count == rows@.len(),
            values@.len() == i,
            forall|j: int| 0 <= j < i ==> (#[trigger] values@[j])@ == rows@[j].1,
        decreases count - i,
    {
        values.push(rows.value(i).clone());
        i += 1;
    }
    assert(texts(values@) =~= values_of(rows@));
    values
}

/// The answer to a recall of named tasks.
fn answer(unknown: &Vec<String>, records: &Table<String>, parent: Option<&Ledger>, page: usize) -> (r:
    String)
    ensures
        r@ == recall_answer(
            (Gathered { unknown: texts(unknown@), records: records@ }),
            (match parent {
                Some(ledger) => Some(ledger.model().tasks),
                None => None,
            }),
            page as nat,
        ),
{
    let mut messages = tell_unknown(unknown, parent);
    let ghost start = texts(messages@);
    if !records.is_empty() {
        let text = join(&values_in(records), "\n\n");
        messages.push(text);
        assert(texts(messages@) =~= start + seq![text@]);
    } else {
        assert(start + Seq::<Seq<char>>::empty() =~= start);
    }
    assert(texts(messages@).len() == messages@.len());
    if messages.len() == 0 {
        return "No tasks found for the requested references.".to_string();
    }
    let text = join(&messages, "\n\n");
    details::render(text.as_str(), page)
}

/// What references name; nothing where one asks for the whole parent ledger.
fn gather(own: &Ledger, known: Option<&Ledger>, ordered: &Table<String>) -> (found: Option<
    (Vec<String>, Table<String>),
>)
    ensures
        (match found {
            Some(found) => Some(Gathered { unknown: texts(found.0@), records: found.1@ }),
            None => None,
        }) == gathered(
            own.model().tasks,
            (match known {
                Some(ledger) => Some(ledger.model().tasks),
                None => None,
            }),
            ordered@,
            ordered@.len(),
        ),
{
    let ghost plan = match known {
        Some(ledger) => Some(ledger.model().tasks),
        None => None,
    };
    let ghost rows = ordered@;
    let count: usize = ordered.len();
    let mut unknown: Vec<String> = Vec::new();
    let mut records: Table<String> = Table::new();
    let mut i: usize = 0;
    assert(texts(unknown@) =~= Seq::<Seq<char>>::empty());
    while i < count
        invariant
            i <= count,
            count == ordered@.len(),
            rows == ordered@,
            plan == (match known {
                Some(ledger) => Some(ledger.model().tasks),
                None => None,
            }),
            gathered(own.model().tasks, plan, rows, i as nat) == Some(
                Gathered { unknown: texts(unknown@), records: records@ },
            ),
        decreases count - i,
    {
        let reference = ordered.key(i);
        match strip(reference.as_str(), "parent:") {
            Some(rest) => {
                let wanted = trim(rest.as_str());
                if wanted.as_str().is_empty() {
                    proof {
                        gathered_stays(own.model().tasks, plan, rows, (i + 1) as nat, count as nat);
                    }
                    return None;
                }
                gather_one(
                    &mut unknown,
                    &mut records,
                    known,
                    wanted.as_str(),
                    "parent:",
                    reference.as_str(),
                );
            },
            None => {
                let blank = String::new();
                gather_one(
                    &mut unknown,
                    &mut records,
                    Some(own),
                    reference.as_str(),
                    blank.as_str(),
                    reference.as_str(),
                );
            },
        }
        i += 1;
    }
    Some((unknown, records))
}

/// What comes of a recall, given the session's own ledger, whether it has a parent, and the
/// parent's ledger where it was read.
pub fn recall(
    own: &Ledger,
    file: &str,
    spawned: bool,
    parent: Option<&Ledger>,
    references: &Vec<String>,
    page: usize,
) -> (r: RecallStep)
    ensures
        r@ == recalled(
            own.model(),
            file@,
            spawned,
            (match parent {
                Some(ledger) => Some(ledger.model()),
                None => None,
            }),
            texts(references@),
            page as nat,
        ),
{
    assert(texts(references@).len() == references@.len());
    if references.len() == 0 {
        let mut text = "Ledger file: ".to_string();
        text.append(file);
        text.append("\n");
        text.append(render(own).as_str());
        return RecallStep::Reply(text);
    }
    let known: Option<&Ledger> = if spawned {
        parent
    } else {
        None
    };
    let ghost plan = match known {
        Some(ledger) => Some(ledger.model().tasks),
        None => None,
    };
    if has_to_parent(references) {
        if !spawned {
            return RecallStep::Reply("This thread has no parent ledger to recall.".to_string());
        }
        if known.is_none() {
            return RecallStep::ReadParent;
        }
    }
    let ordered = order_texts(references);
    let (unknown, records) = match gather(own, known, &ordered) {
        Some(found) => found,
        None => {
            return RecallStep::Reply(
                "Parent recall requires a task id or title; it never reads the whole parent ledger.".to_string(),
            );
        },
    };
    if spawned && known.is_none() && has_local(&unknown) {
        return RecallStep::ReadParent;
    }
    RecallStep::Reply(answer(&unknown, &records, known, page))
}

/// Nothing is found of more references where nothing is found of fewer.
pub(crate) proof fn gathered_stays(
    own: Seq<TaskModel>,
    parent: Option<Seq<TaskModel>>,
    references: Seq<(Seq<char>, Seq<char>)>,
    n: nat,
    m: nat,
)
    requires
        n <= m,
        gathered(own, parent, references, n) is None,
    ensures
        gathered(own, parent, references, m) is None,
    decreases m,
{
    if n < m {
        gathered_stays(own, parent, references, n, (m - 1) as nat);
    }
}

} // verus!
