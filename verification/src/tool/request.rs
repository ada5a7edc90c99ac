//! What a call of the tool asks for.

use vstd::prelude::*;
use vstd::string::StringExecFns;
use vstd::view::View as _;

use crate::json::Json;
use crate::json::JsonModel;
use crate::json::member;
use crate::json::read_json;
use crate::json::read_of;
use crate::json::shown;
use crate::ledger::batch::Entry;
use crate::ledger::batch::EntryModel;
use crate::ledger::batch::entries_of;
use crate::ledger::batch::silent;
use crate::text::maybe;
use crate::text::texts;
use crate::text::trim;
use crate::text::trimmed;

verus! {

/// The limit, in tokens, that a reply asks for where the host has none of its own: a page of records
/// is not cut short.
pub const FALLBACK_TOKEN_LIMIT: usize = 8_000;

/// What a call asks for.
#[derive(Debug, PartialEq, Eq)]
pub enum Request {
    /// Nothing that can be done: the answer says why.
    Reply(String),
    /// Read-only task detail.
    Recall { references: Vec<String>, page: usize },
    /// Task changes, and whether and how the pause changes.
    Write { entries: Vec<Entry>, pausing: bool, pause: Option<String> },
}

/// What a call asks for, with its texts as sequences of characters.
pub enum RequestModel {
    Reply(Seq<char>),
    Recall { references: Seq<Seq<char>>, page: nat },
    Write { entries: Seq<EntryModel>, pausing: bool, pause: Option<Seq<char>> },
}

impl vstd::view::View for Request {
    type V = RequestModel;

    open spec fn view(&self) -> RequestModel {
        match self {
            Request::Reply(text) => RequestModel::Reply(text@),
            Request::Recall { references, page } => RequestModel::Recall {
                references: texts(references@),
                page: *page as nat,
            },
            Request::Write { entries, pausing, pause } => RequestModel::Write {
                entries: entries_of(entries@),
                pausing: *pausing,
                pause: maybe(*pause),
            },
        }
    }
}

/// A text that is not blank, trimmed; other values are none.
pub open spec fn text_in(json: Option<JsonModel>) -> Option<Seq<char>> {
    match json {
        Some(JsonModel::Text(text)) => if trimmed(text).len() > 0 {
            Some(trimmed(text))
        } else {
            None
        },
        _ => None,
    }
}

/// A text as it is; other values are none.
pub open spec fn exact_text_in(json: Option<JsonModel>) -> Option<Seq<char>> {
    match json {
        Some(JsonModel::Text(text)) => Some(text),
        _ => None,
    }
}

/// The texts among values, trimmed, without blank ones.
pub open spec fn texts_in(items: Seq<JsonModel>) -> Seq<Seq<char>>
    decreases items.len(),
{
    if items.len() == 0 {
        Seq::empty()
    } else {
        let before = texts_in(items.drop_last());
        match text_in(Some(items.last())) {
            Some(text) => before.push(text),
            None => before,
        }
    }
}

/// A list of texts: the texts of a list, or a text alone.
pub open spec fn list_in(json: JsonModel) -> Option<Seq<Seq<char>>> {
    match json {
        JsonModel::List(items) => Some(texts_in(items)),
        JsonModel::Text(_) => Some(
            match text_in(Some(json)) {
                Some(text) => seq![text],
                None => Seq::empty(),
            },
        ),
        _ => None,
    }
}

/// An optional list of texts.
pub open spec fn maybe_list_in(json: Option<JsonModel>) -> Option<Seq<Seq<char>>> {
    match json {
        Some(json) => list_in(json),
        None => None,
    }
}

/// A list that null clears.
pub open spec fn clearable_list_in(json: Option<JsonModel>) -> Option<Option<Seq<Seq<char>>>> {
    match json {
        None => None,
        Some(JsonModel::Null) => Some(None),
        Some(other) => match list_in(other) {
            Some(list) => Some(Some(list)),
            None => None,
        },
    }
}

/// A text that null clears; so does a blank one.
pub open spec fn clearable_text_in(json: Option<JsonModel>) -> Option<Option<Seq<char>>> {
    match json {
        Some(JsonModel::Null) => Some(None),
        Some(JsonModel::Text(_)) => Some(text_in(json)),
        _ => None,
    }
}

/// The entry that a value writes.
pub open spec fn entry_in(json: JsonModel) -> EntryModel {
    if json is Object {
        EntryModel {
            invalid: None,
            id: text_in(member(json, "id"@)),
            title: text_in(member(json, "title"@)),
            status: exact_text_in(member(json, "status"@)),
            after: clearable_list_in(member(json, "after"@)),
            before: clearable_list_in(member(json, "before"@)),
            waiting: clearable_text_in(member(json, "waiting"@)),
            owner: clearable_text_in(member(json, "owner"@)),
            cancelled: clearable_text_in(member(json, "cancelled"@)),
            split: maybe_list_in(member(json, "split"@)),
            merge: maybe_list_in(member(json, "merge"@)),
            body: exact_text_in(member(json, "body"@)),
            note: exact_text_in(member(json, "note"@)),
        }
    } else {
        EntryModel { invalid: Some("each task entry must be an object."@), ..silent() }
    }
}

/// Every field an entry may carry, so one sent without its `tasks` wrapper is still one.
pub open spec fn entry_fields() -> Seq<Seq<char>> {
    seq![
        "id"@,
        "title"@,
        "status"@,
        "after"@,
        "before"@,
        "waiting"@,
        "owner"@,
        "cancelled"@,
        "split"@,
        "merge"@,
        "body"@,
        "note"@,
    ]
}

/// The value has a field of an entry.
pub open spec fn entry_like(json: JsonModel) -> bool {
    exists|i: int|
        0 <= i < entry_fields().len() && member(json, #[trigger] entry_fields()[i]) is Some
}

/// The entries that a call writes.
pub open spec fn entries_in(json: JsonModel) -> Seq<EntryModel> {
    match member(json, "tasks"@) {
        Some(JsonModel::List(items)) => Seq::new(items.len(), |i: int| entry_in(items[i])),
        _ => if entry_like(json) {
            seq![entry_in(json)]
        } else {
            Seq::empty()
        },
    }
}

/// The page that a call asks for.
pub open spec fn page_in(json: JsonModel) -> Option<nat> {
    match member(json, "page"@) {
        None => Some(1),
        Some(JsonModel::Number(Some(page), _)) => if 0 < page <= usize::MAX {
            Some(page as nat)
        } else {
            None
        },
        Some(_) => None,
    }
}

/// The reason for which a call pauses, or that it gives none where it has to.
pub open spec fn pause_in(json: JsonModel) -> Result<Option<Seq<char>>, ()> {
    match member(json, "pause"@) {
        None => Ok(None),
        Some(JsonModel::Null) => Ok(None),
        Some(other) => match text_in(Some(other)) {
            Some(reason) => Ok(Some(reason)),
            None => Err(()),
        },
    }
}

/// What a call asks for.
pub open spec fn request_in(json: JsonModel) -> RequestModel {
    let entries = entries_in(json);
    let recall = maybe_list_in(member(json, "recall"@));
    let pausing = member(json, "pause"@) is Some;
    if page_in(json) is None {
        RequestModel::Reply("Page must be a positive integer."@)
    } else if member(json, "page"@) is Some && (recall is None || recall->0.len() == 0) {
        RequestModel::Reply("Page requires named task references in recall."@)
    } else if pause_in(json) is Err {
        RequestModel::Reply("Pause requires a nonempty reason; use null to resume."@)
    } else if recall is Some && (member(json, "tasks"@) is Some || entries.len() > 0 || pausing) {
        RequestModel::Reply("Recall is read-only and cannot be combined with tasks or pause."@)
    } else if recall is Some || (entries.len() == 0 && !pausing) {
        RequestModel::Recall {
            references: match recall {
                Some(references) => references,
                None => Seq::empty(),
            },
            page: page_in(json)->0,
        }
    } else {
        RequestModel::Write { entries, pausing, pause: pause_in(json)->Ok_0 }
    }
}

/// A text that is not blank, trimmed.
fn string(value: Option<&Json>) -> (r: Option<String>)
    ensures
        maybe(r) == text_in(shown(value)),
{
    match value {
        Some(Json::Text(text)) => {
            let text = trim(text.as_str());
            if text.as_str().is_empty() {
                None
            } else {
                Some(text)
            }
        },
        _ => None,
    }
}

/// A text as it is.
fn exact_string(value: Option<&Json>) -> (r: Option<String>)
    ensures
        maybe(r) == exact_text_in(shown(value)),
{
    match value {
        Some(Json::Text(text)) => Some(text.clone()),
        _ => None,
    }
}

/// A list of texts: the texts of a list, or a text alone.
fn string_list(value: &Json) -> (r: Option<Vec<String>>)
    ensures
        crate::ledger::batch::maybe_texts(r) == list_in(value@),
{
    match value {
        Json::List(items) => {
            let ghost all = value@->List_0;
            let mut list: Vec<String> = Vec::new();
            let mut i: usize = 0;
            assert(texts(list@) =~= texts_in(all.take(0)));
            while i < items.len()
                invariant
                    i <= items@.len(),
                    value matches Json::List(held) && held@ == items@,
                    all == value@->List_0,
                    all.len() == items@.len(),
                    texts(list@) == texts_in(all.take(i as int)),
                decreases items@.len() - i,
            {
                assert(all.take(i + 1).drop_last() == all.take(i as int));
                assert(all[i as int] == items@[i as int]@);
                let ghost before = list@;
                if let Some(text) = string(Some(&items[i])) {
                    list.push(text);
                    assert(texts(list@) =~= texts(before).push(text@));
                }
                i += 1;
            }
            assert(all.take(all.len() as int) == all);
            Some(list)
        },
        Json::Text(_) => {
            let mut list: Vec<String> = Vec::new();
            if let Some(text) = string(Some(value)) {
                list.push(text);
                assert(texts(list@) =~= seq![text@]);
            } else {
                assert(texts(list@) =~= Seq::<Seq<char>>::empty());
            }
            Some(list)
        },
        _ => None,
    }
}

/// An optional list of texts.
fn maybe_list(value: Option<&Json>) -> (r: Option<Vec<String>>)
    ensures
        crate::ledger::batch::maybe_texts(r) == maybe_list_in(shown(value)),
{
    match value {
        Some(value) => string_list(value),
        None => None,
    }
}

/// `Some(None)` clears, `Some(Some(..))` sets, `None` leaves alone.
fn clearable_list(value: Option<&Json>) -> (r: Option<Option<Vec<String>>>)
    ensures
        crate::ledger::batch::clearable_texts(r) == clearable_list_in(shown(value)),
{
    match value {
        None => None,
        Some(Json::Null) => Some(None),
        Some(other) => match string_list(other) {
            Some(list) => Some(Some(list)),
            None => None,
        },
    }
}

/// `Some(None)` clears, `Some(Some(..))` sets, `None` leaves alone.
fn clearable_string(value: Option<&Json>) -> (r: Option<Option<String>>)
    ensures
        crate::ledger::batch::clearable(r) == clearable_text_in(shown(value)),
{
    match value {
        Some(Json::Null) => Some(None),
        Some(Json::Text(_)) => Some(string(value)),
        _ => None,
    }
}

/// The entry that a value writes.
pub fn parse_entry(raw: &Json) -> (entry: Entry)
    ensures
        entry@ == entry_in(raw@),
{
    if let Json::Object(_) = raw {
        Entry {
            invalid: None,
            id: string(raw.get("id")),
            title: string(raw.get("title")),
            status: exact_string(raw.get("status")),
            after: clearable_list(raw.get("after")),
            before: clearable_list(raw.get("before")),
            cancelled: clearable_string(raw.get("cancelled")),
            waiting: clearable_string(raw.get("waiting")),
            owner: clearable_string(raw.get("owner")),
            split: maybe_list(raw.get("split")),
            merge: maybe_list(raw.get("merge")),
            body: exact_string(raw.get("body")),
            note: exact_string(raw.get("note")),
        }
    } else {
        let mut entry = Entry::default();
        entry.invalid = Some("each task entry must be an object.".to_string());
        entry
    }
}

/// Whether the value has a field of an entry.
fn is_entry_like(json: &Json) -> (r: bool)
    ensures
        r == entry_like(json@),
{
    let r = json.get("id").is_some() || json.get("title").is_some() || json.get("status").is_some()
        || json.get("after").is_some() || json.get("before").is_some() || json.get(
        "waiting",
    ).is_some() || json.get("owner").is_some() || json.get("cancelled").is_some() || json.get(
        "split",
    ).is_some() || json.get("merge").is_some() || json.get("body").is_some() || json.get(
        "note",
    ).is_some();
    proof {
        let fields = entry_fields();
        assert(fields[0] == "id"@ && fields[1] == "title"@ && fields[2] == "status"@ && fields[3]
            == "after"@ && fields[4] == "before"@ && fields[5] == "waiting"@ && fields[6]
            == "owner"@ && fields[7] == "cancelled"@ && fields[8] == "split"@ && fields[9]
            == "merge"@ && fields[10] == "body"@ && fields[11] == "note"@);
    }
    r
}

/// The entries that a call writes.
fn parse_entries(json: &Json) -> (entries: Vec<Entry>)
    ensures
        entries_of(entries@) == entries_in(json@),
{
    let mut entries: Vec<Entry> = Vec::new();
    if let Some(Json::List(items)) = json.get("tasks") {
        let ghost all = member(json@, "tasks"@)->0->List_0;
        let mut i: usize = 0;
        while i < items.len()
            invariant
                i <= items@.len(),
                entries@.len() == i,
                forall|j: int|
                    0 <= j < i ==> (#[trigger] entries@[j])@ == entry_in(items@[j]@),
            decreases items@.len() - i,
        {
            entries.push(parse_entry(&items[i]));
            i += 1;
        }
        assert(all.len() == items@.len());
        assert(entries_of(entries@) =~= entries_in(json@));
        return entries;
    }
    if is_entry_like(json) {
        entries.push(parse_entry(json));
        assert(entries_of(entries@) =~= seq![entry_in(json@)]);
    } else {
        assert(entries_of(entries@) =~= Seq::<EntryModel>::empty());
    }
    entries
}

/// What a call asks for.
pub fn handle_input(input: &Json) -> (request: Request)
    ensures
        request@ == request_in(input@),
{
    let entries = parse_entries(input);
    assert(entries_of(entries@).len() == entries@.len());
    let recall = maybe_list(input.get("recall"));
    let page: usize = match input.get("page") {
        None => 1,
        Some(Json::Number(Some(page), _)) if *page > 0 && *page <= usize::MAX as u64 => *page as usize,
        Some(_) => {
            return Request::Reply("Page must be a positive integer.".to_string());
        },
    };
    let named = match &recall {
        Some(references) => {
            assert(texts(references@).len() == references@.len());
            references.len() > 0
        },
        None => false,
    };
    if input.get("page").is_some() && !named {
        return Request::Reply("Page requires named task references in recall.".to_string());
    }
    let pausing = input.get("pause").is_some();
    let pause: Option<String> = match input.get("pause") {
        None => None,
        Some(Json::Null) => None,
        Some(other) => match string(Some(other)) {
            Some(reason) => Some(reason),
            None => {
                return Request::Reply(
                    "Pause requires a nonempty reason; use null to resume.".to_string(),
                );
            },
        },
    };
    match recall {
        Some(references) => {
            if input.get("tasks").is_some() || entries.len() > 0 || pausing {
                return Request::Reply(
                    "Recall is read-only and cannot be combined with tasks or pause.".to_string(),
                );
            }
            Request::Recall { references, page }
        },
        None => {
            if entries.len() == 0 && !pausing {
                let references: Vec<String> = Vec::new();
                assert(texts(references@) =~= Seq::<Seq<char>>::empty());
                Request::Recall { references, page }
            } else {
                Request::Write { entries, pausing, pause }
            }
        },
    }
}

/// What the arguments of a call ask for, or what is wrong with them as JSON.
pub fn handle(arguments: &str) -> (r: Result<Request, String>)
    ensures
        match r {
            Ok(request) => read_of(arguments@) is Ok && request@ == request_in(
                read_of(arguments@)->Ok_0,
            ),
            Err(message) => read_of(arguments@) == Err::<JsonModel, Seq<char>>(message@),
        },
{
    match read_json(arguments) {
        Ok(input) => Ok(handle_input(&input)),
        Err(message) => Err(message),
    }
}

/// Recall never writes: a call that recalls asks for no task change and no pause.
pub proof fn recall_is_read_only(json: JsonModel)
    requires
        maybe_list_in(member(json, "recall"@)) is Some,
    ensures
        !(request_in(json) is Write),
{
}

/// What a call is answered when the ledger cannot be read.
pub fn unreadable(error: &str) -> (text: String)
    ensures
        text@ == "Unable to read the task ledger: "@ + error@,
{
    let mut text = "Unable to read the task ledger: ".to_string();
    text.append(error);
    text
}

/// What a call is answered when the ledger cannot be written.
pub fn not_updated(error: &str) -> (text: String)
    ensures
        text@ == "Unable to update the task ledger: "@ + error@,
{
    let mut text = "Unable to update the task ledger: ".to_string();
    text.append(error);
    text
}

/// What a field that null clears comes to: left out where it is absent or no text, cleared where it is
/// null or blank, and the text without outer white space else.
pub proof fn clearable_texts_are_read(text: Seq<char>)
    ensures
        clearable_text_in(None) is None,
        clearable_text_in(Some(JsonModel::Null)) == Some(None::<Seq<char>>),
        trimmed(text).len() == 0 ==> clearable_text_in(Some(JsonModel::Text(text))) == Some(
            None::<Seq<char>>,
        ),
        trimmed(text).len() > 0 ==> clearable_text_in(Some(JsonModel::Text(text))) == Some(
            Some(trimmed(text)),
        ),
{
}

/// What a list that null clears comes to: left out where it is absent, cleared where it is null, and
/// else its texts without outer white space, blank ones left out, in their order; a text alone is a list
/// of one.
pub proof fn clearable_lists_are_read(items: Seq<JsonModel>, text: Seq<char>)
    ensures
        clearable_list_in(None) is None,
        clearable_list_in(Some(JsonModel::Null)) == Some(None::<Seq<Seq<char>>>),
        trimmed(text).len() > 0 ==> clearable_list_in(Some(JsonModel::Text(text))) == Some(
            Some(seq![trimmed(text)]),
        ),
        clearable_list_in(Some(JsonModel::List(items))) matches Some(Some(list)) && forall|
            x: Seq<char>,
        | #[trigger]
            list.contains(x) <==> exists|i: int|
                0 <= i < items.len() && names_text(#[trigger] items[i], x),
        (forall|i: int|
            0 <= i < items.len() ==> (#[trigger] items[i] matches JsonModel::Text(t) && trimmed(
                t,
            ).len() > 0)) ==> clearable_list_in(Some(JsonModel::List(items))) == Some(
            Some(Seq::new(items.len(), |i: int| trimmed(items[i]->Text_0))),
        ),
{
    assert forall|x: Seq<char>| #[trigger] texts_in(items).contains(x) <==> exists|i: int|
        0 <= i < items.len() && names_text(#[trigger] items[i], x) by {
        texts_are_collected(items, x);
    }
    if forall|i: int|
        0 <= i < items.len() ==> (#[trigger] items[i] matches JsonModel::Text(t) && trimmed(t).len()
            > 0) {
        plain_texts_are_collected(items);
    }
}

/// The value is a text that reads so without outer white space.
pub open spec fn names_text(json: JsonModel, text: Seq<char>) -> bool {
    json matches JsonModel::Text(t) && trimmed(t) == text && text.len() > 0
}

proof fn texts_are_collected(items: Seq<JsonModel>, x: Seq<char>)
    ensures
        texts_in(items).contains(x) <==> exists|i: int|
            0 <= i < items.len() && names_text(#[trigger] items[i], x),
    decreases items.len(),
{
    if items.len() > 0 {
        let head = items.drop_last();
        let before = texts_in(head);
        let all = texts_in(items);
        texts_are_collected(head, x);
        assert(items[items.len() - 1] == items.last());
        if before.contains(x) {
            let k = choose|k: int| 0 <= k < before.len() && before[k] == x;
            assert(all[k] == x);
            let i = choose|i: int| 0 <= i < head.len() && names_text(#[trigger] head[i], x);
            assert(names_text(items[i], x));
        }
        if names_text(items.last(), x) {
            assert(all[before.len() as int] == x);
        }
        if all.contains(x) && !before.contains(x) {
            let k = choose|k: int| 0 <= k < all.len() && all[k] == x;
            if k < before.len() {
                assert(before[k] == x);
            }
            assert(names_text(items[items.len() - 1], x));
        }
        if exists|i: int| 0 <= i < items.len() && names_text(#[trigger] items[i], x) {
            let i = choose|i: int| 0 <= i < items.len() && names_text(#[trigger] items[i], x);
            if i < head.len() {
                assert(names_text(head[i], x));
            }
        }
    }
}

proof fn plain_texts_are_collected(items: Seq<JsonModel>)
    requires
        forall|i: int|
            0 <= i < items.len() ==> (#[trigger] items[i] matches JsonModel::Text(t) && trimmed(
                t,
            ).len() > 0),
    ensures
        texts_in(items) == Seq::new(items.len(), |i: int| trimmed(items[i]->Text_0)),
    decreases items.len(),
{
    let wanted = Seq::new(items.len(), |i: int| trimmed(items[i]->Text_0));
    if items.len() > 0 {
        let head = items.drop_last();
        assert forall|i: int| 0 <= i < head.len() implies (#[trigger] head[i] matches
            JsonModel::Text(t) && trimmed(t).len() > 0) by {
            assert(head[i] == items[i]);
        }
        plain_texts_are_collected(head);
        assert(items[items.len() - 1] is Text);
    }
    assert(texts_in(items) =~= wanted);
}

/// An entry that is an object has each of its fields from the member of that name: ids and titles as
/// texts without outer white space, statuses, bodies and notes exactly as they are written, and the
/// others as they can be cleared. What is no object is no entry.
pub proof fn entries_are_read_by_name(json: JsonModel)
    ensures
        !(json is Object) ==> entry_in(json).invalid is Some,
        json is Object ==> {
            let entry = entry_in(json);
            &&& entry.invalid is None
            &&& entry.id == text_in(member(json, "id"@))
            &&& entry.title == text_in(member(json, "title"@))
            &&& (member(json, "status"@) matches Some(JsonModel::Text(text)) ==> entry.status
                == Some(text))
            &&& (member(json, "body"@) matches Some(JsonModel::Text(text)) ==> entry.body == Some(
                text,
            ))
            &&& (member(json, "note"@) matches Some(JsonModel::Text(text)) ==> entry.note == Some(
                text,
            ))
            &&& (member(json, "status"@) is None ==> entry.status is None)
            &&& (member(json, "body"@) is None ==> entry.body is None)
            &&& (member(json, "note"@) is None ==> entry.note is None)
            &&& entry.after == clearable_list_in(member(json, "after"@))
            &&& entry.before == clearable_list_in(member(json, "before"@))
            &&& entry.waiting == clearable_text_in(member(json, "waiting"@))
            &&& entry.owner == clearable_text_in(member(json, "owner"@))
            &&& entry.cancelled == clearable_text_in(member(json, "cancelled"@))
            &&& (member(json, "split"@) is None ==> entry.split is None)
            &&& (member(json, "merge"@) is None ==> entry.merge is None)
            &&& (member(json, "split"@) matches Some(JsonModel::List(items)) ==> entry.split
                == Some(texts_in(items)))
            &&& (member(json, "merge"@) matches Some(JsonModel::List(items)) ==> entry.merge
                == Some(texts_in(items)))
        },
{
}

/// A call with a list of tasks and nothing else writes one entry for each of them, in their order; with a
/// pause it pauses, and with null it resumes; a pause without a reason is refused, and so is one beside a
/// recall. A call without tasks and pause recalls what it names, or shows the overview.
pub proof fn calls_ask_for_what_they_say(json: JsonModel, items: Seq<JsonModel>, reason: Seq<char>)
    requires
        member(json, "page"@) is None,
    ensures
        member(json, "tasks"@) == Some(JsonModel::List(items)) && items.len() > 0 && member(
            json,
            "recall"@,
        ) is None && member(json, "pause"@) is None ==> (request_in(json) matches
            RequestModel::Write { entries, pausing, pause } && entries.len() == items.len()
            && (forall|i: int| 0 <= i < items.len() ==> #[trigger] entries[i] == entry_in(items[i]))
            && !pausing && pause is None),
        member(json, "recall"@) is None && member(json, "pause"@) == Some(JsonModel::Null) ==> (
        request_in(json) matches RequestModel::Write { pausing, pause, .. } && pausing && pause
            is None),
        member(json, "recall"@) is None && member(json, "pause"@) == Some(JsonModel::Text(reason))
            && trimmed(reason).len() > 0 ==> (request_in(json) matches RequestModel::Write {
            pausing,
            pause,
            ..
        } && pausing && pause == Some(trimmed(reason))),
        member(json, "pause"@) == Some(JsonModel::Text(reason)) && trimmed(reason).len() == 0
            ==> request_in(json) is Reply,
        member(json, "recall"@) == Some(JsonModel::List(items)) && (member(json, "tasks"@) is Some
            || member(json, "pause"@) is Some) ==> request_in(json) is Reply,
        member(json, "recall"@) == Some(JsonModel::List(items)) && member(json, "tasks"@) is None
            && member(json, "pause"@) is None && !entry_like(json) ==> request_in(json)
            == (RequestModel::Recall { references: texts_in(items), page: 1 }),
        member(json, "recall"@) is None && member(json, "tasks"@) is None && member(json, "pause"@)
            is None && !entry_like(json) ==> request_in(json) == (RequestModel::Recall {
            references: Seq::empty(),
            page: 1,
        }),
{
}

/// A page is a positive whole number, and needs named references; one that is given is the one that is
/// shown.
pub proof fn pages_need_references(json: JsonModel, page: u64, shown: Seq<char>, items: Seq<JsonModel>)
    requires
        member(json, "page"@) == Some(JsonModel::Number(Some(page), shown)),
    ensures
        page == 0 ==> request_in(json) is Reply,
        member(json, "recall"@) is None ==> request_in(json) is Reply,
        0 < page <= usize::MAX && member(json, "recall"@) == Some(JsonModel::List(items)) && texts_in(
            items,
        ).len() > 0 && member(json, "tasks"@) is None && member(json, "pause"@) is None
            && !entry_like(json) ==> request_in(json) == (RequestModel::Recall {
            references: texts_in(items),
            page: page as nat,
        }),
{
}

/// A call whose members are those of one entry writes that entry.
pub proof fn bare_entries_are_taken(json: JsonModel)
    requires
        json is Object,
        member(json, "tasks"@) is None,
        member(json, "recall"@) is None,
        member(json, "page"@) is None,
        member(json, "pause"@) is None,
        member(json, "id"@) is Some || member(json, "title"@) is Some || member(json, "status"@)
            is Some || member(json, "after"@) is Some || member(json, "before"@) is Some || member(
            json,
            "waiting"@,
        ) is Some || member(json, "owner"@) is Some || member(json, "cancelled"@) is Some || member(
            json,
            "split"@,
        ) is Some || member(json, "merge"@) is Some || member(json, "body"@) is Some || member(
            json,
            "note"@,
        ) is Some,
    ensures
        request_in(json) == (RequestModel::Write {
            entries: seq![entry_in(json)],
            pausing: false,
            pause: None,
        }),
{
    let f = entry_fields();
    assert(f[0] == "id"@ && f[1] == "title"@ && f[2] == "status"@ && f[3] == "after"@ && f[4]
        == "before"@ && f[5] == "waiting"@ && f[6] == "owner"@ && f[7] == "cancelled"@ && f[8]
        == "split"@ && f[9] == "merge"@ && f[10] == "body"@ && f[11] == "note"@);
    assert(entry_like(json));
}

/// A text is read without outer white space, and a blank one, or any other value, as none; one that is
/// taken exactly is read as it is.
pub proof fn texts_are_read(text: Seq<char>, json: JsonModel)
    ensures
        text_in(None) is None,
        trimmed(text).len() > 0 ==> text_in(Some(JsonModel::Text(text))) == Some(trimmed(text)),
        trimmed(text).len() == 0 ==> text_in(Some(JsonModel::Text(text))) is None,
        !(json is Text) ==> text_in(Some(json)) is None && exact_text_in(Some(json)) is None,
        exact_text_in(Some(JsonModel::Text(text))) == Some(text),
{
}

} // verus!
