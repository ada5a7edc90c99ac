//! JSON values as the library reads them.

use vstd::prelude::*;

use crate::table::ascending;
use crate::table::gathered;
use crate::table::placed;
use crate::text::decimal_of;
use crate::text::same;

verus! {

/// A JSON value. A number stands as the whole number below 2^64 that it is, if it is one, and as it
/// is written.
#[derive(Debug, PartialEq, Eq)]
pub enum Json {
    Null,
    Bool(bool),
    Number(Option<u64>, String),
    Text(String),
    List(Vec<Json>),
    Object(Vec<(String, Json)>),
}

/// A JSON value, with its texts as sequences of characters.
pub enum JsonModel {
    Null,
    Bool(bool),
    Number(Option<u64>, Seq<char>),
    Text(Seq<char>),
    List(Seq<JsonModel>),
    Object(Seq<(Seq<char>, JsonModel)>),
}

/// What a JSON value stands for.
pub open spec fn modelled(json: Json) -> JsonModel
    decreases json,
{
    match json {
        Json::Null => JsonModel::Null,
        Json::Bool(b) => JsonModel::Bool(b),
        Json::Number(n, written) => JsonModel::Number(n, written@),
        Json::Text(text) => JsonModel::Text(text@),
        Json::List(items) => JsonModel::List(
            Seq::new(
                items@.len(),
                |i: int|
                    if 0 <= i < items@.len() {
                        modelled(items@[i])
                    } else {
                        JsonModel::Null
                    },
            ),
        ),
        Json::Object(rows) => JsonModel::Object(
            Seq::new(
                rows@.len(),
                |i: int|
                    if 0 <= i < rows@.len() {
                        (rows@[i].0@, modelled(rows@[i].1))
                    } else {
                        (Seq::empty(), JsonModel::Null)
                    },
            ),
        ),
    }
}

impl View for Json {
    type V = JsonModel;

    open spec fn view(&self) -> JsonModel {
        modelled(*self)
    }
}

/// The JSON document type of `serde_json`, carried through without looking inside.
#[verifier::external_type_specification]
#[verifier::external_body]
pub struct ExValue(serde_json::Value);

/// What a document holds.
pub uninterp spec fn document(value: serde_json::Value) -> JsonModel;

/// What `serde_json` reads in a text: a document, or what is wrong with the text.
pub uninterp spec fn read_of(text: Seq<char>) -> Result<JsonModel, Seq<char>>;

/// `serde_json::from_str` reads one JSON document from a text; what it reads, and what its error
/// says, depend on the text alone.
#[verifier::external_body]
fn read_value(text: &str) -> (r: Result<serde_json::Value, String>)
    ensures
        match r {
            Ok(value) => read_of(text@) == Ok::<JsonModel, Seq<char>>(document(value)),
            Err(message) => read_of(text@) == Err::<JsonModel, Seq<char>>(message@),
        },
{
    serde_json::from_str(text).map_err(|error| error.to_string())
}

/// The variants of `serde_json::Value`, one for one; of a number, `Number::as_u64` and what it is
/// displayed as.
#[verifier::external_body]
fn convert(value: serde_json::Value) -> (json: Json)
    ensures
        json@ == document(value),
{
    match value {
        serde_json::Value::Null => Json::Null,
        serde_json::Value::Bool(b) => Json::Bool(b),
        serde_json::Value::Number(n) => Json::Number(n.as_u64(), n.to_string()),
        serde_json::Value::String(text) => Json::Text(text),
        serde_json::Value::Array(items) => Json::List(items.into_iter().map(convert).collect()),
        serde_json::Value::Object(map) => {
            Json::Object(map.into_iter().map(|(key, item)| (key, convert(item))).collect())
        },
    }
}

/// What `serde_json` reads in bytes; none where they hold no JSON document.
pub uninterp spec fn read_bytes_of(bytes: Seq<u8>) -> Option<JsonModel>;

/// `serde_json::from_slice` reads one JSON document from bytes; what it reads depends on the bytes
/// alone.
#[verifier::external_body]
pub(crate) fn read_bytes(bytes: &[u8]) -> (r: Option<serde_json::Value>)
    ensures
        (match r {
            Some(value) => Some(document(value)),
            None => None,
        }) == read_bytes_of(bytes@),
{
    serde_json::from_slice(bytes).ok()
}

/// `serde_json::Value::is_object` says whether a document is an object. The members of an object
/// stand in the order of their keys, each key once.
#[verifier::external_body]
pub(crate) fn is_object(value: &serde_json::Value) -> (r: bool)
    ensures
        r == (document(*value) is Object),
        r ==> ascending(document(*value)->Object_0),
{
    value.is_object()
}

/// `serde_json::Map::new`: an object without members.
#[verifier::external_body]
pub(crate) fn empty_object() -> (value: serde_json::Value)
    ensures
        document(value) == JsonModel::Object(Seq::empty()),
{
    serde_json::Value::Object(serde_json::Map::new())
}

/// `serde_json::Value::String`: a document that is a text.
#[verifier::external_body]
pub(crate) fn text_value(text: String) -> (value: serde_json::Value)
    ensures
        document(value) == JsonModel::Text(text@),
{
    serde_json::Value::String(text)
}

/// `serde_json::Map::insert`, on the members of an object: puts a member under a key, in place of
/// the one that is there.
#[verifier::external_body]
pub(crate) fn insert_member(object: &mut serde_json::Value, key: String, member: serde_json::Value)
    requires
        document(*old(object)) is Object,
    ensures
        document(*final(object)) == JsonModel::Object(
            placed(document(*old(object))->Object_0, key@, document(member)),
        ),
{
    object.as_object_mut().unwrap().insert(key, member);
}

/// `serde_json::Value::from` for `u64`: a document that is a whole number, displayed in decimal.
#[verifier::external_body]
pub(crate) fn number_value(n: u64) -> (value: serde_json::Value)
    ensures
        document(value) == JsonModel::Number(Some(n), decimal_of(n as nat)),
{
    serde_json::Value::from(n)
}

/// What a list of members stands for.
pub open spec fn members_of(list: Seq<(String, serde_json::Value)>) -> Seq<(Seq<char>, JsonModel)> {
    Seq::new(list.len(), |i: int| (list[i].0@, document(list[i].1)))
}

/// A document that is a text or a whole number below 2^64, as it is displayed in decimal.
pub open spec fn simple(json: JsonModel) -> bool {
    match json {
        JsonModel::Text(_) => true,
        JsonModel::Number(Some(n), written) => written == decimal_of(n as nat),
        _ => false,
    }
}

/// A document that is simple, or an object of such.
pub open spec fn shallow(json: JsonModel) -> bool {
    match json {
        JsonModel::Object(rows) => forall|i: int|
            0 <= i < rows.len() ==> simple((#[trigger] rows[i]).1),
        _ => simple(json),
    }
}

/// The bytes that `serde_json` writes for an object with these members, in their order; none where
/// it fails.
pub uninterp spec fn object_bytes(members: Seq<(Seq<char>, JsonModel)>) -> Option<Seq<u8>>;

/// `serde::Serializer::collect_map` on a `serde_json::Serializer` writes an object with its members
/// in the order given; what it writes depends on the members alone. Where no member is nested deeply,
/// `serde_json::from_slice` reads the members again, a later one in place of an earlier one under the
/// same key.
#[verifier::external_body]
pub(crate) fn write_object(members: Vec<(String, serde_json::Value)>) -> (r: Option<Vec<u8>>)
    ensures
        (match r {
            Some(bytes) => Some(bytes@),
            None => None,
        }) == object_bytes(members_of(members@)),
        r matches Some(bytes) ==> (forall|i: int|
            0 <= i < members@.len() ==> shallow(document((#[trigger] members@[i]).1)))
            ==> read_bytes_of(bytes@) == Some(
            JsonModel::Object(gathered(members_of(members@))),
        ),
{
    let mut bytes = Vec::new();
    let mut writer = serde_json::Serializer::new(&mut bytes);
    let written = serde::Serializer::collect_map(&mut writer, members);
    written.ok().map(|()| bytes)
}

/// Reads one JSON document from bytes.
pub(crate) fn read_document(bytes: &[u8]) -> (r: Option<Json>)
    ensures
        shown_by(r) == read_bytes_of(bytes@),
{
    match read_bytes(bytes) {
        Some(value) => Some(convert(value)),
        None => None,
    }
}

/// What an optional value stands for.
pub open spec fn shown_by(json: Option<Json>) -> Option<JsonModel> {
    match json {
        Some(json) => Some(json@),
        None => None,
    }
}

/// Reads one JSON document from a text.
pub fn read_json(text: &str) -> (r: Result<Json, String>)
    ensures
        match r {
            Ok(json) => read_of(text@) == Ok::<JsonModel, Seq<char>>(json@),
            Err(message) => read_of(text@) == Err::<JsonModel, Seq<char>>(message@),
        },
{
    match read_value(text) {
        Ok(value) => Ok(convert(value)),
        Err(message) => Err(message),
    }
}

/// The value of the first row under a key.
pub open spec fn first_member(rows: Seq<(Seq<char>, JsonModel)>, key: Seq<char>) -> Option<
    JsonModel,
>
    decreases rows.len(),
{
    if rows.len() == 0 {
        None
    } else if rows[0].0 == key {
        Some(rows[0].1)
    } else {
        first_member(rows.skip(1), key)
    }
}

/// The member of an object; other values have none.
pub open spec fn member(json: JsonModel, key: Seq<char>) -> Option<JsonModel> {
    match json {
        JsonModel::Object(rows) => first_member(rows, key),
        _ => None,
    }
}

/// What an optional reference stands for.
pub open spec fn shown(json: Option<&Json>) -> Option<JsonModel> {
    match json {
        Some(json) => Some(json@),
        None => None,
    }
}

impl Json {
    /// The member of an object; other values have none.
    pub fn get(&self, key: &str) -> (value: Option<&Json>)
        ensures
            shown(value) == member(self@, key@),
    {
        match self {
            Json::Object(rows) => {
                let ghost all = self@->Object_0;
                let mut i: usize = 0;
                assert(all.skip(0) == all);
                while i < rows.len()
                    invariant
                        i <= rows@.len(),
                        self matches Json::Object(held) && held@ == rows@,
                        all == self@->Object_0,
                        all.len() == rows@.len(),
                        first_member(all, key@) == first_member(all.skip(i as int), key@),
                    decreases rows@.len() - i,
                {
                    assert(all[i as int] == (rows@[i as int].0@, rows@[i as int].1@));
                    assert(all.skip(i as int).skip(1) == all.skip(i + 1));
                    if same(rows[i].0.as_str(), key) {
                        return Some(&rows[i].1);
                    }
                    i += 1;
                }
                None
            },
            _ => None,
        }
    }
}

/// The member of an object is the first one under its key; where no member has the key, and of what is
/// no object, there is none.
pub proof fn members_are_found(rows: Seq<(Seq<char>, JsonModel)>, key: Seq<char>)
    ensures
        forall|i: int|
            0 <= i < rows.len() && (#[trigger] rows[i]).0 == key && (forall|j: int|
                0 <= j < i ==> (#[trigger] rows[j]).0 != key) ==> member(
                JsonModel::Object(rows),
                key,
            ) == Some(rows[i].1),
        (forall|i: int| 0 <= i < rows.len() ==> (#[trigger] rows[i]).0 != key) ==> member(
            JsonModel::Object(rows),
            key,
        ) is None,
        forall|json: JsonModel| !(json is Object) ==> #[trigger] member(json, key) is None,
    decreases rows.len(),
{
    if rows.len() > 0 {
        let rest = rows.skip(1);
        members_are_found(rest, key);
        assert forall|i: int|
            0 <= i < rows.len() && (#[trigger] rows[i]).0 == key && (forall|j: int|
                0 <= j < i ==> (#[trigger] rows[j]).0 != key) implies member(
            JsonModel::Object(rows),
            key,
        ) == Some(rows[i].1) by {
            if i > 0 {
                assert(rows[0].0 != key);
                assert(rest[i - 1] == rows[i]);
                assert forall|j: int| 0 <= j < i - 1 implies (#[trigger] rest[j]).0 != key by {
                    assert(rows[j + 1].0 != key);
                }
                assert(member(JsonModel::Object(rest), key) == Some(rest[i - 1].1));
            }
        }
        if forall|i: int| 0 <= i < rows.len() ==> (#[trigger] rows[i]).0 != key {
            assert(rows[0].0 != key);
            assert forall|i: int| 0 <= i < rest.len() implies (#[trigger] rest[i]).0 != key by {
                assert(rows[i + 1].0 != key);
            }
        }
    }
}

} // verus!
