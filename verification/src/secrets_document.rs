//! The secrets of a namespace written down, and read again.
//!
//! The content of a secrets file is a JSON object with the version of its form, and an object of the
//! secrets under their keys.

use vstd::prelude::*;

use crate::json::Json;
use crate::json::JsonModel;
use crate::json::document;
use crate::json::empty_object;
use crate::json::first_member;
use crate::json::insert_member;
use crate::json::members_of;
use crate::json::number_value;
use crate::json::object_bytes;
use crate::json::read_bytes_of;
use crate::json::read_document;
use crate::json::shallow;
use crate::json::simple;
use crate::json::text_value;
use crate::json::write_object;
use crate::secrets::SecretsFile;
use crate::secrets::SecretsModel;
use crate::table::Table;
use crate::table::ascending;
use crate::table::gathered;
use crate::table::gathered_in_order;
use crate::table::less;
use crate::table::lookup;
use crate::table::placed_found;
use crate::table::slot;
use crate::text::decimal_of;

verus! {

/// What optional secrets stand for.
pub open spec fn held(file: Option<SecretsFile>) -> Option<SecretsModel> {
    match file {
        Some(file) => Some(file@),
        None => None,
    }
}

/// What optional bytes stand for.
pub open spec fn bytes_in(bytes: Option<Vec<u8>>) -> Option<Seq<u8>> {
    match bytes {
        Some(bytes) => Some(bytes@),
        None => None,
    }
}

/// Secrets as the members of an object.
pub open spec fn text_members(secrets: Seq<(Seq<char>, Seq<char>)>) -> Seq<(Seq<char>, JsonModel)> {
    Seq::new(secrets.len(), |i: int| (secrets[i].0, JsonModel::Text(secrets[i].1)))
}

/// The members of the object that a secrets file is written down as.
pub open spec fn written_members(file: SecretsModel) -> Seq<(Seq<char>, JsonModel)> {
    seq![
        (
            "version"@,
            JsonModel::Number(Some(file.version as u64), decimal_of(file.version as nat)),
        ),
        ("secrets"@, JsonModel::Object(text_members(file.secrets))),
    ]
}

/// Every member is a text.
pub open spec fn all_texts(rows: Seq<(Seq<char>, JsonModel)>) -> bool {
    forall|i: int| 0 <= i < rows.len() ==> (#[trigger] rows[i]).1 is Text
}

/// The texts that members hold.
pub open spec fn member_texts(rows: Seq<(Seq<char>, JsonModel)>) -> Seq<(Seq<char>, Seq<char>)> {
    Seq::new(rows.len(), |i: int| (rows[i].0, rows[i].1->Text_0))
}

/// The secrets that a version and an object of texts make.
pub open spec fn secrets_from(version: JsonModel, secrets: JsonModel) -> Option<SecretsModel> {
    match (version, secrets) {
        (JsonModel::Number(Some(n), _), JsonModel::Object(rows)) => if n <= u8::MAX && all_texts(
            rows,
        ) {
            Some(SecretsModel { version: n as u8, secrets: gathered(member_texts(rows)) })
        } else {
            None
        },
        _ => None,
    }
}

/// The secrets that a document holds: as an object, whose other members are passed over, or as a
/// list of the two. A member that is written twice counts with its last value.
pub open spec fn secrets_in(json: JsonModel) -> Option<SecretsModel> {
    match json {
        JsonModel::Object(rows) => match (
            first_member(rows, "version"@),
            first_member(rows, "secrets"@),
        ) {
            (Some(version), Some(secrets)) => secrets_from(version, secrets),
            _ => None,
        },
        JsonModel::List(items) => if items.len() == 2 {
            secrets_from(items[0], items[1])
        } else {
            None
        },
        _ => None,
    }
}

/// The secrets that bytes hold; none where they hold no such document.
pub open spec fn secrets_read(bytes: Seq<u8>) -> Option<SecretsModel> {
    match read_bytes_of(bytes) {
        Some(json) => secrets_in(json),
        None => None,
    }
}

/// What was written down is read again.
proof fn members_are_read(file: SecretsModel)
    requires
        ascending(file.secrets),
    ensures
        secrets_in(JsonModel::Object(gathered(written_members(file)))) == Some(file),
{
    reveal_strlit("version");
    reveal_strlit("secrets");
    let rows = written_members(file);
    let (a, b) = (rows[0], rows[1]);
    reveal_with_fuel(gathered, 3);
    reveal_with_fuel(slot, 3);
    reveal_with_fuel(first_member, 3);
    assert("secrets"@[0] != "version"@[0]);
    assert(less("secrets"@, "version"@));
    assert(!less("version"@, "secrets"@));
    assert(rows.drop_last().drop_last() =~= Seq::<(Seq<char>, JsonModel)>::empty());
    assert(rows.drop_last().last() == a);
    let one = gathered(rows.drop_last());
    assert(one =~= seq![a]);
    assert(one.drop_last() =~= Seq::<(Seq<char>, JsonModel)>::empty());
    let both = gathered(rows);
    assert(both =~= seq![b, a]);
    assert(both.skip(1) =~= seq![a]);
    let texts = text_members(file.secrets);
    assert(member_texts(texts) =~= file.secrets);
    gathered_in_order(file.secrets);
    assert(first_member(both, "version"@) == Some(a.1));
    assert(first_member(both, "secrets"@) == Some(b.1));
}

/// Writes secrets down.
pub fn write_secrets(file: &SecretsFile) -> (r: Option<Vec<u8>>)
    ensures
        bytes_in(r) == object_bytes(written_members(file@)),
        r matches Some(bytes) ==> secrets_read(bytes@) == Some(file@),
{
    let total: usize = file.secrets.len();
    let ghost rows = file@.secrets;
    let ghost all = text_members(rows);
    let mut secrets = empty_object();
    let mut i: usize = 0;
    assert(all.take(0) =~= Seq::<(Seq<char>, JsonModel)>::empty());
    while i < total
        invariant
            i <= total == rows.len(),
            rows == file.secrets@,
            all == text_members(rows),
            document(secrets) == JsonModel::Object(gathered(all.take(i as int))),
        decreases total - i,
    {
        assert(all.take(i + 1).drop_last() =~= all.take(i as int));
        assert(all.take(i + 1).last() == all[i as int]);
        insert_member(
            &mut secrets,
            file.secrets.key(i).clone(),
            text_value(file.secrets.value(i).clone()),
        );
        i += 1;
    }
    proof {
        assert(all.take(total as int) =~= all);
        assert forall|i: int, j: int| 0 <= i < j < all.len() implies less(
            (#[trigger] all[i]).0,
            (#[trigger] all[j]).0,
        ) by {
            assert(less(rows[i].0, rows[j].0));
        }
        gathered_in_order(all);
        members_are_read(file@);
    }
    let mut members: Vec<(String, serde_json::Value)> = Vec::new();
    members.push(("version".to_string(), number_value(file.version as u64)));
    members.push(("secrets".to_string(), secrets));
    proof {
        assert(members_of(members@) =~= written_members(file@));
        assert forall|k: int| 0 <= k < members@.len() implies shallow(
            document((#[trigger] members@[k]).1),
        ) by {
            if k == 0 {
                assert(simple(written_members(file@)[0].1));
            } else {
                assert(document(members@[1].1) == JsonModel::Object(all));
            }
        }
    }
    write_object(members)
}

/// The secrets that a version and an object of texts make.
fn make_secrets(version: &Json, secrets: &Json) -> (r: Option<SecretsFile>)
    ensures
        held(r) == secrets_from(version@, secrets@),
{
    let version: u8 = match version {
        Json::Number(Some(n), _) if *n <= u8::MAX as u64 => *n as u8,
        _ => {
            return None;
        },
    };
    match secrets {
        Json::Object(rows) => {
            let ghost all = secrets@->Object_0;
            let mut table: Table<String> = Table::new();
            let mut i: usize = 0;
            assert(all.len() == rows@.len());
            assert(member_texts(all).take(0) =~= Seq::<(Seq<char>, Seq<char>)>::empty());
            while i < rows.len()
                invariant
                    i <= rows@.len(),
                    secrets matches Json::Object(list) && list@ == rows@,
                    all == secrets@->Object_0,
                    all.len() == rows@.len(),
                    table@ == gathered(member_texts(all).take(i as int)),
                    forall|j: int| 0 <= j < i ==> (#[trigger] all[j]).1 is Text,
                decreases rows@.len() - i,
            {
                assert(all[i as int] == (rows@[i as int].0@, rows@[i as int].1@));
                match &rows[i].1 {
                    Json::Text(text) => {
                        let ghost some = member_texts(all).take(i + 1);
                        assert(some.drop_last() =~= member_texts(all).take(i as int));
                        assert(some.last() == (rows@[i as int].0@, text@));
                        let _ = table.insert(rows[i].0.clone(), text.clone());
                    },
                    _ => {
                        return None;
                    },
                }
                i += 1;
            }
            assert(member_texts(all).take(all.len() as int) =~= member_texts(all));
            Some(SecretsFile { version, secrets: table })
        },
        _ => None,
    }
}

/// Reads secrets out of the content of a file.
pub fn read_secrets(bytes: &Vec<u8>) -> (r: Option<SecretsFile>)
    ensures
        held(r) == secrets_read(bytes@),
{
    let json = match read_document(bytes.as_slice()) {
        Some(json) => json,
        None => {
            return None;
        },
    };
    match &json {
        Json::Object(_) => match (json.get("version"), json.get("secrets")) {
            (Some(version), Some(secrets)) => make_secrets(version, secrets),
            _ => None,
        },
        Json::List(items) => if items.len() == 2 {
            assert(json@->List_0[0] == items@[0]@);
            assert(json@->List_0[1] == items@[1]@);
            make_secrets(&items[0], &items[1])
        } else {
            None
        },
        _ => None,
    }
}

/// A document holds secrets where its version is a small number and its secrets are texts; each text is
/// found under its key, the last one where a key is written twice, and nothing else is.
pub proof fn documents_hold_their_texts(
    n: u64,
    digits: Seq<char>,
    rows: Seq<(Seq<char>, JsonModel)>,
    i: int,
)
    ensures
        ({
            let read = secrets_from(
                JsonModel::Number(Some(n), digits),
                JsonModel::Object(rows),
            );
            &&& read is Some <==> n <= 255 && (forall|k: int|
                0 <= k < rows.len() ==> (#[trigger] rows[k]).1 is Text)
            &&& read matches Some(file) ==> file.version == n && ascending(file.secrets) && (0 <= i
                < rows.len() && (forall|k: int|
                i < k < rows.len() ==> (#[trigger] rows[k]).0 != rows[i].0) ==> lookup(
                file.secrets,
                rows[i].0,
            ) == Some(rows[i].1->Text_0))
        }),
        forall|json: JsonModel|
            !(json is Object) ==> #[trigger] secrets_from(
                JsonModel::Number(Some(n), digits),
                json,
            ) is None,
{
    let list = member_texts(rows);
    gathered_in_order(list);
    if 0 <= i < rows.len() && (forall|k: int|
        i < k < rows.len() ==> (#[trigger] rows[k]).0 != rows[i].0) {
        assert forall|k: int| i < k < list.len() implies (#[trigger] list[k]).0 != list[i].0 by {
            assert(rows[k].0 != rows[i].0);
        }
        last_values_count(list, i);
    }
}

/// What is gathered holds the last value of each key.
proof fn last_values_count(rows: Seq<(Seq<char>, Seq<char>)>, i: int)
    requires
        0 <= i < rows.len(),
        forall|k: int| i < k < rows.len() ==> (#[trigger] rows[k]).0 != rows[i].0,
    ensures
        lookup(gathered(rows), rows[i].0) == Some(rows[i].1),
    decreases rows.len(),
{
    let head = rows.drop_last();
    gathered_in_order(head);
    placed_found(gathered(head), rows.last().0, rows.last().1, rows[i].0);
    if i < head.len() {
        assert(rows[rows.len() - 1].0 != rows[i].0);
        assert forall|k: int| i < k < head.len() implies (#[trigger] head[k]).0 != head[i].0 by {
            assert(rows[k].0 != rows[i].0);
        }
        last_values_count(head, i);
    }
}

} // verus!
