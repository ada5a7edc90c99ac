//! Loading and saving the secrets of a namespace: runs of outside steps, each decided by how the
//! one before it ended.
//!
//! Files that are encrypted with a passphrase are sealed anew when they are loaded. All namespaces
//! share one key, so a key is only made while no encrypted file is there that an old key could
//! still open.

use vstd::prelude::*;
use vstd::string::StringExecFns;

use crate::json::object_bytes;
use crate::sealing::any_encrypted;
use crate::sealing::content_of;
use crate::sealing::generate_key;
use crate::sealing::identity_from_key;
use crate::sealing::identity_of;
use crate::sealing::is_any_encrypted;
use crate::sealing::load_key_failure;
use crate::sealing::load_with_key;
use crate::sealing::open_problem;
use crate::sealing::opened_of;
use crate::sealing::passphrase_header;
use crate::sealing::passphrase_opened;
use crate::sealing::seal;
use crate::sealing::sealed_for;
use crate::sealing::unopened;
use crate::sealing::unsealed;
use crate::sealing::OpenedFile;
use crate::sealing::SealPurpose;
use crate::secrets::canonical_key_of;
use crate::secrets::settle_version;
use crate::secrets::version_problem;
use crate::secrets::SecretScopeModel;
use crate::secrets::SecretsFile;
use crate::secrets::SecretsModel;
use crate::secrets::SECRETS_VERSION;
use crate::secrets_document::held;
use crate::secrets_document::read_secrets;
use crate::secrets_document::secrets_read;
use crate::secrets_document::write_secrets;
use crate::secrets_document::written_members;
use crate::table::ascending;
use crate::table::dropped;
use crate::table::dropped_gone;
use crate::table::lookup;
use crate::table::placed;
use crate::table::placed_found;
use crate::text::maybe;
use crate::text::texts;

verus! {

/// The outside steps of loading secrets, in the order of a load that goes through.
#[derive(Clone, Copy, Debug, PartialEq, Eq, Structural)]
pub enum LoadWork {
    ReadFile,
    /// Ask the keyring for the key.
    LoadKey,
    /// Replace the file by one that needs no passphrase.
    Write,
    /// The secrets are at hand, or the load has failed.
    Finish,
}

/// How an outside step of a load ended.
#[derive(PartialEq, Eq)]
pub enum LoadEvent {
    /// There is no file.
    Missing,
    Bytes(Vec<u8>),
    /// The key, where the keyring holds it.
    Key(Option<String>),
    Done,
    Failed(String),
}

/// A load on its way: the step being taken, the file, the key once it is known, the secrets once
/// they are known, and what went wrong.
#[derive(PartialEq, Eq)]
pub struct SecretsLoad {
    pub doing: LoadWork,
    /// The file, then the one that replaces it.
    pub bytes: Vec<u8>,
    pub key: Option<String>,
    pub file: Option<SecretsFile>,
    pub failure: Option<String>,
}

/// A load on its way, with its texts as sequences of characters.
#[verifier::ext_equal]
pub struct LoadModel {
    pub doing: LoadWork,
    pub bytes: Seq<u8>,
    pub key: Option<Seq<char>>,
    pub file: Option<SecretsModel>,
    pub failure: Option<Seq<char>>,
}

impl View for SecretsLoad {
    type V = LoadModel;

    open spec fn view(&self) -> LoadModel {
        LoadModel {
            doing: self.doing,
            bytes: self.bytes@,
            key: maybe(self.key),
            file: held(self.file),
            failure: maybe(self.failure),
        }
    }
}

/// What went wrong, where something did.
pub open spec fn said(failure: Option<Seq<char>>) -> Seq<char> {
    match failure {
        Some(error) => error,
        None => Seq::empty(),
    }
}

/// A load that starts with its first step.
pub open spec fn loading() -> LoadModel {
    LoadModel {
        doing: LoadWork::ReadFile,
        bytes: Seq::empty(),
        key: None,
        file: None,
        failure: None,
    }
}

/// A load that has failed.
pub open spec fn not_loaded(load: LoadModel, error: Seq<char>) -> LoadModel {
    LoadModel { doing: LoadWork::Finish, file: None, failure: Some(error), ..load }
}

/// A load that has come to its secrets, and whether the file is to be replaced first.
pub open spec fn come_to(
    load: LoadModel,
    key: Seq<char>,
    file: SecretsModel,
    doing: LoadWork,
    bytes: Seq<u8>,
) -> LoadModel {
    LoadModel {
        doing,
        bytes,
        key: Some(key),
        file: Some(SecretsModel { version: SECRETS_VERSION, ..file }),
        failure: load.failure,
    }
}

/// How a load goes on with the content of its file.
pub open spec fn parsed(
    path: Seq<char>,
    load: LoadModel,
    key: Seq<char>,
    content: Seq<u8>,
    migrate: bool,
    next: LoadModel,
) -> bool {
    match secrets_read(content) {
        None => next == not_loaded(
            load,
            "failed to deserialize decrypted secrets file at "@ + path,
        ),
        Some(file) => match version_problem(file.version) {
            Some(problem) => next == not_loaded(load, problem),
            None => if migrate {
                ||| next == come_to(load, key, file, LoadWork::Write, next.bytes) && sealed_for(
                    key,
                    next.bytes,
                    content,
                )
                ||| unsealed(key, SealPurpose::Upgrade, said(next.failure)) && next == not_loaded(
                    load,
                    said(next.failure),
                )
            } else {
                next == come_to(load, key, file, LoadWork::Finish, load.bytes)
            },
        },
    }
}

/// How a load goes on with the key from the keyring.
pub open spec fn keyed(
    path: Seq<char>,
    load: LoadModel,
    key: Option<Seq<char>>,
    next: LoadModel,
) -> bool {
    match key {
        None => next == not_loaded(load, "secrets file exists but its keyring key is missing"@),
        Some(key) => match open_problem(key, load.bytes) {
            Some(problem) => next == not_loaded(load, problem),
            None => if passphrase_header(load.bytes) == Some(false) {
                match content_of(opened_of(identity_of(key)->Ok_0, load.bytes)) {
                    Ok(content) => parsed(path, load, key, content, false, next),
                    Err(error) => next == not_loaded(load, error),
                }
            } else {
                ||| parsed(path, load, key, passphrase_opened(key, load.bytes), true, next)
                ||| unopened(said(next.failure)) && next == not_loaded(load, said(next.failure))
            },
        },
    }
}

/// How a load of the file at `path` goes on. A file that is not there holds nothing, and needs no
/// key. Whether a passphrase opens its file depends on the machine, and what sealing writes on
/// chance. An event that does not answer the step being taken changes nothing.
pub open spec fn load_goes_on(
    path: Seq<char>,
    account: Seq<char>,
    load: LoadModel,
    event: LoadEvent,
    next: LoadModel,
) -> bool {
    match (load.doing, event) {
        (LoadWork::ReadFile, LoadEvent::Missing) => next == (LoadModel {
            doing: LoadWork::Finish,
            file: Some(SecretsModel { version: SECRETS_VERSION, secrets: Seq::empty() }),
            ..load
        }),
        (LoadWork::ReadFile, LoadEvent::Bytes(bytes)) => next == (LoadModel {
            doing: LoadWork::LoadKey,
            bytes: bytes@,
            ..load
        }),
        (LoadWork::ReadFile, LoadEvent::Failed(_)) => next == not_loaded(
            load,
            "failed to read secrets file at "@ + path,
        ),
        (LoadWork::LoadKey, LoadEvent::Key(key)) => keyed(path, load, maybe(key), next),
        (LoadWork::LoadKey, LoadEvent::Failed(_)) => next == not_loaded(
            load,
            "failed to load secrets key from keyring for "@ + account,
        ),
        (LoadWork::Write, LoadEvent::Done) => next == (LoadModel {
            doing: LoadWork::Finish,
            ..load
        }),
        (LoadWork::Write, LoadEvent::Failed(error)) => next == not_loaded(load, error@),
        _ => next == load,
    }
}

/// A text behind a prefix.
fn prefixed(prefix: &str, text: &str) -> (r: String)
    ensures
        r@ == prefix@ + text@,
{
    let mut out = prefix.to_string();
    out.append(text);
    out
}

impl SecretsLoad {
    /// A load that starts with its first step.
    pub fn start() -> (load: Self)
        ensures
            load@ == loading(),
    {
        SecretsLoad {
            doing: LoadWork::ReadFile,
            bytes: Vec::new(),
            key: None,
            file: None,
            failure: None,
        }
    }

    /// The load has failed.
    fn fail(self, error: String) -> (load: Self)
        ensures
            load@ == not_loaded(self@, error@),
    {
        let mut load = self;
        load.doing = LoadWork::Finish;
        load.file = None;
        load.failure = Some(error);
        load
    }

    /// Goes on with the content of the file.
    fn take_content(self, opened: OpenedFile, key: String, path: &str) -> (load: Self)
        ensures
            parsed(path@, self@, key@, opened.content@, opened.migrate, load@),
    {
        let mut load = self;
        let file = match read_secrets(&opened.content) {
            Some(file) => file,
            None => {
                return load.fail(
                    prefixed("failed to deserialize decrypted secrets file at ", path),
                );
            },
        };
        let version: u8 = match settle_version(file.version) {
            Ok(version) => version,
            Err(error) => {
                return load.fail(error);
            },
        };
        let read = SecretsFile { version, secrets: file.secrets };
        if opened.migrate {
            match seal(key.as_str(), &opened.content, SealPurpose::Upgrade) {
                Ok(bytes) => {
                    load.doing = LoadWork::Write;
                    load.bytes = bytes;
                },
                Err(error) => {
                    let failed = load.fail(error);
                    assert(said(failed@.failure) == error@);
                    return failed;
                },
            }
        } else {
            load.doing = LoadWork::Finish;
        }
        load.key = Some(key);
        load.file = Some(read);
        load
    }

    /// Goes on with the key from the keyring.
    fn take_key(self, key: Option<String>, path: &str) -> (load: Self)
        ensures
            keyed(path@, self@, maybe(key), load@),
    {
        let ghost header = passphrase_header(self.bytes@);
        match (load_with_key(&self.bytes, &key), key) {
            (Ok(opened), Some(key)) => {
                assert(header == Some(opened.migrate));
                self.take_content(opened, key, path)
            },
            (Ok(_), None) => self,
            (Err(error), _) => {
                let failed = self.fail(error);
                assert(said(failed@.failure) == error@);
                assert(header == Some(true) || header == Some(false) || header is None);
                failed
            },
        }
    }

    /// What the load of the file at `path` does next, now that its step ended; `account` is the
    /// name under which the keyring keeps the key. An event that does not answer the step being
    /// taken changes nothing.
    pub fn next(self, event: LoadEvent, path: &str, account: &str) -> (load: Self)
        ensures
            load_goes_on(path@, account@, self@, event, load@),
    {
        let mut load = self;
        match (load.doing, event) {
            (LoadWork::ReadFile, LoadEvent::Missing) => {
                load.doing = LoadWork::Finish;
                load.file = Some(SecretsFile::new_empty());
            },
            (LoadWork::ReadFile, LoadEvent::Bytes(bytes)) => {
                load.doing = LoadWork::LoadKey;
                load.bytes = bytes;
            },
            (LoadWork::ReadFile, LoadEvent::Failed(_)) => {
                return load.fail(prefixed("failed to read secrets file at ", path));
            },
            (LoadWork::LoadKey, LoadEvent::Key(key)) => {
                return load.take_key(key, path);
            },
            (LoadWork::LoadKey, LoadEvent::Failed(_)) => {
                return load.fail(load_key_failure(account));
            },
            (LoadWork::Write, LoadEvent::Done) => {
                load.doing = LoadWork::Finish;
            },
            (LoadWork::Write, LoadEvent::Failed(error)) => {
                return load.fail(error);
            },
            (_, _) => {},
        }
        load
    }
}

/// The states of a load, each with the event that led to the next.
pub open spec fn load_run(
    path: Seq<char>,
    account: Seq<char>,
    states: Seq<LoadModel>,
    events: Seq<LoadEvent>,
) -> bool {
    &&& states.len() == events.len() + 1
    &&& states[0] == loading()
    &&& forall|i: int|
        0 <= i < events.len() ==> load_goes_on(
            path,
            account,
            states[i],
            #[trigger] events[i],
            states[i + 1],
        )
}

/// What a load has of the file that it read: the file itself, then the one that replaces it, which
/// the same key opens to the content that the passphrase opened the old one to.
spec fn stands_for(load: LoadModel, file: Seq<u8>) -> bool {
    match load.doing {
        LoadWork::LoadKey => load.bytes == file,
        LoadWork::Write => {
            &&& load.key is Some
            &&& passphrase_header(file) == Some(true)
            &&& sealed_for(load.key->0, load.bytes, passphrase_opened(load.key->0, file))
            &&& secrets_read(passphrase_opened(load.key->0, file)) matches Some(read) && load.file
                == Some(SecretsModel { version: SECRETS_VERSION, ..read })
        },
        _ => true,
    }
}

/// What a load has stands for the file that was read.
proof fn loads_stand_for_the_file(
    path: Seq<char>,
    account: Seq<char>,
    states: Seq<LoadModel>,
    events: Seq<LoadEvent>,
    k: int,
)
    requires
        load_run(path, account, states, events),
        0 <= k < states.len(),
        states[k].doing == LoadWork::LoadKey || states[k].doing == LoadWork::Write,
    ensures
        exists|i: int|
            0 <= i < k && (#[trigger] events[i] matches LoadEvent::Bytes(file) && stands_for(
                states[k],
                file@,
            )),
    decreases k,
{
    let before = states[k - 1];
    let event = events[k - 1];
    assert(load_goes_on(path, account, before, event, states[k - 1 + 1]));
    if before.doing == LoadWork::ReadFile {
        assert(event is Bytes);
        assert(stands_for(states[k], event->Bytes_0@));
    } else {
        loads_stand_for_the_file(path, account, states, events, k - 1);
        let i = choose|i: int|
            0 <= i < k - 1 && (#[trigger] events[i] matches LoadEvent::Bytes(file) && stands_for(
                before,
                file@,
            ));
        let file = events[i]->Bytes_0@;
        assert(stands_for(before, file));
        if before.doing == LoadWork::LoadKey && states[k] != before {
            assert(event is Key);
            let key = maybe(event->Key_0);
            assert(keyed(path, before, key, states[k]));
            assert(key is Some);
            assert(open_problem(key->0, file) is None);
            let header = passphrase_header(file);
            assert(header == Some(true) || header == Some(false));
        }
        assert(stands_for(states[k], file));
    }
}

/// A file is replaced on loading only where it was encrypted with a passphrase, and by one that the
/// key opens without a passphrase to the content that it opened the old one to as a passphrase. So the
/// new file holds the secrets that the load comes to, under the version that it had. The key is not
/// changed: it is the one that the keyring gave.
pub proof fn upgrades_keep_key_and_content(
    path: Seq<char>,
    account: Seq<char>,
    states: Seq<LoadModel>,
    events: Seq<LoadEvent>,
    k: int,
)
    requires
        load_run(path, account, states, events),
        0 <= k < states.len(),
        states[k].doing == LoadWork::Write,
    ensures
        states[k].key is Some,
        exists|i: int|
            0 <= i < k && (#[trigger] events[i] matches LoadEvent::Bytes(file)
                && passphrase_header(file@) == Some(true) && sealed_for(
                states[k].key->0,
                states[k].bytes,
                passphrase_opened(states[k].key->0, file@),
            )),
        states[k].file matches Some(file) && exists|version: u8| #[trigger]
            holds_secrets(states[k].key->0, states[k].bytes, SecretsModel { version, ..file }),
        exists|i: int|
            0 <= i < k && (#[trigger] events[i] matches LoadEvent::Key(Some(key)) && states[k].key
                == Some(key@)),
{
    loads_stand_for_the_file(path, account, states, events, k);
    let i = choose|i: int|
        0 <= i < k && (#[trigger] events[i] matches LoadEvent::Bytes(file) && stands_for(
            states[k],
            file@,
        ));
    let old = events[i]->Bytes_0@;
    assert(stands_for(states[k], old));
    let read = secrets_read(passphrase_opened(states[k].key->0, old))->0;
    assert(read =~= SecretsModel { version: read.version, ..states[k].file->0 });
    assert(holds_secrets(
        states[k].key->0,
        states[k].bytes,
        SecretsModel { version: read.version, ..states[k].file->0 },
    ));
    keys_come_from_the_keyring(path, account, states, events, k);
}

/// The key of a load is what the keyring gave.
proof fn keys_come_from_the_keyring(
    path: Seq<char>,
    account: Seq<char>,
    states: Seq<LoadModel>,
    events: Seq<LoadEvent>,
    k: int,
)
    requires
        load_run(path, account, states, events),
        0 <= k < states.len(),
        states[k].key is Some,
    ensures
        exists|i: int|
            0 <= i < k && (#[trigger] events[i] matches LoadEvent::Key(Some(key)) && states[k].key
                == Some(key@)),
    decreases k,
{
    let before = states[k - 1];
    let event = events[k - 1];
    assert(load_goes_on(path, account, before, event, states[k - 1 + 1]));
    if before.key == states[k].key {
        keys_come_from_the_keyring(path, account, states, events, k - 1);
        let i = choose|i: int|
            0 <= i < k - 1 && (#[trigger] events[i] matches LoadEvent::Key(Some(key)) && before.key
                == Some(key@));
        assert(events[i] matches LoadEvent::Key(Some(key)) && states[k].key == Some(key@));
    } else {
        assert(event matches LoadEvent::Key(Some(key)) && states[k].key == Some(key@));
    }
}

/// The outside steps of saving secrets, in the order of a save that goes through.
#[derive(Clone, Copy, Debug, PartialEq, Eq, Structural)]
pub enum SaveWork {
    CreateDirectory,
    /// Ask the keyring for the key.
    LoadKey,
    /// List what is in the directory, where there is no key.
    ListFiles,
    /// Put a new key into the keyring.
    StoreKey,
    /// Replace the file.
    Write,
    /// The secrets are saved, or the save has failed.
    Finish,
}

/// How an outside step of a save ended.
#[derive(PartialEq, Eq)]
pub enum SaveEvent {
    /// The key, where the keyring holds it.
    Key(Option<String>),
    /// The names in the directory.
    Names(Vec<String>),
    Done,
    Failed(String),
}

/// A save on its way: the step being taken, the key once it is known, the file once it is made, and
/// what went wrong.
#[derive(PartialEq, Eq)]
pub struct SecretsSave {
    pub doing: SaveWork,
    pub key: Option<String>,
    pub bytes: Vec<u8>,
    pub failure: Option<String>,
}

/// A save on its way, with its texts as sequences of characters.
#[verifier::ext_equal]
pub struct SaveModel {
    pub doing: SaveWork,
    pub key: Option<Seq<char>>,
    pub bytes: Seq<u8>,
    pub failure: Option<Seq<char>>,
}

impl View for SecretsSave {
    type V = SaveModel;

    open spec fn view(&self) -> SaveModel {
        SaveModel {
            doing: self.doing,
            key: maybe(self.key),
            bytes: self.bytes@,
            failure: maybe(self.failure),
        }
    }
}

/// A save that starts with its first step.
pub open spec fn saving() -> SaveModel {
    SaveModel {
        doing: SaveWork::CreateDirectory,
        key: None,
        bytes: Seq::empty(),
        failure: None,
    }
}

/// A save that has failed.
pub open spec fn not_saved(save: SaveModel, error: Seq<char>) -> SaveModel {
    SaveModel { doing: SaveWork::Finish, failure: Some(error), ..save }
}

/// How a save without a key goes on: a key is made only where no encrypted file is there.
pub open spec fn keyless(save: SaveModel, names: Seq<Seq<char>>, next: SaveModel) -> bool {
    if any_encrypted(names) {
        next == not_saved(save, "secrets file exists but its keyring key is missing"@)
    } else {
        ||| next.key is Some && identity_of(next.key->0) is Ok && next == (SaveModel {
            doing: SaveWork::StoreKey,
            key: next.key,
            ..save
        })
        ||| next == not_saved(save, "failed to generate random secrets key"@)
    }
}

/// How a save goes on with its key, which is tested before the secrets are written down.
pub open spec fn enclosed(
    save: SaveModel,
    key: Seq<char>,
    file: SecretsModel,
    next: SaveModel,
) -> bool {
    match identity_of(key) {
        Err(error) => next == not_saved(save, error),
        Ok(_) => match object_bytes(written_members(file)) {
            None => next == not_saved(save, "failed to serialize secrets file"@),
            Some(content) => {
                ||| next == (SaveModel {
                    doing: SaveWork::Write,
                    key: Some(key),
                    bytes: next.bytes,
                    ..save
                }) && sealed_for(key, next.bytes, content) && secrets_read(content) == Some(file)
                ||| next == not_saved(save, "failed to encrypt secrets file"@)
            },
        },
    }
}

/// How a save of secrets into `dir` goes on. An event that does not answer the step being taken
/// changes nothing.
pub open spec fn save_goes_on(
    dir: Seq<char>,
    account: Seq<char>,
    file: SecretsModel,
    save: SaveModel,
    event: SaveEvent,
    next: SaveModel,
) -> bool {
    match (save.doing, event) {
        (SaveWork::CreateDirectory, SaveEvent::Done) => next == (SaveModel {
            doing: SaveWork::LoadKey,
            ..save
        }),
        (SaveWork::CreateDirectory, SaveEvent::Failed(_)) => next == not_saved(
            save,
            "failed to create secrets dir "@ + dir,
        ),
        (SaveWork::LoadKey, SaveEvent::Key(Some(key))) => enclosed(save, key@, file, next),
        (SaveWork::LoadKey, SaveEvent::Key(None)) => next == (SaveModel {
            doing: SaveWork::ListFiles,
            ..save
        }),
        (SaveWork::LoadKey, SaveEvent::Failed(_)) => next == not_saved(
            save,
            "failed to load secrets key from keyring for "@ + account,
        ),
        (SaveWork::ListFiles, SaveEvent::Names(names)) => keyless(save, texts(names@), next),
        (SaveWork::ListFiles, SaveEvent::Failed(error)) => next == not_saved(save, error@),
        (SaveWork::StoreKey, SaveEvent::Done) => match save.key {
            Some(key) => enclosed(save, key, file, next),
            None => next == save,
        },
        (SaveWork::StoreKey, SaveEvent::Failed(_)) => next == not_saved(
            save,
            "failed to persist secrets key in keyring"@,
        ),
        (SaveWork::Write, SaveEvent::Done) => next == (SaveModel {
            doing: SaveWork::Finish,
            ..save
        }),
        (SaveWork::Write, SaveEvent::Failed(error)) => next == not_saved(save, error@),
        _ => next == save,
    }
}

impl SecretsSave {
    /// A save that starts with its first step.
    pub fn start() -> (save: Self)
        ensures
            save@ == saving(),
    {
        SecretsSave {
            doing: SaveWork::CreateDirectory,
            key: None,
            bytes: Vec::new(),
            failure: None,
        }
    }

    /// The save has failed.
    fn fail(self, error: String) -> (save: Self)
        ensures
            save@ == not_saved(self@, error@),
    {
        let mut save = self;
        save.doing = SaveWork::Finish;
        save.failure = Some(error);
        save
    }

    /// Goes on without a key.
    fn make_key(self, names: &Vec<String>) -> (save: Self)
        ensures
            keyless(self@, texts(names@), save@),
    {
        let mut save = self;
        if is_any_encrypted(names) {
            return save.fail("secrets file exists but its keyring key is missing".to_string());
        }
        match generate_key() {
            Ok(key) => {
                save.doing = SaveWork::StoreKey;
                save.key = Some(key);
                save
            },
            Err(error) => save.fail(error),
        }
    }

    /// Goes on with the key.
    fn enclose(self, key: String, file: &SecretsFile) -> (save: Self)
        ensures
            enclosed(self@, key@, file@, save@),
    {
        let mut save = self;
        if let Err(error) = identity_from_key(key.as_str()) {
            return save.fail(error);
        }
        let content = match write_secrets(file) {
            Some(content) => content,
            None => {
                return save.fail("failed to serialize secrets file".to_string());
            },
        };
        match seal(key.as_str(), &content, SealPurpose::Save) {
            Ok(bytes) => {
                save.doing = SaveWork::Write;
                save.key = Some(key);
                save.bytes = bytes;
                save
            },
            Err(error) => save.fail(error),
        }
    }

    /// What the save of secrets into `dir` does next, now that its step ended; `account` is the
    /// name under which the keyring keeps the key. An event that does not answer the step being
    /// taken changes nothing.
    pub fn next(self, event: SaveEvent, dir: &str, account: &str, file: &SecretsFile) -> (save:
        Self)
        ensures
            save_goes_on(dir@, account@, file@, self@, event, save@),
    {
        let mut save = self;
        match (save.doing, event) {
            (SaveWork::CreateDirectory, SaveEvent::Done) => {
                save.doing = SaveWork::LoadKey;
            },
            (SaveWork::CreateDirectory, SaveEvent::Failed(_)) => {
                return save.fail(prefixed("failed to create secrets dir ", dir));
            },
            (SaveWork::LoadKey, SaveEvent::Key(Some(key))) => {
                return save.enclose(key, file);
            },
            (SaveWork::LoadKey, SaveEvent::Key(None)) => {
                save.doing = SaveWork::ListFiles;
            },
            (SaveWork::LoadKey, SaveEvent::Failed(_)) => {
                return save.fail(load_key_failure(account));
            },
            (SaveWork::ListFiles, SaveEvent::Names(names)) => {
                return save.make_key(&names);
            },
            (SaveWork::ListFiles, SaveEvent::Failed(error)) => {
                return save.fail(error);
            },
            (SaveWork::StoreKey, SaveEvent::Done) => {
                if let Some(key) = &save.key {
                    let key = key.clone();
                    return save.enclose(key, file);
                }
            },
            (SaveWork::StoreKey, SaveEvent::Failed(_)) => {
                return save.fail("failed to persist secrets key in keyring".to_string());
            },
            (SaveWork::Write, SaveEvent::Done) => {
                save.doing = SaveWork::Finish;
            },
            (SaveWork::Write, SaveEvent::Failed(error)) => {
                return save.fail(error);
            },
            (_, _) => {},
        }
        save
    }
}

/// The states of a save, each with the event that led to the next.
pub open spec fn save_run(
    dir: Seq<char>,
    account: Seq<char>,
    file: SecretsModel,
    states: Seq<SaveModel>,
    events: Seq<SaveEvent>,
) -> bool {
    &&& states.len() == events.len() + 1
    &&& states[0] == saving()
    &&& forall|i: int|
        0 <= i < events.len() ==> save_goes_on(
            dir,
            account,
            file,
            states[i],
            #[trigger] events[i],
            states[i + 1],
        )
}

/// A new key is put into the keyring only when the keyring held none and the directory held no
/// encrypted file: no file is ever left without the key that opens it.
pub proof fn keys_are_never_replaced(
    dir: Seq<char>,
    account: Seq<char>,
    file: SecretsModel,
    states: Seq<SaveModel>,
    events: Seq<SaveEvent>,
    k: int,
)
    requires
        save_run(dir, account, file, states, events),
        0 <= k < states.len(),
        states[k].doing == SaveWork::StoreKey,
    ensures
        exists|i: int| 0 <= i < k && #[trigger] events[i] == SaveEvent::Key(None),
        exists|i: int|
            0 <= i < k && (#[trigger] events[i] matches SaveEvent::Names(names) && !any_encrypted(
                texts(names@),
            )),
    decreases k,
{
    let before = states[k - 1];
    assert(save_goes_on(dir, account, file, before, events[k - 1], states[k - 1 + 1]));
    if before.doing == SaveWork::StoreKey {
        keys_are_never_replaced(dir, account, file, states, events, k - 1);
    } else {
        asked_before_listing(dir, account, file, states, events, k - 1);
    }
}

/// The directory is listed only after the keyring was asked and held no key.
proof fn asked_before_listing(
    dir: Seq<char>,
    account: Seq<char>,
    file: SecretsModel,
    states: Seq<SaveModel>,
    events: Seq<SaveEvent>,
    k: int,
)
    requires
        save_run(dir, account, file, states, events),
        0 <= k < states.len(),
        states[k].doing == SaveWork::ListFiles,
    ensures
        exists|i: int| 0 <= i < k && #[trigger] events[i] == SaveEvent::Key(None),
    decreases k,
{
    let before = states[k - 1];
    assert(save_goes_on(dir, account, file, before, events[k - 1], states[k - 1 + 1]));
    if before.doing == SaveWork::ListFiles {
        asked_before_listing(dir, account, file, states, events, k - 1);
    }
}

/// The key opens the bytes, without a passphrase, to these secrets.
pub open spec fn holds_secrets(key: Seq<char>, bytes: Seq<u8>, file: SecretsModel) -> bool {
    &&& open_problem(key, bytes) is None
    &&& passphrase_header(bytes) == Some(false)
    &&& opened_of(identity_of(key)->Ok_0, bytes) matches Ok(content) && secrets_read(content)
        == Some(file)
}

/// A save that writes a file, or has gone through, made a file that holds the secrets.
proof fn saves_hold_the_secrets(
    dir: Seq<char>,
    account: Seq<char>,
    file: SecretsModel,
    states: Seq<SaveModel>,
    events: Seq<SaveEvent>,
    k: int,
)
    requires
        save_run(dir, account, file, states, events),
        0 <= k < states.len(),
        states[k].failure is None,
        states[k].doing == SaveWork::Write || states[k].doing == SaveWork::Finish,
    ensures
        states[k].key is Some,
        holds_secrets(states[k].key->0, states[k].bytes, file),
    decreases k,
{
    let before = states[k - 1];
    let event = events[k - 1];
    assert(save_goes_on(dir, account, file, before, event, states[k - 1 + 1]));
    if before.doing == SaveWork::Write || before.doing == SaveWork::Finish {
        saves_hold_the_secrets(dir, account, file, states, events, k - 1);
    }
}

/// A save that goes through leaves a file that its key opens to exactly the secrets saved.
pub proof fn finished_saves_hold_the_secrets(
    dir: Seq<char>,
    account: Seq<char>,
    file: SecretsModel,
    states: Seq<SaveModel>,
    events: Seq<SaveEvent>,
)
    requires
        save_run(dir, account, file, states, events),
        states.last().doing == SaveWork::Finish,
        states.last().failure is None,
    ensures
        states.last().key is Some,
        holds_secrets(states.last().key->0, states.last().bytes, file),
{
    saves_hold_the_secrets(dir, account, file, states, events, states.len() - 1);
}

/// A load of a file comes to the secrets that its key opens it to, and leaves the file as it is.
pub proof fn loads_come_to_the_secrets(
    path: Seq<char>,
    account: Seq<char>,
    states: Seq<LoadModel>,
    events: Seq<LoadEvent>,
    file: SecretsModel,
)
    requires
        load_run(path, account, states, events),
        events.len() == 2,
        events[0] is Bytes,
        events[1] matches LoadEvent::Key(Some(key)) && holds_secrets(
            key@,
            events[0]->Bytes_0@,
            file,
        ),
        version_problem(file.version) is None,
    ensures
        states.last().doing == LoadWork::Finish,
        states.last().failure is None,
        states.last().file == Some(SecretsModel { version: SECRETS_VERSION, ..file }),
{
    assert(load_goes_on(path, account, states[0], events[0], states[1]));
    assert(load_goes_on(path, account, states[1], events[1], states[2]));
    let key = maybe(events[1]->Key_0);
    assert(keyed(path, states[1], key, states[2]));
}

/// A load gives back what a save wrote: where a save went through, a load that reads the bytes it
/// wrote, and gets the key that it used, comes to exactly the secrets saved.
pub proof fn loads_give_back_what_was_saved(
    dir: Seq<char>,
    account: Seq<char>,
    file: SecretsModel,
    saves: Seq<SaveModel>,
    written: Seq<SaveEvent>,
    path: Seq<char>,
    loads: Seq<LoadModel>,
    read: Seq<LoadEvent>,
)
    requires
        file.version == SECRETS_VERSION,
        save_run(dir, account, file, saves, written),
        saves.last().doing == SaveWork::Finish,
        saves.last().failure is None,
        load_run(path, account, loads, read),
        read.len() == 2,
        read[0] matches LoadEvent::Bytes(bytes) && bytes@ == saves.last().bytes,
        read[1] matches LoadEvent::Key(Some(key)) && Some(key@) == saves.last().key,
    ensures
        loads.last().doing == LoadWork::Finish,
        loads.last().failure is None,
        loads.last().file == Some(file),
{
    finished_saves_hold_the_secrets(dir, account, file, saves, written);
    loads_come_to_the_secrets(path, account, loads, read, file);
}

/// A change to the secrets of a namespace.
pub enum SecretChange {
    /// A value is kept under a key.
    Kept(Seq<char>, Seq<char>),
    /// What is kept under a key is forgotten.
    Forgotten(Seq<char>),
}

/// The secrets after a change.
pub open spec fn changed_by(file: SecretsModel, change: SecretChange) -> SecretsModel {
    SecretsModel {
        secrets: match change {
            SecretChange::Kept(key, value) => placed(file.secrets, key, value),
            SecretChange::Forgotten(key) => dropped(file.secrets, key),
        },
        ..file
    }
}

/// The value under a key once changes were made: what the last change to that key says, or what
/// there was before.
pub open spec fn last_said(
    before: Option<Seq<char>>,
    changes: Seq<SecretChange>,
    key: Seq<char>,
) -> Option<Seq<char>>
    decreases changes.len(),
{
    if changes.len() == 0 {
        before
    } else {
        match changes.last() {
            SecretChange::Kept(changed, value) if changed == key => Some(value),
            SecretChange::Forgotten(changed) if changed == key => None,
            _ => last_said(before, changes.drop_last(), key),
        }
    }
}

/// One update of a stored namespace: its secrets are loaded, changed, and saved.
pub struct SecretUpdate {
    pub loads: Seq<LoadModel>,
    pub read: Seq<LoadEvent>,
    pub change: SecretChange,
    pub saves: Seq<SaveModel>,
    pub written: Seq<SaveEvent>,
}

/// A load of what is stored, with the key that is in the keyring, that goes through without a
/// replacement.
pub open spec fn loads_stored(
    path: Seq<char>,
    account: Seq<char>,
    key: Seq<char>,
    stored: Option<Seq<u8>>,
    loads: Seq<LoadModel>,
    read: Seq<LoadEvent>,
) -> bool {
    &&& load_run(path, account, loads, read)
    &&& match stored {
        None => read.len() == 1 && read[0] is Missing,
        Some(bytes) => read.len() == 2 && (read[0] matches LoadEvent::Bytes(file) && file@ == bytes)
            && (read[1] matches LoadEvent::Key(Some(kept)) && kept@ == key),
    }
}

/// What is stored once updates were made, the first of which found no file.
pub open spec fn stored_after(updates: Seq<SecretUpdate>) -> Option<Seq<u8>> {
    if updates.len() == 0 {
        None
    } else {
        Some(updates.last().saves.last().bytes)
    }
}

/// The changes that updates made.
pub open spec fn changes_of(updates: Seq<SecretUpdate>) -> Seq<SecretChange> {
    Seq::new(updates.len(), |i: int| updates[i].change)
}

/// Updates one after the other, from no file on: each loads what the one before it stored, and saves
/// with the key that is in the keyring.
pub open spec fn updated(
    dir: Seq<char>,
    path: Seq<char>,
    account: Seq<char>,
    key: Seq<char>,
    updates: Seq<SecretUpdate>,
) -> bool
    decreases updates.len(),
{
    updates.len() == 0 || {
        let before = updates.drop_last();
        let update = updates.last();
        &&& updated(dir, path, account, key, before)
        &&& loads_stored(path, account, key, stored_after(before), update.loads, update.read)
        &&& update.loads.last().file is Some
        &&& save_run(
            dir,
            account,
            changed_by(update.loads.last().file->0, update.change),
            update.saves,
            update.written,
        )
        &&& update.saves.last().doing == SaveWork::Finish
        &&& update.saves.last().failure is None
        &&& update.saves.last().key == Some(key)
    }
}

/// The secrets that are stored once updates were made.
spec fn secrets_after(updates: Seq<SecretUpdate>) -> SecretsModel
    decreases updates.len(),
{
    if updates.len() == 0 {
        SecretsModel { version: SECRETS_VERSION, secrets: Seq::empty() }
    } else {
        changed_by(secrets_after(updates.drop_last()), updates.last().change)
    }
}

/// The secrets that are stored say, of each key, what the last change to it said.
proof fn last_changes_stay(updates: Seq<SecretUpdate>, key: Seq<char>)
    ensures
        secrets_after(updates).version == SECRETS_VERSION,
        ascending(secrets_after(updates).secrets),
        lookup(secrets_after(updates).secrets, key) == last_said(None, changes_of(updates), key),
    decreases updates.len(),
{
    if updates.len() > 0 {
        let before = secrets_after(updates.drop_last());
        last_changes_stay(updates.drop_last(), key);
        assert(changes_of(updates).drop_last() =~= changes_of(updates.drop_last()));
        match updates.last().change {
            SecretChange::Kept(changed, value) => {
                placed_found(before.secrets, changed, value, key);
            },
            SecretChange::Forgotten(changed) => {
                dropped_gone(before.secrets, changed, key);
            },
        }
    }
}

/// A load of what updates stored comes to the secrets that they left.
proof fn stored_secrets_are_loaded(
    dir: Seq<char>,
    path: Seq<char>,
    account: Seq<char>,
    key: Seq<char>,
    updates: Seq<SecretUpdate>,
    loads: Seq<LoadModel>,
    read: Seq<LoadEvent>,
)
    requires
        updated(dir, path, account, key, updates),
        loads_stored(path, account, key, stored_after(updates), loads, read),
    ensures
        loads.last().doing == LoadWork::Finish,
        loads.last().failure is None,
        loads.last().file == Some(secrets_after(updates)),
    decreases updates.len(),
{
    last_changes_stay(updates, Seq::empty());
    if updates.len() == 0 {
        assert(load_goes_on(path, account, loads[0], read[0], loads[1]));
    } else {
        let update = updates.last();
        stored_secrets_are_loaded(
            dir,
            path,
            account,
            key,
            updates.drop_last(),
            update.loads,
            update.read,
        );
        loads_give_back_what_was_saved(
            dir,
            account,
            secrets_after(updates),
            update.saves,
            update.written,
            path,
            loads,
            read,
        );
    }
}

/// What was set is read back. However many updates were made to a namespace, one after the other and
/// by whomever, a load of what they stored finds under the key of a secret what the last change to
/// that secret said: the value that was set, or nothing where it was deleted or never set. Changes to
/// other secrets do not matter.
pub proof fn secrets_are_read_back(
    dir: Seq<char>,
    path: Seq<char>,
    account: Seq<char>,
    key: Seq<char>,
    updates: Seq<SecretUpdate>,
    loads: Seq<LoadModel>,
    read: Seq<LoadEvent>,
    scope: SecretScopeModel,
    name: Seq<char>,
)
    requires
        updated(dir, path, account, key, updates),
        loads_stored(path, account, key, stored_after(updates), loads, read),
    ensures
        loads.last().doing == LoadWork::Finish,
        loads.last().failure is None,
        loads.last().file matches Some(file) && lookup(
            file.secrets,
            canonical_key_of(scope, name),
        ) == last_said(None, changes_of(updates), canonical_key_of(scope, name)),
{
    stored_secrets_are_loaded(dir, path, account, key, updates, loads, read);
    last_changes_stay(updates, canonical_key_of(scope, name));
}

} // verus!
