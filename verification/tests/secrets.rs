use age::secrecy::ExposeSecret;
use base64::Engine;
use bech32::FromBase32;
use work_ledger::atomic::ledger_temporary;
use work_ledger::atomic::temporary_beside;
use work_ledger::atomic::ReplaceEvent;
use work_ledger::atomic::ReplaceWork;
use work_ledger::atomic::Replacement;
use work_ledger::sealing::generate_key;
use work_ledger::sealing::identity_from_key;
use work_ledger::sealing::key_text;
use work_ledger::sealing::load_with_key;
use work_ledger::sealing::open;
use work_ledger::sealing::seal;
use work_ledger::sealing::wipe_bytes;
use work_ledger::sealing::SealPurpose;
use work_ledger::secrets::canonical_key;
use work_ledger::secrets::key_form;
use work_ledger::secrets::parse_canonical_key;
use work_ledger::secrets::secrets_dir;
use work_ledger::secrets::secrets_path;
use work_ledger::secrets::settle_version;
use work_ledger::secrets::LocalSecretsNamespace;
use work_ledger::secrets::SecretListEntry;
use work_ledger::secrets::SecretScope;
use work_ledger::secrets::SecretsFile;
use work_ledger::secrets::SECRETS_VERSION;
use work_ledger::secrets_document::read_secrets;
use work_ledger::secrets_document::write_secrets;
use work_ledger::vault::LoadEvent;
use work_ledger::vault::LoadWork;
use work_ledger::vault::SaveEvent;
use work_ledger::vault::SaveWork;
use work_ledger::vault::SecretsLoad;
use work_ledger::vault::SecretsSave;

const HOME: &str = "/home";
const ACCOUNT: &str = "secrets|account";

/// A home directory and a keyring, held in memory.
#[derive(Default)]
struct Store {
    key: Option<String>,
    keyring_fails: bool,
    files: Vec<(String, Vec<u8>)>,
}

impl Store {
    fn bytes(&self, namespace: LocalSecretsNamespace) -> Option<Vec<u8>> {
        let path = secrets_path(HOME, namespace);
        self.files.iter().find(|(at, _)| *at == path).map(|(_, bytes)| bytes.clone())
    }

    fn put(&mut self, namespace: LocalSecretsNamespace, bytes: Vec<u8>) {
        let path = secrets_path(HOME, namespace);
        self.files.retain(|(at, _)| *at != path);
        self.files.push((path, bytes));
    }

    fn load(&mut self, namespace: LocalSecretsNamespace) -> Result<SecretsFile, String> {
        let path = secrets_path(HOME, namespace);
        let mut load = SecretsLoad::start();
        while load.doing != LoadWork::Finish {
            let event = match load.doing {
                LoadWork::ReadFile => match self.bytes(namespace) {
                    Some(bytes) => LoadEvent::Bytes(bytes),
                    None => LoadEvent::Missing,
                },
                LoadWork::LoadKey => {
                    if self.keyring_fails {
                        LoadEvent::Failed("error".to_string())
                    } else {
                        LoadEvent::Key(self.key.clone())
                    }
                },
                LoadWork::Write => {
                    self.put(namespace, load.bytes.clone());
                    LoadEvent::Done
                },
                LoadWork::Finish => unreachable!(),
            };
            load = load.next(event, &path, ACCOUNT);
        }
        match load.failure {
            Some(error) => Err(error),
            None => Ok(load.file.unwrap()),
        }
    }

    fn save(&mut self, namespace: LocalSecretsNamespace, file: &SecretsFile) -> Result<(), String> {
        let dir = secrets_dir(HOME);
        let mut save = SecretsSave::start();
        while save.doing != SaveWork::Finish {
            let event = match save.doing {
                SaveWork::LoadKey => {
                    if self.keyring_fails {
                        SaveEvent::Failed("error".to_string())
                    } else {
                        SaveEvent::Key(self.key.clone())
                    }
                },
                SaveWork::ListFiles => SaveEvent::Names(
                    self.files
                        .iter()
                        .map(|(path, _)| path[dir.len() + 1..].to_string())
                        .collect(),
                ),
                SaveWork::StoreKey => {
                    self.key = save.key.clone();
                    SaveEvent::Done
                },
                SaveWork::Write => {
                    self.put(namespace, save.bytes.clone());
                    SaveEvent::Done
                },
                _ => SaveEvent::Done,
            };
            save = save.next(event, &dir, ACCOUNT, file);
        }
        match save.failure {
            Some(error) => Err(error),
            None => Ok(()),
        }
    }

    fn set(
        &mut self,
        namespace: LocalSecretsNamespace,
        name: &str,
        value: &str,
    ) -> Result<(), String> {
        let mut file = self.load(namespace)?;
        file.set(&SecretScope::Global, name, value)?;
        self.save(namespace, &file)
    }

    fn get(
        &mut self,
        namespace: LocalSecretsNamespace,
        scope: &SecretScope,
        name: &str,
    ) -> Result<Option<String>, String> {
        let file = self.load(namespace)?;
        Ok(file.get(scope, name).cloned())
    }

    fn seed_key(&mut self) -> age::x25519::Identity {
        let identity = age::x25519::Identity::generate();
        let (_, encoded, _) = bech32::decode(identity.to_string().expose_secret()).unwrap();
        let bytes = Vec::<u8>::from_base32(&encoded).unwrap();
        self.key = Some(base64::engine::general_purpose::STANDARD.encode(bytes));
        identity
    }
}

fn encrypt_with_passphrase(key: &str, plaintext: &[u8]) -> Vec<u8> {
    let mut recipient =
        age::scrypt::Recipient::new(age::secrecy::SecretString::from(key.to_string()));
    recipient.set_work_factor(1);
    age::encrypt(&recipient, plaintext).unwrap()
}

#[test]
fn load_file_rejects_newer_schema_versions() {
    let mut store = Store::default();
    let namespace = LocalSecretsNamespace::default();
    let mut file = SecretsFile::new_empty();
    file.version = SECRETS_VERSION + 1;
    store.save(namespace, &file).unwrap();
    let error = store.load(namespace).err().unwrap();
    assert!(
        error.contains("newer than supported version"),
        "unexpected error: {error}"
    );
    assert_eq!(error, "secrets file version 2 is newer than supported version 1");
    assert_eq!(settle_version(0), Ok(1));
}

#[test]
fn set_fails_when_keyring_is_unavailable() {
    let mut store = Store { keyring_fails: true, ..Store::default() };
    let error = store
        .set(LocalSecretsNamespace::default(), "TEST_SECRET", "secret-value")
        .unwrap_err();
    assert!(
        error.contains("failed to load secrets key from keyring"),
        "unexpected error: {error}"
    );
}

#[test]
fn local_namespaces_write_separate_files() {
    let mut store = Store::default();
    let auth = LocalSecretsNamespace::CodexAuth;
    let mcp = LocalSecretsNamespace::McpOAuth;
    store.set(auth, "TEST_SECRET", "codex-auth-value").unwrap();
    store.set(mcp, "TEST_SECRET", "mcp-value").unwrap();
    assert_eq!(
        store.get(auth, &SecretScope::Global, "TEST_SECRET"),
        Ok(Some("codex-auth-value".to_string()))
    );
    assert_eq!(
        store.get(mcp, &SecretScope::Global, "TEST_SECRET"),
        Ok(Some("mcp-value".to_string()))
    );
    let paths: Vec<&str> = store.files.iter().map(|(path, _)| path.as_str()).collect();
    assert!(paths.contains(&"/home/secrets/codex_auth.age"));
    assert!(paths.contains(&"/home/secrets/mcp_oauth.age"));
    assert!(!paths.contains(&"/home/secrets/local.age"));
}

#[test]
fn files_use_key_based_encryption() {
    let mut store = Store::default();
    let identity = store.seed_key();
    let namespace = LocalSecretsNamespace::default();
    store.set(namespace, "API_TOKEN", "private-token").unwrap();
    let ciphertext = store.bytes(namespace).unwrap();
    let plaintext = age::decrypt(&identity, &ciphertext).unwrap();
    assert_eq!(
        serde_json::from_slice::<serde_json::Value>(&plaintext).unwrap(),
        serde_json::from_str::<serde_json::Value>(
            r#"{"version": 1, "secrets": {"global/API_TOKEN": "private-token"}}"#
        )
        .unwrap()
    );
    assert!(age::decrypt(&age::x25519::Identity::generate(), &ciphertext).is_err());
}

#[test]
fn passphrase_files_upgrade_independently_without_rotating_the_shared_key() {
    let mut store = Store::default();
    let identity = store.seed_key();
    let key = store.key.clone().unwrap();
    let plaintext = br#"{"version":1,"secrets":{"global/ALPHA":"one","env/server/BETA":"two"}}"#;
    let original = encrypt_with_passphrase(&key, plaintext);
    let namespaces = [
        LocalSecretsNamespace::ManagedSecrets,
        LocalSecretsNamespace::CodexAuth,
        LocalSecretsNamespace::McpOAuth,
    ];
    for namespace in namespaces {
        store.put(namespace, original.clone());
    }
    for namespace in namespaces {
        assert_eq!(
            store.get(namespace, &SecretScope::Global, "ALPHA"),
            Ok(Some("one".to_string()))
        );
        let upgraded = store.bytes(namespace).unwrap();
        assert_eq!(age::decrypt(&identity, &upgraded).unwrap(), plaintext);
        assert_eq!(store.key.as_deref(), Some(key.as_str()));
        assert_eq!(
            store.get(namespace, &SecretScope::Environment("server".to_string()), "BETA"),
            Ok(Some("two".to_string()))
        );
        assert_eq!(store.bytes(namespace).unwrap(), upgraded);
    }
}

#[test]
fn independent_backends_observe_updates_and_removals() {
    let mut store = Store::default();
    let namespace = LocalSecretsNamespace::McpOAuth;
    let scope = SecretScope::Global;
    let name = "TEST_SECRET";
    store.set(namespace, name, "one").unwrap();
    for _ in 0..3 {
        assert_eq!(store.get(namespace, &scope, name), Ok(Some("one".to_string())));
    }
    store.set(namespace, name, "two").unwrap();
    assert_eq!(store.get(namespace, &scope, name), Ok(Some("two".to_string())));
    assert_eq!(store.get(LocalSecretsNamespace::CodexAuth, &scope, name), Ok(None));
    let mut file = store.load(namespace).unwrap();
    assert!(file.delete(&scope, name));
    store.save(namespace, &file).unwrap();
    assert_eq!(store.get(namespace, &scope, name), Ok(None));
}

#[test]
fn a_load_comes_to_exactly_what_was_saved() {
    let mut store = Store::default();
    store.seed_key();
    let namespace = LocalSecretsNamespace::ManagedSecrets;
    store.set(namespace, "ALPHA", "one \" 🧭 \n").unwrap();
    let path = secrets_path(HOME, namespace);
    let load = SecretsLoad::start()
        .next(LoadEvent::Bytes(store.bytes(namespace).unwrap()), &path, ACCOUNT)
        .next(LoadEvent::Key(store.key.clone()), &path, ACCOUNT);
    assert_eq!(load.doing, LoadWork::Finish);
    let file = load.file.unwrap();
    assert_eq!(file.version, 1);
    assert_eq!(file.secrets.len(), 1);
    assert_eq!(
        file.get(&SecretScope::Global, "ALPHA").map(String::as_str),
        Some("one \" 🧭 \n")
    );
}

#[test]
fn secrets_are_written_down_and_read_again() {
    let mut file = SecretsFile::new_empty();
    file.set(&SecretScope::Global, "B", "two").unwrap();
    file.set(&SecretScope::Global, "A", "one").unwrap();
    let content = write_secrets(&file).unwrap();
    assert_eq!(
        content,
        br#"{"version":1,"secrets":{"global/A":"one","global/B":"two"}}"#
    );
    let again = read_secrets(&content).unwrap();
    assert_eq!(again.version, 1);
    assert_eq!(again.get(&SecretScope::Global, "A").map(String::as_str), Some("one"));
    for accepted in [
        r#"{"secrets":{},"version":255,"other":[null,{"a":1.5}]}"#,
        r#"[0,{"global/A":"one"}]"#,
        r#"{"version":1,"secrets":{"k":"old","k":"new"}}"#,
    ] {
        assert!(read_secrets(&accepted.as_bytes().to_vec()).is_some(), "{accepted}");
    }
    for refused in [
        "",
        "null",
        "{}",
        "[1]",
        r#"[1,{},{}]"#,
        r#"{"version":1}"#,
        r#"{"secrets":{}}"#,
        r#"{"version":256,"secrets":{}}"#,
        r#"{"version":-1,"secrets":{}}"#,
        r#"{"version":1.0,"secrets":{}}"#,
        r#"{"version":"1","secrets":{}}"#,
        r#"{"version":1,"secrets":[]}"#,
        r#"{"version":1,"secrets":{"k":1}}"#,
        r#"{"version":1,"secrets":{}} x"#,
    ] {
        assert!(read_secrets(&refused.as_bytes().to_vec()).is_none(), "{refused}");
    }
}

#[test]
fn missing_key_never_replaces_credentials_in_another_namespace() {
    let mut store = Store::default();
    let namespace = LocalSecretsNamespace::default();
    store.set(namespace, "TOKEN", "retained").unwrap();
    let original = store.bytes(namespace).unwrap();
    store.key = None;
    assert!(store.get(namespace, &SecretScope::Global, "TOKEN").is_err());
    assert!(store
        .set(LocalSecretsNamespace::CodexAuth, "TOKEN", "replacement")
        .is_err());
    assert_eq!(store.key, None);
    assert_eq!(store.bytes(namespace).unwrap(), original);
}

#[test]
fn failed_upgrade_leaves_the_original_file_untouched() {
    let mut store = Store::default();
    let namespace = LocalSecretsNamespace::default();
    store.seed_key();
    let key = store.key.clone().unwrap();
    let plaintext = br#"{"version":1,"secrets":{"global/TOKEN":"retained"}}"#;
    let original = encrypt_with_passphrase(&key, plaintext);
    store.put(namespace, original.clone());
    store.seed_key();
    assert!(store.get(namespace, &SecretScope::Global, "TOKEN").is_err());
    assert_eq!(store.bytes(namespace).unwrap(), original);
    store.key = Some(key);
    let mut damaged = original;
    *damaged.last_mut().unwrap() ^= 1;
    store.put(namespace, damaged.clone());
    assert!(store.get(namespace, &SecretScope::Global, "TOKEN").is_err());
    assert_eq!(store.bytes(namespace).unwrap(), damaged);
}

#[test]
fn keys_are_read_or_refused() {
    let text = key_text(&vec![7; 32]);
    assert_eq!(text, "BwcHBwcHBwcHBwcHBwcHBwcHBwcHBwcHBwcHBwcHBwc=");
    let identity = identity_from_key(&text).unwrap();
    assert!(identity.starts_with("age-secret-key-1"));
    assert!(identity.parse::<age::x25519::Identity>().is_ok());
    assert_eq!(
        identity_from_key("not base64!"),
        Err("invalid secrets key encoding".to_string())
    );
    assert_eq!(
        identity_from_key("BwcH"),
        Err("invalid secrets key length".to_string())
    );
    let key = generate_key().unwrap();
    assert!(identity_from_key(&key).is_ok());
    assert_ne!(generate_key().unwrap(), key);
    let mut bytes = vec![1, 2, 3];
    wipe_bytes(&mut bytes);
    assert_eq!(bytes, vec![0, 0, 0]);
}

#[test]
fn a_sealed_file_opens_with_its_key_alone() {
    let key = key_text(&vec![7; 32]);
    let other = key_text(&vec![8; 32]);
    let file = seal(&key, &b"content".to_vec(), SealPurpose::Save).unwrap();
    let opened = open(&key, &file).unwrap();
    assert_eq!(opened.content, b"content");
    assert!(!opened.migrate);
    assert_eq!(open(&other, &file), Err("failed to decrypt secrets file".to_string()));
    assert_eq!(
        open(&key, &b"no such file".to_vec()),
        Err("invalid secrets file".to_string())
    );
    let mut damaged = file.clone();
    *damaged.last_mut().unwrap() ^= 1;
    assert_eq!(
        open(&key, &damaged),
        Err("failed to read decrypted secrets file".to_string())
    );
    assert_eq!(
        seal("short", &b"content".to_vec(), SealPurpose::Save),
        Err("invalid secrets key encoding".to_string())
    );
    let old = encrypt_with_passphrase(&key, b"old");
    let opened = open(&key, &old).unwrap();
    assert_eq!(opened.content, b"old");
    assert!(opened.migrate);
    assert_eq!(
        load_with_key(&file, &None),
        Err("secrets file exists but its keyring key is missing".to_string())
    );
}

#[test]
fn every_step_of_a_load_can_fail() {
    let path = "/home/secrets/local.age";
    let failed = || LoadEvent::Failed("denied".to_string());
    let said = |load: SecretsLoad| {
        assert!(load.doing == LoadWork::Finish && load.file.is_none());
        load.failure.unwrap()
    };
    assert_eq!(
        said(SecretsLoad::start().next(failed(), path, ACCOUNT)),
        "failed to read secrets file at /home/secrets/local.age"
    );
    let key = key_text(&vec![7; 32]);
    let file = seal(&key, &b"content".to_vec(), SealPurpose::Save).unwrap();
    let read = || SecretsLoad::start().next(LoadEvent::Bytes(file.clone()), path, ACCOUNT);
    assert_eq!(
        said(read().next(failed(), path, ACCOUNT)),
        "failed to load secrets key from keyring for secrets|account"
    );
    assert_eq!(
        said(read().next(LoadEvent::Key(None), path, ACCOUNT)),
        "secrets file exists but its keyring key is missing"
    );
    assert_eq!(
        said(read().next(LoadEvent::Key(Some(key.clone())), path, ACCOUNT)),
        "failed to deserialize decrypted secrets file at /home/secrets/local.age"
    );
    let old = encrypt_with_passphrase(&key, br#"{"version":0,"secrets":{}}"#);
    let writing = SecretsLoad::start()
        .next(LoadEvent::Bytes(old), path, ACCOUNT)
        .next(LoadEvent::Key(Some(key.clone())), path, ACCOUNT);
    assert!(writing.doing == LoadWork::Write);
    assert_eq!(said(writing.next(failed(), path, ACCOUNT)), "denied");
}

#[test]
fn every_step_of_a_save_can_fail() {
    let dir = "/home/secrets";
    let failed = || SaveEvent::Failed("denied".to_string());
    let said = |save: SecretsSave| save.failure.unwrap();
    let file = SecretsFile::new_empty();
    let next = |save: SecretsSave, event: SaveEvent| save.next(event, dir, ACCOUNT, &file);
    assert_eq!(
        said(next(SecretsSave::start(), failed())),
        "failed to create secrets dir /home/secrets"
    );
    let asking = || next(SecretsSave::start(), SaveEvent::Done);
    assert_eq!(
        said(next(asking(), failed())),
        "failed to load secrets key from keyring for secrets|account"
    );
    assert_eq!(
        said(next(asking(), SaveEvent::Key(Some("!".to_string())))),
        "invalid secrets key encoding"
    );
    let listing = || next(asking(), SaveEvent::Key(None));
    assert_eq!(said(next(listing(), failed())), "denied");
    assert_eq!(
        said(next(listing(), SaveEvent::Names(vec!["mcp_oauth.age".to_string()]))),
        "secrets file exists but its keyring key is missing"
    );
    let names = vec![".lock".to_string(), ".age".to_string(), "notes".to_string()];
    let storing = || next(listing(), SaveEvent::Names(names.clone()));
    assert!(storing().doing == SaveWork::StoreKey);
    assert_eq!(
        said(next(storing(), failed())),
        "failed to persist secrets key in keyring"
    );
    let sealed = || next(storing(), SaveEvent::Done);
    assert!(sealed().doing == SaveWork::Write);
    assert_eq!(said(next(sealed(), failed())), "denied");
    assert!(next(sealed(), SaveEvent::Done).failure.is_none());
}

#[test]
fn secrets_are_kept_under_their_scope() {
    let server = SecretScope::Environment("server".to_string());
    assert_eq!(canonical_key(&SecretScope::Global, "TOKEN"), "global/TOKEN");
    assert_eq!(canonical_key(&server, "TOKEN"), "env/server/TOKEN");
    assert_eq!(
        parse_canonical_key("env/server/TOKEN", true),
        Some(SecretListEntry {
            scope: SecretScope::Environment("server".to_string()),
            name: "TOKEN".to_string(),
        })
    );
    for key in ["global", "global/A/B", "env/A", "env/A/B/C", "other/A", ""] {
        assert_eq!(parse_canonical_key(key, true), None);
        assert_eq!(key_form(key), None);
    }
    let mut file = SecretsFile::new_empty();
    assert_eq!(
        file.set(&server, "TOKEN", ""),
        Err("secret value must not be empty".to_string())
    );
    file.set(&server, "TOKEN", "one").unwrap();
    file.set(&SecretScope::Global, "TOKEN", "two").unwrap();
    file.set(&server, "TOKEN", "three").unwrap();
    assert_eq!(file.get(&server, "TOKEN").map(String::as_str), Some("three"));
    assert_eq!(parse_canonical_key("env/server/TOKEN", false), None);
    assert_eq!(key_form("global/not a name").unwrap().name, "not a name");
    let names: Vec<SecretListEntry> = file.list(None, &vec![true, true]);
    assert_eq!(names.len(), 2);
    assert_eq!(file.list(Some(&SecretScope::Global), &vec![true, true]).len(), 1);
    let accepted = file.list(None, &vec![false, true]);
    assert_eq!(accepted.len(), 1);
    assert_eq!(accepted[0].scope, SecretScope::Global);
    assert_eq!(file.list(None, &Vec::new()), Vec::new());
    assert!(file.delete(&server, "TOKEN"));
    assert!(!file.delete(&server, "TOKEN"));
    assert_eq!(file.get(&server, "TOKEN"), None);
    assert_eq!(file.get(&SecretScope::Global, "TOKEN").map(String::as_str), Some("two"));
}

#[test]
fn a_replacement_is_whole_or_undone() {
    let mut state = Replacement::start();
    let mut steps = vec![state.doing];
    while state.doing != ReplaceWork::Finish {
        state = state.next(ReplaceEvent::Done);
        steps.push(state.doing);
    }
    assert_eq!(
        steps,
        [
            ReplaceWork::Create,
            ReplaceWork::Write,
            ReplaceWork::Sync,
            ReplaceWork::Rename,
            ReplaceWork::SyncDirectory,
            ReplaceWork::Finish,
        ]
    );
    assert_eq!(state.failure, None);
    let refused = Replacement::start().next(ReplaceEvent::Failed("exists".to_string()));
    assert_eq!(refused.doing, ReplaceWork::Finish);
    let broken = Replacement::start()
        .next(ReplaceEvent::Done)
        .next(ReplaceEvent::Failed("disk full".to_string()));
    assert_eq!(broken.doing, ReplaceWork::Remove);
    let ended = broken.next(ReplaceEvent::Failed("gone".to_string()));
    assert_eq!(ended.doing, ReplaceWork::Finish);
    assert_eq!(ended.failure.as_deref(), Some("disk full"));
    assert_eq!(temporary_beside("local.age", 7, 12), ".local.age.tmp-7-12");
    assert_eq!(ledger_temporary(7), "ledger.json.7.tmp");
}
