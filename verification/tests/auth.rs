use work_ledger::auth::accounts::normalize_label;
use work_ledger::auth::accounts::NamedAccountError;
use work_ledger::auth::accounts::NamedAccountMetadata;
use work_ledger::auth::accounts::SwitchError;
use work_ledger::auth::accounts::SwitchPolicy;
use work_ledger::auth::backend::backend;
use work_ledger::auth::backend::locks_on_disk;
use work_ledger::auth::backend::Backend;
use work_ledger::auth::backend::BankDelete;
use work_ledger::auth::backend::BankLoad;
use work_ledger::auth::backend::BankSave;
use work_ledger::auth::backend::ClearEnd;
use work_ledger::auth::backend::KeyringKind;
use work_ledger::auth::backend::Place;
use work_ledger::auth::backend::PlaceRead;
use work_ledger::auth::backend::SaveWork;
use work_ledger::auth::backend::StepEnd;
use work_ledger::auth::backend::StorageFailure;
use work_ledger::auth::backend::StoreMode;
use work_ledger::auth::bank::account_lock_path;
use work_ledger::auth::bank::bank_base;
use work_ledger::auth::bank::bank_temporary;
use work_ledger::auth::bank::change_notice;
use work_ledger::auth::bank::compute_store_key;
use work_ledger::auth::bank::decode_stored_bank;
use work_ledger::auth::bank::stored_format;
use work_ledger::auth::bank::BankError;
use work_ledger::auth::bank::BankWrite;
use work_ledger::auth::bank::LoadedBank;
use work_ledger::auth::bank::ParsedText;
use work_ledger::auth::bank::StoredAuthAccount;
use work_ledger::auth::bank::StoredAuthBank;
use work_ledger::auth::bank::StoredFormat;
use work_ledger::auth::bank::LEGACY_ACCOUNT_ID;
use work_ledger::auth::change::same_owner;
use work_ledger::auth::change::AuthChangeState;
use work_ledger::auth::change::CodexAuth;
use work_ledger::auth::credentials::account_id_from_auth;
use work_ledger::auth::credentials::bedrock_credentials;
use work_ledger::auth::credentials::email_from_auth;
use work_ledger::auth::credentials::plan_type_from_auth;
use work_ledger::auth::credentials::AgentIdentityAuthRecord;
use work_ledger::auth::credentials::AgentIdentityStorage;
use work_ledger::auth::credentials::AuthDotJson;
use work_ledger::auth::credentials::AuthMode;
use work_ledger::auth::credentials::TokenData;
use work_ledger::auth::update::AccountRemoval;
use work_ledger::auth::update::BankUpdate;
use work_ledger::auth::update::RemovalEvent;
use work_ledger::auth::update::RemovalWork;
use work_ledger::auth::update::UpdateEvent;
use work_ledger::auth::update::UpdateWork;
use work_ledger::codec::digest_hex;
use work_ledger::codec::hex;
use work_ledger::codec::padded_hex;
use work_ledger::history::AccountScope;

fn blank(mode: AuthMode, uses_codex_backend: bool) -> AuthDotJson {
    AuthDotJson {
        auth_mode: Some(mode),
        mode,
        uses_codex_backend,
        openai_api_key: None,
        tokens: None,
        last_refresh: None,
        agent_identity: None,
        personal_access_token: None,
        bedrock_api_key: None,
        bedrock_access_keys: None,
    }
}

fn credentials(key: &str) -> AuthDotJson {
    AuthDotJson {
        openai_api_key: Some(key.to_string()),
        ..blank(AuthMode::ApiKey, false)
    }
}

fn signed_in(access_token: &str, account_id: Option<&str>) -> AuthDotJson {
    AuthDotJson {
        tokens: Some(TokenData {
            access_token: access_token.to_string(),
            refresh_token: "refresh".to_string(),
            account_id: account_id.map(str::to_string),
            id_token: "jwt".to_string(),
            chatgpt_account_id: Some("claimed".to_string()),
            email: Some("user@example.com".to_string()),
            chatgpt_plan_type: Some("Pro".to_string()),
        }),
        ..blank(AuthMode::Chatgpt, true)
    }
}

fn record() -> AgentIdentityAuthRecord {
    AgentIdentityAuthRecord {
        agent_runtime_id: "runtime".to_string(),
        agent_private_key: "key".to_string(),
        account_id: "agent-account".to_string(),
        chatgpt_user_id: "agent-user".to_string(),
        email: None,
        plan_type: "Team".to_string(),
        chatgpt_account_is_fedramp: false,
        task_id: None,
    }
}

fn fresh(bank: &StoredAuthBank) -> String {
    loop {
        if let Some(id) = bank.new_account_id() {
            return id;
        }
    }
}

fn add(bank: &mut StoredAuthBank, label: &str, key: &str) -> NamedAccountMetadata {
    let id = fresh(bank);
    bank.save_named(label, &credentials(key), &id).unwrap()
}

fn any() -> SwitchPolicy {
    SwitchPolicy { chatgpt_allowed: true, api_allowed: true, workspaces: None }
}

fn load(bank: &StoredAuthBank) -> Option<AuthDotJson> {
    bank.selected().map(|selected| selected.auth)
}

#[test]
fn rename_preserves_identity_and_switch_selects_its_credentials() {
    let mut bank = StoredAuthBank::empty();
    let default = add(&mut bank, "default", "default-secret");
    let kate = add(&mut bank, "kate", "kate-secret");
    add(&mut bank, "backup", "backup-secret");

    let renamed = bank.rename(&kate.id, "travel").unwrap();
    assert_eq!(renamed.id, kate.id);
    assert_eq!(renamed.label, "travel");
    bank.switch("travel", &any()).unwrap();
    assert!(load(&bank) == Some(credentials("kate-secret")));
    assert_eq!(
        bank.list()
            .iter()
            .map(|account| (account.label.as_str(), account.is_active))
            .collect::<Vec<_>>(),
        vec![("backup", false), ("default", false), ("travel", true)]
    );
    bank.switch(&default.id, &any()).unwrap();
    assert!(load(&bank) == Some(credentials("default-secret")));
}

#[test]
fn rejected_add_and_rename_preserve_the_bank() {
    let mut bank = StoredAuthBank::empty();
    let default = add(&mut bank, "default", "default-secret");
    add(&mut bank, "kate", "kate-secret");
    let before = bank.copy();
    for label in ["kate", "   "] {
        let id = fresh(&bank);
        assert!(bank
            .save_named(label, &credentials("uncommitted-secret"), &id)
            .is_err());
        assert!(bank.rename(&default.id, label).is_err());
        assert!(bank == before);
    }
}

#[test]
fn logout_preserves_other_accounts_without_selecting_one() {
    let mut bank = StoredAuthBank::empty();
    let default = add(&mut bank, "default", "default-secret");
    add(&mut bank, "kate", "kate-secret");
    assert!(bank.delete());
    assert!(load(&bank).is_none());
    let accounts = bank.list();
    assert_eq!(accounts.len(), 1);
    assert_eq!(accounts[0].id, default.id);
    assert!(!accounts[0].is_active);
    bank.switch(&default.id, &any()).unwrap();
    assert!(load(&bank) == Some(credentials("default-secret")));
}

#[test]
fn removing_last_active_account_leaves_no_credentials() {
    let mut bank = StoredAuthBank::empty();
    let account = add(&mut bank, "only", "only-secret");
    assert!(bank.remove_account(&account.id));
    assert_eq!(bank.list(), Vec::new());
    assert!(load(&bank).is_none());
    assert_eq!(bank.write_back(), BankWrite::Delete);
}

#[test]
fn account_list_contains_metadata_without_secrets() {
    let mut bank = StoredAuthBank::empty();
    let account = add(&mut bank, "kate", "credential-must-not-be-listed");
    assert_eq!(
        bank.list(),
        vec![NamedAccountMetadata {
            id: account.id,
            label: "kate".to_string(),
            is_active: true,
            account_id: None,
            email: None,
            auth_mode: AuthMode::ApiKey,
            plan_type: None,
        }]
    );
}

#[test]
fn ambiguous_selector_does_not_switch_or_rename_an_account() {
    let mut bank = StoredAuthBank::empty();
    let first = add(&mut bank, "first", "first-secret");
    add(&mut bank, &first.id, "second-secret");
    let before = bank.copy();
    assert!(bank.switch(&first.id, &any()).is_err());
    assert!(bank.rename(&first.id, "renamed").is_err());
    assert!(bank == before);
}

#[test]
fn rejected_switch_preserves_selection() {
    let mut bank = StoredAuthBank::empty();
    add(&mut bank, "first", "first-secret");
    add(&mut bank, "second", "second-secret");
    let before = bank.copy();
    let policy = SwitchPolicy { chatgpt_allowed: true, api_allowed: false, workspaces: None };
    assert_eq!(
        bank.switch("first", &policy),
        Err(SwitchError::NotPermitted)
    );
    assert!(bank == before);
}

#[test]
fn labels_are_trimmed_and_errors_say_what_is_wrong() {
    assert_eq!(normalize_label("  work "), Ok("work".to_string()));
    assert_eq!(normalize_label(" \t"), Err(NamedAccountError::EmptyLabel));
    assert_eq!(
        NamedAccountError::EmptyLabel.message(),
        "account label must not be empty"
    );
    let mut bank = StoredAuthBank::empty();
    let first = add(&mut bank, " first ", "first-secret");
    assert_eq!(first.label, "first");
    let id = fresh(&bank);
    let error = bank.save_named("first", &credentials("x"), &id).unwrap_err();
    assert_eq!(error.message(), "account label already exists: first");
    let error = bank.resolve_account_id("nobody").unwrap_err();
    assert_eq!(error.message(), "named account not found: nobody");
    add(&mut bank, &first.id, "second-secret");
    let error = bank.resolve_account_id(&first.id).unwrap_err();
    assert_eq!(error, NamedAccountError::AmbiguousSelector(first.id.clone()));
    assert!(error.message().contains("matches both an ID and another account's label"));
}

#[test]
fn a_selector_is_an_identity_or_a_label() {
    let mut bank = StoredAuthBank::empty();
    let first = add(&mut bank, "first", "first-secret");
    assert_eq!(bank.resolve_account_id("first"), Ok(first.id.clone()));
    assert_eq!(bank.resolve_account_id(&first.id), Ok(first.id.clone()));
    bank.rename("first", &first.id).unwrap();
    assert_eq!(bank.resolve_account_id(&first.id), Ok(first.id));
}

#[test]
fn a_switch_stays_inside_the_allowed_workspaces() {
    let mut bank = StoredAuthBank::empty();
    let inside = fresh(&bank);
    bank.save_named("inside", &signed_in("one", Some("workspace")), &inside).unwrap();
    let outside = fresh(&bank);
    bank.save_named("outside", &signed_in("two", Some("elsewhere")), &outside).unwrap();
    add(&mut bank, "key", "key-secret");
    let policy = SwitchPolicy {
        chatgpt_allowed: true,
        api_allowed: true,
        workspaces: Some(vec!["workspace".to_string()]),
    };
    let error = bank.switch("outside", &policy).unwrap_err();
    assert_eq!(error, SwitchError::OutsideWorkspace);
    assert_eq!(
        error.message(),
        "named account is outside the configured workspace restriction"
    );
    assert!(bank.switch("key", &policy).is_ok());
    assert!(bank.switch("inside", &policy).unwrap().is_active);
    assert_eq!(
        bank.switch("missing", &policy).unwrap_err().message(),
        "named account not found: missing"
    );
    assert_eq!(
        SwitchError::NotPermitted.message(),
        "authentication requirements do not permit this named account"
    );
}

#[test]
fn a_login_replaces_the_selected_credentials_or_adds_an_account() {
    let mut bank = StoredAuthBank::empty();
    bank.save(&credentials("one"), "a");
    assert_eq!(bank.list()[0].label, "default");
    bank.save(&credentials("two"), "b");
    assert_eq!(bank.list().len(), 1);
    assert!(load(&bank) == Some(credentials("two")));
    bank.selected_account_id = None;
    bank.save(&credentials("three"), "c");
    let labels: Vec<String> = bank.list().into_iter().map(|account| account.label).collect();
    assert_eq!(labels, ["default", "default-2"]);
    assert_eq!(bank.unique_default_label(), "default-3");
    assert_eq!(bank.write_back(), BankWrite::Save);
    assert!(bank.check().is_ok());
}

#[test]
fn credentials_without_a_bank_become_one_account() {
    let bank = StoredAuthBank::from_legacy(credentials("old"));
    assert!(bank.check().is_ok());
    assert_eq!(bank.selected_account_id.as_deref(), Some(LEGACY_ACCOUNT_ID));
    assert!(load(&bank) == Some(credentials("old")));
    assert_eq!(stored_format(r#"{"OPENAI_API_KEY": "k"}"#), Ok(StoredFormat::Legacy));
    for text in [r#"{"version": 1}"#, r#"{"accounts": {}}"#, r#"{"selected_account_id": null}"#] {
        assert_eq!(stored_format(text), Ok(StoredFormat::Bank));
    }
    assert!(stored_format("{").is_err());
}

#[test]
fn a_damaged_bank_is_not_used() {
    let mut bank = StoredAuthBank::empty();
    bank.version = 2;
    let error = bank.check().unwrap_err();
    assert_eq!(error, BankError::UnsupportedVersion(2));
    assert_eq!(error.message(), "unsupported authentication bank version: 2");
    bank.version = 1;
    bank.selected_account_id = Some("gone".to_string());
    let error = bank.check().unwrap_err();
    assert_eq!(error, BankError::SelectedMissing);
    assert_eq!(error.message(), "selected authentication account does not exist");
    bank.selected_account_id = None;
    for (first, second) in [("a", "a"), ("a", " b"), ("a", "")] {
        let mut damaged = bank.copy();
        for (id, label) in [("1", first), ("2", second)] {
            damaged.accounts.insert(
                id.to_string(),
                StoredAuthAccount { label: label.to_string(), auth: credentials(id) },
            );
        }
        assert_eq!(damaged.check(), Err(BankError::InvalidEntry));
    }
    assert!(BankError::InvalidEntry.message().contains("non-normalized label"));
}

#[test]
fn credentials_are_replaced_only_while_they_are_as_expected() {
    let mut bank = StoredAuthBank::empty();
    let account = add(&mut bank, "work", "one");
    let other = add(&mut bank, "other", "kept");
    assert_eq!(
        bank.replace_if_unchanged_for_account(
            &account.id,
            &credentials("stale"),
            &credentials("two")
        ),
        Err("Authentication changed during an account update; retry with the current account."
            .to_string())
    );
    assert!(bank
        .replace_if_unchanged_for_account(&account.id, &credentials("one"), &credentials("two"))
        .is_ok());
    assert!(bank.snapshot(&account.id).unwrap().auth == credentials("two"));
    assert!(bank.snapshot(&other.id).unwrap().auth == credentials("kept"));
    assert_eq!(
        bank.replace_if_unchanged_for_account("gone", &credentials("one"), &credentials("two")),
        Err("Authentication account was removed during an update.".to_string())
    );
}

#[test]
fn refreshed_tokens_keep_a_newer_agent_identity() {
    let mut bank = StoredAuthBank::empty();
    let id = fresh(&bank);
    let mut stored = signed_in("old", None);
    stored.agent_identity = Some(AgentIdentityStorage::Record(record()));
    bank.save_named("work", &stored, &id).unwrap();
    let refreshed = bank
        .refresh_tokens_for_account(&id, &signed_in("old", None), &signed_in("new", None))
        .ok()
        .unwrap();
    assert!(refreshed.agent_identity == Some(AgentIdentityStorage::Record(record())));
    assert_eq!(refreshed.tokens.as_ref().unwrap().access_token, "new");
    assert!(bank.snapshot(&id).unwrap().auth == refreshed);
    let failure = |r: Result<AuthDotJson, String>| r.err().unwrap();
    assert_eq!(
        failure(bank.refresh_tokens_for_account(
            &id,
            &signed_in("old", None),
            &signed_in("newer", None)
        )),
        "Authentication changed during token refresh; retry with the current account."
    );
    assert_eq!(
        failure(bank.refresh_tokens_for_account(
            "gone",
            &signed_in("old", None),
            &signed_in("newer", None)
        )),
        "Authentication was removed during token refresh."
    );
}

#[test]
fn only_a_login_replaces_unreadable_credentials() {
    let invalid = || LoadedBank::InvalidLegacy("bad".to_string());
    let failed = || LoadedBank::Failed("locked".to_string());
    for login in [true, false] {
        assert!(bank_base(login, LoadedBank::Missing).ok().unwrap() == StoredAuthBank::empty());
        assert_eq!(bank_base(login, failed()).err().unwrap(), "locked");
    }
    assert!(bank_base(true, invalid()).ok().unwrap() == StoredAuthBank::empty());
    assert_eq!(bank_base(false, invalid()).err().unwrap(), "bad");
    let bank = StoredAuthBank::from_legacy(credentials("old"));
    assert!(bank_base(false, LoadedBank::Bank(bank.copy())).ok().unwrap() == bank);
}

#[test]
fn a_stored_text_is_tested_before_it_is_used() {
    let legacy = decode_stored_bank(ParsedText::Legacy(credentials("old")));
    assert!(legacy == LoadedBank::Bank(StoredAuthBank::from_legacy(credentials("old"))));
    let mut bank = StoredAuthBank::empty();
    assert!(decode_stored_bank(ParsedText::Bank(bank.copy())) == LoadedBank::Bank(bank.copy()));
    bank.selected_account_id = Some("gone".to_string());
    assert!(
        decode_stored_bank(ParsedText::Bank(bank))
            == LoadedBank::Failed("selected authentication account does not exist".to_string())
    );
    assert!(
        decode_stored_bank(ParsedText::InvalidLegacy("no object".to_string()))
            == LoadedBank::InvalidLegacy("invalid legacy authentication: no object".to_string())
    );
    assert!(
        decode_stored_bank(ParsedText::Invalid("no JSON".to_string()))
            == LoadedBank::Failed("no JSON".to_string())
    );
}

#[test]
fn a_load_falls_back_to_the_file() {
    let bank = || StoredAuthBank::from_legacy(credentials("old"));
    let auto = Backend::Auto(KeyringKind::Direct);
    let failed = || PlaceRead::Failed("denied".to_string());
    assert!(BankLoad::start(auto) == BankLoad::Read(Place::Keyring));
    for read in [failed(), PlaceRead::Missing] {
        assert!(BankLoad::start(auto).next(auto, read) == BankLoad::Read(Place::File));
    }
    let found = BankLoad::start(auto).next(auto, PlaceRead::Text(LoadedBank::Bank(bank())));
    assert!(found == BankLoad::Loaded(LoadedBank::Bank(bank())));
    let file = BankLoad::start(auto).next(auto, failed()).next(auto, PlaceRead::Missing);
    assert!(file == BankLoad::Loaded(LoadedBank::Missing));
    let keyring = Backend::Keyring(KeyringKind::Direct);
    assert!(
        BankLoad::start(keyring).next(keyring, failed())
            == BankLoad::Loaded(LoadedBank::Failed(
                "failed to load CLI auth from keyring: denied".to_string()
            ))
    );
    let encrypted = Backend::Keyring(KeyringKind::Secrets);
    assert!(
        BankLoad::start(encrypted).next(encrypted, failed())
            == BankLoad::Loaded(LoadedBank::Failed(
                "failed to load CLI auth from encrypted auth storage: denied".to_string()
            ))
    );
    let invalid = PlaceRead::Text(LoadedBank::InvalidLegacy("bad".to_string()));
    assert!(
        BankLoad::start(encrypted).next(encrypted, invalid)
            == BankLoad::Loaded(LoadedBank::Failed(
                "failed to deserialize CLI auth from encrypted auth storage: bad".to_string()
            ))
    );
}

#[test]
fn a_save_in_the_keyring_takes_the_file_away() {
    let keyring = Backend::Keyring(KeyringKind::Secrets);
    let failed = || StepEnd::Failed("denied".to_string());
    let stored = BankSave::start(keyring).next(keyring, StepEnd::Done);
    assert_eq!(stored.doing, SaveWork::DropFile);
    let ended = stored.next(keyring, failed());
    assert_eq!((ended.doing, ended.failure), (SaveWork::Finish, None));
    assert_eq!(
        BankSave::start(keyring).next(keyring, failed()).failure.as_deref(),
        Some("failed to write OAuth tokens to encrypted auth storage: denied")
    );
    let auto = Backend::Auto(KeyringKind::Direct);
    let fallback = BankSave::start(auto).next(auto, failed());
    assert_eq!(fallback.doing, SaveWork::Put(Place::File));
    assert_eq!(fallback.next(auto, failed()).failure.as_deref(), Some("denied"));
    let file = BankSave::start(Backend::File).next(Backend::File, StepEnd::Done);
    assert_eq!((file.doing, file.failure), (SaveWork::Finish, None));
}

#[test]
fn a_deletion_clears_every_place() {
    let clear = |backend: Backend| {
        let mut delete = BankDelete::start();
        let mut places = Vec::new();
        while let Some(place) = delete.clearing(backend) {
            places.push(place);
            delete = delete.next(backend, ClearEnd::Cleared(place == Place::Keyring));
        }
        (places, delete.removed)
    };
    assert_eq!(clear(Backend::File), (vec![Place::File], false));
    assert_eq!(clear(Backend::Ephemeral), (vec![Place::Memory], false));
    assert_eq!(
        clear(Backend::Auto(KeyringKind::Direct)),
        (vec![Place::Keyring, Place::File], true)
    );
    let encrypted = Backend::Keyring(KeyringKind::Secrets);
    assert_eq!(
        clear(encrypted),
        (vec![Place::Encrypted, Place::File, Place::Keyring, Place::File], true)
    );
    let refused = BankDelete::start().next(encrypted, ClearEnd::Failed("denied".to_string()));
    assert_eq!(
        refused.failure.as_deref(),
        Some("failed to delete auth from encrypted auth storage: denied")
    );
    assert_eq!(refused.clearing(encrypted), None);
}

#[test]
fn a_change_is_announced_once_it_is_stored() {
    let mut bank = StoredAuthBank::empty();
    add(&mut bank, "work", "one");
    let stored = BankUpdate::start(false)
        .next(UpdateEvent::Loaded(LoadedBank::Bank(bank.copy())))
        .next(UpdateEvent::Changed(bank.copy()));
    assert!(stored.doing == UpdateWork::Save);
    let announced = stored.next(UpdateEvent::Done);
    assert!(announced.doing == UpdateWork::Announce);
    let ended = announced.next(UpdateEvent::Failed("no marker".to_string()));
    assert!(ended.doing == UpdateWork::Finish && ended.failure.is_none());
    let emptied = BankUpdate::start(false)
        .next(UpdateEvent::Loaded(LoadedBank::Bank(bank.copy())))
        .next(UpdateEvent::Changed(StoredAuthBank::empty()));
    assert!(emptied.doing == UpdateWork::Delete);
    let refused = BankUpdate::start(false)
        .next(UpdateEvent::Loaded(LoadedBank::Bank(bank)))
        .next(UpdateEvent::Failed("no such account".to_string()));
    assert!(refused.doing == UpdateWork::Finish);
    assert_eq!(refused.failure.as_deref(), Some("no such account"));
    let invalid = || LoadedBank::InvalidLegacy("bad".to_string());
    assert!(
        BankUpdate::start(true).next(UpdateEvent::Loaded(invalid())).doing == UpdateWork::Change
    );
    assert!(
        BankUpdate::start(false).next(UpdateEvent::Loaded(invalid())).doing == UpdateWork::Finish
    );
}

#[test]
fn a_removed_account_is_revoked() {
    let mut bank = StoredAuthBank::empty();
    let account = add(&mut bank, "work", "one");
    let locked = AccountRemoval::start()
        .next("work", RemovalEvent::Bank(bank.copy()))
        .next("work", RemovalEvent::Done);
    assert!(locked.doing == RemovalWork::Load);
    assert_eq!(locked.account_id.as_deref(), Some(account.id.as_str()));
    let found = locked.next("work", RemovalEvent::Bank(bank.copy()));
    assert!(found.doing == RemovalWork::Remove && found.auth == Some(credentials("one")));
    let removed = found.next("work", RemovalEvent::Removed(true));
    assert!(removed.doing == RemovalWork::Revoke);
    let ended = removed.next("work", RemovalEvent::Failed("offline".to_string()));
    assert!(ended.doing == RemovalWork::Finish && ended.removed && ended.failure.is_none());
    let gone = AccountRemoval::start()
        .next("work", RemovalEvent::Bank(bank))
        .next("work", RemovalEvent::Done)
        .next("work", RemovalEvent::Bank(StoredAuthBank::empty()));
    assert!(gone.doing == RemovalWork::Finish && !gone.removed && gone.failure.is_none());
    let unknown =
        AccountRemoval::start().next("work", RemovalEvent::Bank(StoredAuthBank::empty()));
    assert_eq!(unknown.failure.as_deref(), Some("named account not found: work"));
}

#[test]
fn the_storage_follows_the_mode() {
    assert_eq!(backend(StoreMode::File, KeyringKind::Direct), Backend::File);
    assert_eq!(
        backend(StoreMode::Keyring, KeyringKind::Secrets),
        Backend::Keyring(KeyringKind::Secrets)
    );
    assert_eq!(
        backend(StoreMode::Auto, KeyringKind::Direct),
        Backend::Auto(KeyringKind::Direct)
    );
    assert_eq!(backend(StoreMode::Ephemeral, KeyringKind::Direct), Backend::Ephemeral);
    assert!(locks_on_disk(StoreMode::Keyring));
    assert!(!locks_on_disk(StoreMode::Ephemeral));
    assert_eq!(
        StorageFailure::KeyringLoad.message("denied"),
        "failed to load CLI auth from keyring: denied"
    );
    assert_eq!(
        StorageFailure::EncryptedDelete.message("denied"),
        "failed to delete auth from encrypted auth storage: denied"
    );
}

#[test]
fn what_is_told_of_an_account_depends_on_its_mode() {
    let auth = signed_in("token", Some("workspace"));
    assert_eq!(account_id_from_auth(&auth).as_deref(), Some("workspace"));
    assert_eq!(email_from_auth(&auth).as_deref(), Some("user@example.com"));
    assert_eq!(plan_type_from_auth(&auth).as_deref(), Some("Pro"));
    for missing in [None, Some("")] {
        let auth = signed_in("token", missing);
        assert_eq!(account_id_from_auth(&auth).as_deref(), Some("claimed"));
    }
    let mut agent = blank(AuthMode::AgentIdentity, true);
    assert_eq!(account_id_from_auth(&agent), None);
    agent.agent_identity = Some(AgentIdentityStorage::Record(record()));
    assert_eq!(account_id_from_auth(&agent).as_deref(), Some("agent-account"));
    assert_eq!(email_from_auth(&agent), None);
    assert_eq!(plan_type_from_auth(&agent).as_deref(), Some("Team"));
    assert_eq!(account_id_from_auth(&credentials("key")), None);
}

#[test]
fn an_agent_identity_needs_something_to_authenticate_with() {
    assert!(AgentIdentityStorage::Record(record()).has_auth_material());
    let mut keyless = record();
    keyless.agent_private_key = " ".to_string();
    assert!(!AgentIdentityStorage::Record(keyless).has_auth_material());
    let token = |jwt: &str| AgentIdentityStorage::Jwt { jwt: jwt.to_string(), decoded: None };
    assert!(token("jwt").has_auth_material());
    assert!(!token("  ").has_auth_material());
    assert!(token("jwt").as_record().is_none());
    assert_eq!(
        AgentIdentityStorage::Record(record()).as_record(),
        Some(&record())
    );
}

#[test]
fn digests_are_written_in_hexadecimal() {
    let abc = "ba7816bf8f01cfea414140de5dae2223b00361a396177a9cb410ff61f20015ad";
    assert_eq!(digest_hex("abc"), abc);
    assert_eq!(compute_store_key("abc"), "cli|ba7816bf8f01cfea");
    assert_eq!(
        account_lock_path("/home", "abc"),
        format!("/home/.auth-account-lock-{abc}")
    );
    assert_eq!(hex(&vec![0x00, 0x0f, 0xa0, 0xff]), "000fa0ff");
    assert_eq!(padded_hex(0xbeef, 6), "00beef");
    let auth = bedrock_credentials("abc", "eu-west-1", false);
    let key = auth.bedrock_api_key.as_ref().unwrap();
    assert_eq!(key.api_key(), "abc");
    assert_eq!(key.account_scope.account_id, format!("bedrock-api-key:{abc}"));
}

#[test]
fn random_names_have_their_form() {
    let bank = StoredAuthBank::empty();
    let id = fresh(&bank);
    assert_eq!(id.len(), 32);
    assert!(id.chars().all(|c| c.is_ascii_hexdigit() && !c.is_ascii_uppercase()));
    assert_ne!(fresh(&bank), id);
    assert_eq!(bank.id_from_draw(0xab).unwrap(), format!("{}ab", "0".repeat(30)));
    let mut taken = StoredAuthBank::empty();
    taken.save(&credentials("one"), &format!("{}ab", "0".repeat(30)));
    assert_eq!(taken.id_from_draw(0xab), None);
    assert!(StoredAuthBank::empty().new_account_id().is_some());
    let name = bank_temporary();
    assert!(name.starts_with(".auth-") && name.ends_with(".tmp") && name.len() == 26);
    assert_ne!(bank_temporary(), name);
    let (file, notice) = change_notice();
    assert!(file.starts_with(".auth-change-") && file.ends_with(".tmp"));
    assert!(notice.ends_with('\n') && notice.len() == 17);
}

fn in_use(scope: Option<AccountScope>, user: Option<&str>, workspace: Option<&str>) -> CodexAuth {
    CodexAuth {
        kind: AuthMode::Chatgpt,
        api_auth_mode: AuthMode::Chatgpt,
        account_scope: scope,
        chatgpt_user_id: user.map(str::to_string),
        account_id: workspace.map(str::to_string),
        material: Some(format!("{user:?}")),
    }
}

#[test]
fn request_state_is_reused_only_for_the_same_account() {
    let scope = |id: &str| AccountScope {
        local_account_id: Some(id.to_string()),
        account_id: "workspace".to_string(),
        user_id: None,
    };
    let a = in_use(Some(scope("a")), Some("user"), Some("workspace"));
    let b = in_use(Some(scope("b")), Some("user"), Some("workspace"));
    let unscoped = in_use(None, Some("user"), Some("workspace"));
    assert!(a.same_account_as(&a));
    assert!(!a.same_account_as(&b));
    assert!(!a.same_account_as(&unscoped));
    assert!(!unscoped.same_account_as(&a));
    let refreshed = CodexAuth {
        material: Some("other token".to_string()),
        ..in_use(None, Some("user"), Some("workspace"))
    };
    assert!(unscoped.same_account_as(&refreshed));
    assert!(same_owner(Some(&unscoped), Some(&refreshed)));
    assert!(!same_owner(Some(&unscoped), None));
    assert!(!same_owner(None, None));
    let blank_user = in_use(None, Some(" "), Some("workspace"));
    assert!(!same_owner(Some(&blank_user), Some(&blank_user)));
    assert!(blank_user.same_account_as(&blank_user));
    assert!(!blank_user.same_account_as(&in_use(None, None, Some("workspace"))));
    assert_eq!(
        AuthChangeState::default(),
        AuthChangeState { generation: 0, owner_generation: 0 }
    );
}
