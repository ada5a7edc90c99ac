//! How accounts are meant, changed, stored and taken away, told by what goes in and what comes out.

use vstd::prelude::*;

use crate::auth::accounts::ErrorModel;
use crate::auth::accounts::MetadataModel;
use crate::auth::accounts::SwitchErrorModel;
use crate::auth::accounts::SwitchPolicy;
use crate::auth::accounts::first_labelled;
use crate::auth::accounts::first_labelled_listed;
use crate::auth::accounts::metadata_of;
use crate::auth::accounts::rename_problem;
use crate::auth::accounts::selected_by;
use crate::auth::accounts::switch_problem;
use crate::auth::accounts::told_before;
use crate::auth::backend::Backend;
use crate::auth::backend::BankDeleteModel;
use crate::auth::backend::BankLoadModel;
use crate::auth::backend::BankSaveModel;
use crate::auth::backend::ClearEnd;
use crate::auth::backend::KeyringKind;
use crate::auth::backend::Place;
use crate::auth::backend::PlaceRead;
use crate::auth::backend::SaveWork;
use crate::auth::backend::StepEnd;
use crate::auth::backend::StoreMode;
use crate::auth::backend::backend_of;
use crate::auth::backend::cleared_places;
use crate::auth::backend::clearing;
use crate::auth::backend::delete_stepped;
use crate::auth::backend::first_place;
use crate::auth::backend::load_stepped;
use crate::auth::backend::save_stepped;
use crate::auth::bank::AccountModel;
use crate::auth::bank::BankError;
use crate::auth::bank::BankModel;
use crate::auth::bank::LoadedBank;
use crate::auth::bank::LoadedModel;
use crate::auth::bank::ParsedText;
use crate::auth::bank::StoredAuthBank;
use crate::auth::bank::StoredFormat;
use crate::auth::bank::bank_problem;
use crate::auth::bank::base_of;
use crate::auth::bank::decoded;
use crate::auth::bank::format_of;
use crate::auth::bank::has_label;
use crate::auth::bank::logged_in;
use crate::auth::bank::refresh_problem;
use crate::auth::bank::refreshed;
use crate::auth::bank::replace_problem;
use crate::auth::bank::selected_of;
use crate::auth::bank::with_credentials;
use crate::auth::change::CodexAuthModel;
use crate::auth::change::owned_alike;
use crate::auth::change::same_account;
use crate::auth::credentials::AuthMode;
use crate::auth::credentials::AuthModel;
use crate::auth::credentials::IdentityModel;
use crate::auth::credentials::account_id_of;
use crate::auth::credentials::email_of;
use crate::auth::credentials::plan_of;
use crate::auth::update::RemovalEvent;
use crate::auth::update::RemovalModel;
use crate::auth::update::RemovalWork;
use crate::auth::update::UpdateEvent;
use crate::auth::update::UpdateModel;
use crate::auth::update::UpdateWork;
use crate::auth::update::removal_after;
use crate::auth::update::removal_stepped;
use crate::auth::update::update_after;
use crate::auth::update::update_stepped;
use crate::json::JsonModel;
use crate::json::member;
use crate::table::ascending;
use crate::table::less;
use crate::table::less_irreflexive;
use crate::table::less_transitive;
use crate::table::listed_iff;
use crate::table::lookup;
use crate::table::placed_found;
use crate::text::texts;
use crate::text::trimmed;

verus! {

/// Some account has the selector for its identity.
pub open spec fn is_identity(accounts: Seq<(Seq<char>, AccountModel)>, selector: Seq<char>) -> bool {
    exists|i: int| 0 <= i < accounts.len() && (#[trigger] accounts[i]).0 == selector
}

/// Some account of another identity has the selector for its label.
pub open spec fn labels_another(
    accounts: Seq<(Seq<char>, AccountModel)>,
    selector: Seq<char>,
) -> bool {
    exists|i: int|
        0 <= i < accounts.len() && (#[trigger] accounts[i]).1.label == selector && accounts[i].0
            != selector
}

/// What a selector means: an identity that labels no other account means its account; an identity that
/// labels another account is ambiguous; what is no identity means the account that it labels; and
/// what is neither means none.
pub proof fn selectors_are_identities_or_labels(bank: BankModel, selector: Seq<char>)
    requires
        ascending(bank.accounts),
        crate::auth::bank::distinct_labels(bank.accounts),
    ensures
        is_identity(bank.accounts, selector) && !labels_another(bank.accounts, selector)
            ==> selected_by(bank, selector) == Ok::<Seq<char>, ErrorModel>(selector),
        is_identity(bank.accounts, selector) && labels_another(bank.accounts, selector)
            ==> selected_by(bank, selector) == Err::<Seq<char>, ErrorModel>(
            ErrorModel::AmbiguousSelector(selector),
        ),
        !is_identity(bank.accounts, selector) ==> forall|i: int|
            0 <= i < bank.accounts.len() && (#[trigger] bank.accounts[i]).1.label == selector
                ==> selected_by(bank, selector) == Ok::<Seq<char>, ErrorModel>(bank.accounts[i].0),
        !is_identity(bank.accounts, selector) && !labels_another(bank.accounts, selector)
            ==> selected_by(bank, selector) == Err::<Seq<char>, ErrorModel>(
            ErrorModel::NotFound(selector),
        ),
{
    let accounts = bank.accounts;
    listed_iff(accounts, selector);
    first_labelled_listed(accounts, selector);
    let first = first_labelled(accounts, selector);
    if let Some(id) = first {
        let i = choose|i: int|
            0 <= i < accounts.len() && (#[trigger] accounts[i]).0 == id && accounts[i].1.label
                == selector;
        assert forall|j: int| 0 <= j < accounts.len() && (#[trigger] accounts[j]).1.label
            == selector implies i == j by {
            if i < j {
                assert(accounts[i].1.label != accounts[j].1.label);
            } else if j < i {
                assert(accounts[j].1.label != accounts[i].1.label);
            }
        }
        if labels_another(accounts, selector) {
            let j = choose|j: int|
                0 <= j < accounts.len() && (#[trigger] accounts[j]).1.label == selector
                    && accounts[j].0 != selector;
            assert(i == j);
        } else if id != selector {
            assert(labels_another(accounts, selector));
        }
    } else {
        assert(!has_label(accounts, selector));
        if labels_another(accounts, selector) {
            let j = choose|j: int|
                0 <= j < accounts.len() && (#[trigger] accounts[j]).1.label == selector
                    && accounts[j].0 != selector;
            assert(accounts[j].1.label == selector);
        }
    }
}

/// Another account has the label.
pub open spec fn labelled_elsewhere(
    accounts: Seq<(Seq<char>, AccountModel)>,
    id: Seq<char>,
    label: Seq<char>,
) -> bool {
    exists|i: int|
        0 <= i < accounts.len() && (#[trigger] accounts[i]).0 != id && accounts[i].1.label == label
}

/// An account takes any label that holds more than white space and that no other account has, its own
/// among them.
pub proof fn free_labels_are_taken(bank: BankModel, selector: Seq<char>, label: Seq<char>)
    ensures
        trimmed(label).len() == 0 ==> rename_problem(bank, selector, label) == Some(
            ErrorModel::EmptyLabel,
        ),
        trimmed(label).len() > 0 ==> (selected_by(bank, selector) matches Err(error)
            ==> rename_problem(bank, selector, label) == Some(error)),
        trimmed(label).len() > 0 ==> (selected_by(bank, selector) matches Ok(id)
            ==> rename_problem(bank, selector, label) == if labelled_elsewhere(
            bank.accounts,
            id,
            trimmed(label),
        ) {
            Some(ErrorModel::DuplicateLabel(trimmed(label)))
        } else {
            None
        }),
{
}

/// An account is switched to exactly when the policy allows how it authenticates and, where workspaces
/// are named, an account of the Codex backend is in one of them.
pub proof fn policies_decide_switches(
    bank: BankModel,
    selector: Seq<char>,
    policy: SwitchPolicy,
    id: Seq<char>,
    account: AccountModel,
)
    requires
        selected_by(bank, selector) == Ok::<Seq<char>, ErrorModel>(id),
        lookup(bank.accounts, id) == Some(account),
    ensures
        account.auth.uses_codex_backend && !policy.chatgpt_allowed ==> switch_problem(
            bank,
            selector,
            policy,
        ) == Some(SwitchErrorModel::NotPermitted),
        !account.auth.uses_codex_backend && !policy.api_allowed ==> switch_problem(
            bank,
            selector,
            policy,
        ) == Some(SwitchErrorModel::NotPermitted),
        !account.auth.uses_codex_backend && policy.api_allowed ==> switch_problem(
            bank,
            selector,
            policy,
        ) is None,
        account.auth.uses_codex_backend && policy.chatgpt_allowed && policy.workspaces is None
            ==> switch_problem(bank, selector, policy) is None,
        account.auth.uses_codex_backend && policy.chatgpt_allowed && policy.workspaces is Some
            ==> switch_problem(bank, selector, policy) == (if exists|w: int|
            0 <= w < texts(policy.workspaces->0@).len() && account_id_of(account.auth) == Some(
                #[trigger] texts(policy.workspaces->0@)[w],
            ) {
            None
        } else {
            Some(SwitchErrorModel::OutsideWorkspace)
        }),
{
    if let Some(list) = policy.workspaces {
        let names = texts(list@);
        if let Some(name) = account_id_of(account.auth) {
            if names.contains(name) {
                let w = choose|w: int| 0 <= w < names.len() && names[w] == name;
                assert(account_id_of(account.auth) == Some(names[w]));
            }
        }
    }
}

/// What is told of an account: its own identity and label, that it is active exactly when it is selected,
/// and the provider's names for it.
pub proof fn accounts_are_told_as_they_are(
    id: Seq<char>,
    account: AccountModel,
    selected: Option<Seq<char>>,
)
    ensures
        metadata_of(id, account, selected).id == id,
        metadata_of(id, account, selected).label == account.label,
        metadata_of(id, account, selected).is_active <==> selected == Some(id),
        metadata_of(id, account, selected).auth_mode == account.auth.mode,
        metadata_of(id, account, selected).account_id == account_id_of(account.auth),
        metadata_of(id, account, selected).email == email_of(account.auth),
        metadata_of(id, account, selected).plan_type == plan_of(account.auth),
{
}

/// The provider's names for an account come from its tokens where the user is signed in with them, from
/// its record where an agent has its own identity, and from nowhere else.
pub proof fn names_come_from_the_credentials(auth: AuthModel)
    ensures
        auth.mode == AuthMode::Chatgpt || auth.mode == AuthMode::ChatgptAuthTokens ==> (
        match auth.tokens {
            Some(tokens) => {
                &&& email_of(auth) == tokens.email
                &&& plan_of(auth) == tokens.chatgpt_plan_type
                &&& tokens.account_id is None ==> account_id_of(auth) == tokens.chatgpt_account_id
                &&& tokens.account_id matches Some(id) ==> account_id_of(auth) == if id.len() == 0 {
                    tokens.chatgpt_account_id
                } else {
                    Some(id)
                }
            },
            None => email_of(auth) is None && plan_of(auth) is None && account_id_of(auth) is None,
        }),
        auth.mode == AuthMode::AgentIdentity ==> match auth.agent_identity {
            Some(IdentityModel::Record(record)) => email_of(auth) == record.email && plan_of(auth)
                == Some(record.plan_type) && account_id_of(auth) == Some(record.account_id),
            Some(IdentityModel::Jwt { decoded: Some(record), .. }) => email_of(auth) == record.email
                && plan_of(auth) == Some(record.plan_type) && account_id_of(auth) == Some(
                record.account_id,
            ),
            _ => email_of(auth) is None && plan_of(auth) is None && account_id_of(auth) is None,
        },
        auth.mode != AuthMode::Chatgpt && auth.mode != AuthMode::ChatgptAuthTokens && auth.mode
            != AuthMode::AgentIdentity ==> email_of(auth) is None && plan_of(auth) is None
            && account_id_of(auth) is None,
{
}

/// A bank is used exactly when it is of the first version, its selected account is there, and every
/// identity and label is filled, trimmed and, for labels, its own.
pub proof fn banks_are_tested(bank: BankModel)
    requires
        ascending(bank.accounts),
    ensures
        bank.version != 1 ==> bank_problem(bank) == Some(
            BankError::UnsupportedVersion(bank.version),
        ),
        bank.version == 1 && (bank.selected_account_id matches Some(id) && !is_identity(
            bank.accounts,
            id,
        )) ==> bank_problem(bank) == Some(BankError::SelectedMissing),
        bank_problem(bank) is None <==> bank.version == 1 && (bank.selected_account_id matches Some(
            id,
        ) ==> is_identity(bank.accounts, id)) && (forall|i: int|
            #![trigger bank.accounts[i]]
            0 <= i < bank.accounts.len() ==> bank.accounts[i].0.len() > 0
                && bank.accounts[i].1.label.len() > 0 && trimmed(bank.accounts[i].1.label)
                == bank.accounts[i].1.label) && (forall|i: int, j: int|
            0 <= i < j < bank.accounts.len() ==> (#[trigger] bank.accounts[i]).1.label != (
            #[trigger] bank.accounts[j]).1.label),
{
    if let Some(id) = bank.selected_account_id {
        listed_iff(bank.accounts, id);
    }
}

/// A login gives the selected account its credentials and leaves its identity, its label, the selection
/// and every other account; where nothing is selected the credentials are under the fresh
/// identity, which is selected.
pub proof fn logins_go_to_the_selected_account(
    bank: BankModel,
    auth: AuthModel,
    fresh: Seq<char>,
    other: Seq<char>,
)
    requires
        ascending(bank.accounts),
    ensures
        ({
            let after = logged_in(bank, auth, fresh);
            match selected_of(bank) {
                Some(selected) => {
                    &&& after.selected_account_id == bank.selected_account_id
                    &&& lookup(after.accounts, selected.account_id) == Some(
                        AccountModel { label: selected.label, auth },
                    )
                    &&& other != selected.account_id ==> lookup(after.accounts, other) == lookup(
                        bank.accounts,
                        other,
                    )
                },
                None => {
                    &&& after.selected_account_id == Some(fresh)
                    &&& (lookup(after.accounts, fresh) matches Some(account) && account.auth
                        == auth)
                    &&& other != fresh ==> lookup(after.accounts, other) == lookup(
                        bank.accounts,
                        other,
                    )
                },
            }
        }),
        selected_of(bank) is Some <==> (bank.selected_account_id matches Some(id) && lookup(
            bank.accounts,
            id,
        ) is Some),
        selected_of(bank) matches Some(selected) ==> bank.selected_account_id == Some(
            selected.account_id,
        ) && lookup(bank.accounts, selected.account_id) == Some(
            AccountModel { label: selected.label, auth: selected.auth },
        ),
{
    if let Some(selected) = selected_of(bank) {
        placed_found(
            bank.accounts,
            selected.account_id,
            AccountModel { label: selected.label, auth },
            other,
        );
    } else {
        placed_found(
            bank.accounts,
            fresh,
            AccountModel { label: crate::auth::bank::default_label(bank.accounts), auth },
            other,
        );
    }
}

/// Other credentials for an account keep its label, the selection and every other account; where the
/// account is gone nothing changes.
pub proof fn credentials_are_replaced(
    bank: BankModel,
    id: Seq<char>,
    auth: AuthModel,
    other: Seq<char>,
)
    requires
        ascending(bank.accounts),
    ensures
        ({
            let after = with_credentials(bank, id, auth);
            &&& after.selected_account_id == bank.selected_account_id
            &&& after.version == bank.version
            &&& other != id ==> lookup(after.accounts, other) == lookup(bank.accounts, other)
            &&& lookup(bank.accounts, id) matches Some(account) ==> lookup(after.accounts, id)
                == Some(AccountModel { label: account.label, auth })
            &&& lookup(bank.accounts, id) is None ==> after == bank
        }),
{
    if let Some(account) = lookup(bank.accounts, id) {
        placed_found(bank.accounts, id, AccountModel { label: account.label, auth }, other);
    }
}

/// The credentials of an account are replaced exactly when the account is there and has what was expected.
pub proof fn changed_credentials_are_not_replaced(
    bank: BankModel,
    id: Seq<char>,
    expected: AuthModel,
)
    ensures
        replace_problem(bank, id, expected) is None <==> (lookup(bank.accounts, id) matches Some(
            account,
        ) && account.auth == expected),
{
}

/// Refreshed tokens are stored exactly when the account is there and nothing else of what is stored changed
/// but the agent's identity; what is stored is what was refreshed, with the identity that is there
/// by now.
pub proof fn refreshes_keep_the_agent_identity(
    bank: BankModel,
    id: Seq<char>,
    expected: AuthModel,
    updated: AuthModel,
)
    ensures
        refresh_problem(bank, id, expected) is None <==> (lookup(bank.accounts, id) matches Some(
            account,
        ) && account.auth.auth_mode == expected.auth_mode && account.auth.openai_api_key
            == expected.openai_api_key && account.auth.tokens == expected.tokens
            && account.auth.last_refresh == expected.last_refresh
            && account.auth.personal_access_token == expected.personal_access_token
            && account.auth.bedrock_api_key == expected.bedrock_api_key
            && account.auth.bedrock_access_keys == expected.bedrock_access_keys),
        lookup(bank.accounts, id) matches Some(account) ==> refreshed(bank, id, updated) == (
        AuthModel { agent_identity: account.auth.agent_identity, ..updated }),
{
}

/// Any key of a bank makes a document one.
pub proof fn documents_with_bank_keys_are_banks(json: JsonModel)
    ensures
        format_of(json) == StoredFormat::Legacy <==> member(json, "version"@) is None && member(
            json,
            "accounts"@,
        ) is None && member(json, "selected_account_id"@) is None,
{
}

/// A stored bank is used as it is where nothing is wrong with it; one account without a bank becomes the
/// one account of a bank, selected, under the label `default`.
pub proof fn stored_texts_become_banks(parsed: ParsedText)
    ensures
        parsed matches ParsedText::Bank(bank) ==> (bank_problem(bank@) is None ==> decoded(parsed)
            == LoadedModel::Bank(bank@)) && (bank_problem(bank@) is Some ==> decoded(
            parsed,
        ) is Failed),
        parsed matches ParsedText::Legacy(auth) ==> (decoded(parsed) matches LoadedModel::Bank(bank)
            && bank.version == 1 && bank.accounts.len() == 1 && bank.accounts[0].1.auth == auth@
            && bank.accounts[0].1.label == "default"@ && bank.selected_account_id == Some(
            bank.accounts[0].0,
        )),
        parsed is InvalidLegacy ==> decoded(parsed) is InvalidLegacy,
        parsed is Invalid ==> decoded(parsed) is Failed,
{
}

/// A change starts from the bank that was loaded, or from an empty one where none is there. Only a login
/// starts from an empty one where the stored account cannot be read, and nothing starts where the
/// bank cannot be read.
pub proof fn unreadable_banks_are_not_replaced(login: bool, loaded: LoadedModel)
    ensures
        loaded matches LoadedModel::Bank(bank) ==> base_of(login, loaded) == Ok::<
            BankModel,
            Seq<char>,
        >(bank),
        loaded is Missing ==> (base_of(login, loaded) matches Ok(bank) && bank.accounts.len() == 0
            && bank.selected_account_id is None && bank.version == 1),
        loaded matches LoadedModel::InvalidLegacy(error) ==> (if login {
            base_of(login, loaded) matches Ok(bank) && bank.accounts.len() == 0
                && bank.selected_account_id is None && bank.version == 1
        } else {
            base_of(login, loaded) == Err::<BankModel, Seq<char>>(error)
        }),
        loaded matches LoadedModel::Failed(error) ==> base_of(login, loaded) == Err::<
            BankModel,
            Seq<char>,
        >(error),
{
}

/// Where credentials are looked for first: in the file, in memory, or in the keyring or the encrypted file,
/// as the keyring is used.
pub proof fn credentials_have_their_place(keyring: KeyringKind)
    ensures
        first_place(backend_of(StoreMode::File, keyring)) == Place::File,
        first_place(backend_of(StoreMode::Ephemeral, keyring)) == Place::Memory,
        keyring == KeyringKind::Direct ==> first_place(backend_of(StoreMode::Keyring, keyring))
            == Place::Keyring && first_place(backend_of(StoreMode::Auto, keyring))
            == Place::Keyring,
        keyring == KeyringKind::Secrets ==> first_place(backend_of(StoreMode::Keyring, keyring))
            == Place::Encrypted && first_place(backend_of(StoreMode::Auto, keyring))
            == Place::Encrypted,
{
}

/// A bank that is found is loaded. Where the keyring holds none or fails, a storage that is kept where it
/// can be goes on to the file, and one that is kept in the keyring does not.
pub proof fn loads_fall_back_to_the_file(
    keyring: KeyringKind,
    mode: StoreMode,
    place: Place,
    read: PlaceRead,
    bank: StoredAuthBank,
)
    ensures
        load_stepped(backend_of(mode, keyring), place, PlaceRead::Text(LoadedBank::Bank(bank)))
            == BankLoadModel::Loaded(LoadedModel::Bank(bank@)),
        mode != StoreMode::Auto ==> load_stepped(backend_of(mode, keyring), place, read) is Loaded,
        place == Place::File ==> load_stepped(backend_of(mode, keyring), place, read) is Loaded,
        mode == StoreMode::Auto && place != Place::File ==> load_stepped(
            backend_of(mode, keyring),
            place,
            PlaceRead::Missing,
        ) == BankLoadModel::Read(Place::File),
        mode == StoreMode::Auto && place != Place::File && read is Failed ==> load_stepped(
            backend_of(mode, keyring),
            place,
            read,
        ) == BankLoadModel::Read(Place::File),
        mode != StoreMode::Auto || place == Place::File ==> load_stepped(
            backend_of(mode, keyring),
            place,
            PlaceRead::Missing,
        ) == BankLoadModel::Loaded(LoadedModel::Missing),
        (mode != StoreMode::Auto || place == Place::File) && read is Failed ==> (load_stepped(
            backend_of(mode, keyring),
            place,
            read,
        ) matches BankLoadModel::Loaded(loaded) && loaded is Failed),
{
}

/// A save that was put where it belongs ends well, after the file was taken away where it went to the
/// keyring; one that cannot be put there goes to the file where the storage is kept where it can
/// be, and fails otherwise.
pub proof fn saves_go_where_they_can(backend: Backend, place: Place, end: StepEnd)
    ensures
        ({
            let save = BankSaveModel { doing: SaveWork::Put(place), failure: None };
            let after = save_stepped(backend, save, end);
            &&& end is Done && (place == Place::File || place == Place::Memory) ==> after == (
            BankSaveModel { doing: SaveWork::Finish, failure: None })
            &&& end is Done && (place == Place::Keyring || place == Place::Encrypted) ==> after == (
            BankSaveModel { doing: SaveWork::DropFile, failure: None })
            &&& end is Failed && backend is Auto && (place == Place::Keyring || place
                == Place::Encrypted) ==> after == (BankSaveModel {
                doing: SaveWork::Put(Place::File),
                failure: None,
            })
            &&& end is Failed && (!(backend is Auto) || place == Place::File || place
                == Place::Memory) ==> after.doing == SaveWork::Finish && after.failure is Some
        }),
        save_stepped(backend, BankSaveModel { doing: SaveWork::DropFile, failure: None }, end) == (
        BankSaveModel { doing: SaveWork::Finish, failure: None }),
{
}

/// A deletion goes through its places one after the other and remembers whether anything was there; the
/// first place that fails ends it.
pub proof fn deletions_clear_one_place_at_a_time(
    backend: Backend,
    delete: BankDeleteModel,
    there: bool,
    end: ClearEnd,
)
    requires
        delete.failure is None,
        0 <= delete.cleared < cleared_places(backend).len(),
    ensures
        clearing(backend, delete) == Some(cleared_places(backend)[delete.cleared]),
        delete_stepped(backend, delete, ClearEnd::Cleared(there)) == (BankDeleteModel {
            cleared: delete.cleared + 1,
            removed: delete.removed || there,
            failure: None,
        }),
        end is Failed ==> delete_stepped(backend, delete, end).failure is Some && clearing(
            backend,
            delete_stepped(backend, delete, end),
        ) is None && delete_stepped(backend, delete, end).removed == delete.removed,
{
}

/// One more event of a change.
proof fn one_more_change(login: bool, events: Seq<UpdateEvent>, event: UpdateEvent)
    ensures
        update_after(login, events.push(event)) == update_stepped(
            update_after(login, events),
            event,
        ),
{
    assert(events.push(event).drop_last() =~= events);
}

/// A change that goes through loads the bank, lets it be changed, stores it and tells others, and keeps
/// the changed bank. A login stores the bank always; another change deletes one that it left
/// without accounts. That others cannot be told does not fail it.
pub proof fn changes_of_the_bank_go_through(
    login: bool,
    loaded: LoadedBank,
    bank: StoredAuthBank,
    told: UpdateEvent,
)
    requires
        base_of(login, loaded@) is Ok,
        told is Done || told is Failed,
    ensures
        ({
            let one = Seq::empty().push(UpdateEvent::Loaded(loaded));
            let two = one.push(UpdateEvent::Changed(bank));
            let three = two.push(UpdateEvent::Done);
            let four = three.push(told);
            &&& update_after(login, Seq::empty()).doing == UpdateWork::Load
            &&& update_after(login, one).doing == UpdateWork::Change
            &&& update_after(login, one).bank == Some(base_of(login, loaded@)->Ok_0)
            &&& update_after(login, two).doing == (if login || bank@.accounts.len() > 0 {
                UpdateWork::Save
            } else {
                UpdateWork::Delete
            })
            &&& update_after(login, three).doing == UpdateWork::Announce
            &&& update_after(login, four).doing == UpdateWork::Finish
            &&& update_after(login, four).failure is None
            &&& update_after(login, four).bank == Some(bank@)
        }),
{
    let one = Seq::empty().push(UpdateEvent::Loaded(loaded));
    let two = one.push(UpdateEvent::Changed(bank));
    let three = two.push(UpdateEvent::Done);
    one_more_change(login, Seq::empty(), UpdateEvent::Loaded(loaded));
    one_more_change(login, one, UpdateEvent::Changed(bank));
    one_more_change(login, two, UpdateEvent::Done);
    one_more_change(login, three, told);
}

/// A step of a change that fails, but for telling others, ends it with that failure, and so does a bank
/// that nothing can start from.
pub proof fn failed_steps_end_a_change(
    login: bool,
    events: Seq<UpdateEvent>,
    error: String,
    loaded: LoadedBank,
)
    ensures
        ({
            let before = update_after(login, events);
            let failed = update_after(login, events.push(UpdateEvent::Failed(error)));
            &&& before.doing != UpdateWork::Finish && before.doing != UpdateWork::Announce
                ==> failed.doing == UpdateWork::Finish && failed.failure == Some(error@)
            &&& before.doing == UpdateWork::Announce ==> failed.doing == UpdateWork::Finish
                && failed.failure == before.failure
            &&& before.doing == UpdateWork::Finish ==> failed == before
            &&& before.doing == UpdateWork::Load && base_of(before.login, loaded@) is Err ==> ({
                let after = update_after(login, events.push(UpdateEvent::Loaded(loaded)));
                after.doing == UpdateWork::Finish && after.failure == Some(
                    base_of(before.login, loaded@)->Err_0,
                )
            })
        }),
{
    one_more_change(login, events, UpdateEvent::Failed(error));
    one_more_change(login, events, UpdateEvent::Loaded(loaded));
}

/// One more event of a removal.
proof fn one_more_removal(selector: Seq<char>, events: Seq<RemovalEvent>, event: RemovalEvent)
    ensures
        removal_after(selector, events.push(event)) == removal_stepped(
            selector,
            removal_after(selector, events),
            event,
        ),
{
    assert(events.push(event).drop_last() =~= events);
}

/// A removal that goes through finds the account that the selector means, waits for its lock, loads the
/// bank again, takes the account out and revokes the tokens that it had; that they cannot be revoked does
/// not fail it. Where the account is gone by the second load, nothing is removed or revoked.
pub proof fn removals_go_through(
    selector: Seq<char>,
    first: StoredAuthBank,
    second: StoredAuthBank,
    removed: bool,
    revoked: RemovalEvent,
    id: Seq<char>,
)
    requires
        selected_by(first@, selector) == Ok::<Seq<char>, ErrorModel>(id),
        revoked is Done || revoked is Failed,
    ensures
        ({
            let one = Seq::empty().push(RemovalEvent::Bank(first));
            let two = one.push(RemovalEvent::Done);
            let three = two.push(RemovalEvent::Bank(second));
            let four = three.push(RemovalEvent::Removed(removed));
            let five = four.push(revoked);
            &&& removal_after(selector, Seq::empty()).doing == RemovalWork::Find
            &&& removal_after(selector, one).doing == RemovalWork::Lock
            &&& removal_after(selector, one).account_id == Some(id)
            &&& removal_after(selector, two).doing == RemovalWork::Load
            &&& match lookup(second@.accounts, id) {
                Some(account) => {
                    &&& removal_after(selector, three).doing == RemovalWork::Remove
                    &&& removal_after(selector, three).auth == Some(account.auth)
                    &&& removal_after(selector, four).removed == removed
                    &&& removal_after(selector, four).doing == if removed {
                        RemovalWork::Revoke
                    } else {
                        RemovalWork::Finish
                    }
                    &&& removal_after(selector, five).doing == RemovalWork::Finish
                    &&& removal_after(selector, five).failure is None
                    &&& removal_after(selector, five).removed == removed
                },
                None => {
                    &&& removal_after(selector, three).doing == RemovalWork::Finish
                    &&& !removal_after(selector, three).removed
                    &&& removal_after(selector, three).failure is None
                },
            }
        }),
{
    let one = Seq::empty().push(RemovalEvent::Bank(first));
    let two = one.push(RemovalEvent::Done);
    let three = two.push(RemovalEvent::Bank(second));
    let four = three.push(RemovalEvent::Removed(removed));
    one_more_removal(selector, Seq::empty(), RemovalEvent::Bank(first));
    one_more_removal(selector, one, RemovalEvent::Done);
    one_more_removal(selector, two, RemovalEvent::Bank(second));
    one_more_removal(selector, three, RemovalEvent::Removed(removed));
    one_more_removal(selector, four, revoked);
}

/// A step of a removal that fails, but for the revocation, ends it with that failure, and so does a
/// selector that means no account.
pub proof fn failed_steps_end_a_removal(
    selector: Seq<char>,
    events: Seq<RemovalEvent>,
    error: String,
    bank: StoredAuthBank,
)
    ensures
        ({
            let before = removal_after(selector, events);
            let failed = removal_after(selector, events.push(RemovalEvent::Failed(error)));
            &&& before.doing != RemovalWork::Finish && before.doing != RemovalWork::Revoke
                ==> failed.doing == RemovalWork::Finish && failed.failure == Some(error@)
            &&& before.doing == RemovalWork::Finish ==> failed == before
            &&& before.doing == RemovalWork::Find && selected_by(bank@, selector) is Err ==> ({
                let after = removal_after(selector, events.push(RemovalEvent::Bank(bank)));
                after.doing == RemovalWork::Finish && after.failure is Some && !after.removed
            })
        }),
{
    one_more_removal(selector, events, RemovalEvent::Failed(error));
    one_more_removal(selector, events, RemovalEvent::Bank(bank));
    nothing_is_removed_at_first(selector, events);
}

/// Nothing is removed while the account is looked for.
proof fn nothing_is_removed_at_first(selector: Seq<char>, events: Seq<RemovalEvent>)
    ensures
        removal_after(selector, events).doing == RemovalWork::Find ==> !removal_after(
            selector,
            events,
        ).removed,
    decreases events.len(),
{
    if events.len() > 0 {
        nothing_is_removed_at_first(selector, events.drop_last());
    }
}

/// Credentials have the same owner exactly when both name the same user and the same workspace, and
/// authenticate in the same way.
pub proof fn owners_are_users_in_workspaces(a: CodexAuthModel, b: CodexAuthModel)
    ensures
        owned_alike(Some(a), Some(b)) <==> a.api_auth_mode == b.api_auth_mode && (
        a.chatgpt_user_id matches Some(user) && b.chatgpt_user_id == Some(user) && trimmed(
            user,
        ).len() > 0) && (a.account_id matches Some(workspace) && b.account_id == Some(workspace)
            && trimmed(workspace).len() > 0),
        !owned_alike(None, Some(b)),
        !owned_alike(Some(a), None),
{
}

/// Credentials that name different accounts never share state; those that name none share it where they
/// have the same owner or are the same credentials, and not otherwise.
pub proof fn state_is_shared_within_an_account(a: CodexAuthModel, b: CodexAuthModel)
    ensures
        a.account_scope is Some && a.account_scope == b.account_scope ==> same_account(a, b),
        a.account_scope != b.account_scope ==> !same_account(a, b),
        a.account_scope is None && b.account_scope is None && a.kind == b.kind && a.material
            == b.material ==> same_account(a, b),
        a.account_scope is None && b.account_scope is None && owned_alike(Some(a), Some(b))
            ==> same_account(a, b),
        a.account_scope is None && b.account_scope is None && !owned_alike(Some(a), Some(b)) && (
        a.kind != b.kind || a.material != b.material) ==> !same_account(a, b),
{
}

/// Accounts are told by their label, and those of one label by their identity.
pub proof fn accounts_are_told_by_label(a: MetadataModel, b: MetadataModel)
    ensures
        less(a.label, b.label) ==> told_before(a, b) && !told_before(b, a),
        a.label == b.label ==> (told_before(a, b) <==> less(a.id, b.id)),
{
    if less(a.label, b.label) && less(b.label, a.label) {
        less_transitive(a.label, b.label, a.label);
    }
    less_irreflexive(a.label);
}

/// An event that does not answer the step that a change of the bank is taking changes nothing.
pub proof fn stray_events_leave_a_change(update: UpdateModel, event: UpdateEvent)
    requires
        !(event is Failed) || update.doing == UpdateWork::Finish,
        update.doing == UpdateWork::Load ==> !(event is Loaded),
        update.doing == UpdateWork::Change ==> !(event is Changed),
        update.doing == UpdateWork::Save || update.doing == UpdateWork::Delete || update.doing
            == UpdateWork::Announce ==> !(event is Done),
    ensures
        update_stepped(update, event) == update,
{
}

/// An event that does not answer the step that a removal is taking changes nothing.
pub proof fn stray_events_leave_a_removal(
    selector: Seq<char>,
    removal: RemovalModel,
    event: RemovalEvent,
)
    requires
        !(event is Failed) || removal.doing == RemovalWork::Finish,
        removal.doing == RemovalWork::Find || removal.doing == RemovalWork::Load ==> !(event
            is Bank),
        removal.doing == RemovalWork::Lock || removal.doing == RemovalWork::Revoke ==> !(event
            is Done),
        removal.doing == RemovalWork::Remove ==> !(event is Removed),
    ensures
        removal_stepped(selector, removal, event) == removal,
{
}

} // verus!
