//! Changing the stored bank, and taking an account out of it: runs of outside steps, each decided
//! by how the one before it ended.

use vstd::prelude::*;

use crate::auth::accounts::error_text;
use crate::auth::accounts::selected_by;
use crate::auth::bank::bank_base;
use crate::auth::bank::base_of;
use crate::auth::bank::snapshot_of;
use crate::auth::bank::BankModel;
use crate::auth::bank::BankWrite;
use crate::auth::bank::LoadedBank;
use crate::auth::bank::StoredAuthBank;
use crate::auth::credentials::AuthDotJson;
use crate::auth::credentials::AuthModel;
use crate::text::maybe;

verus! {

/// The outside steps of a change to the bank, in the order of one that goes through.
#[derive(Clone, Copy, Debug, PartialEq, Eq, Structural)]
pub enum UpdateWork {
    Load,
    /// Let the caller change the bank.
    Change,
    Save,
    /// Delete a bank that is left without accounts.
    Delete,
    /// Tell other processes that the credentials changed.
    Announce,
    /// The bank is changed, or the change has failed.
    Finish,
}

/// How an outside step of a change ended.
#[derive(PartialEq, Eq)]
pub enum UpdateEvent {
    Loaded(LoadedBank),
    Changed(StoredAuthBank),
    Done,
    Failed(String),
}

/// A change to the bank on its way: the step being taken, whether it is an explicit login, the bank
/// once it was read, and what went wrong.
#[derive(PartialEq, Eq)]
pub struct BankUpdate {
    pub doing: UpdateWork,
    pub login: bool,
    pub bank: Option<StoredAuthBank>,
    pub failure: Option<String>,
}

/// A change to the bank on its way, with its texts as sequences of characters.
#[verifier::ext_equal]
pub struct UpdateModel {
    pub doing: UpdateWork,
    pub login: bool,
    pub bank: Option<BankModel>,
    pub failure: Option<Seq<char>>,
}

/// What an optional bank stands for.
pub open spec fn banked(bank: Option<StoredAuthBank>) -> Option<BankModel> {
    match bank {
        Some(bank) => Some(bank@),
        None => None,
    }
}

impl View for BankUpdate {
    type V = UpdateModel;

    open spec fn view(&self) -> UpdateModel {
        UpdateModel {
            doing: self.doing,
            login: self.login,
            bank: banked(self.bank),
            failure: maybe(self.failure),
        }
    }
}

/// A change that has failed.
pub open spec fn not_changed(update: UpdateModel, error: Seq<char>) -> UpdateModel {
    UpdateModel { doing: UpdateWork::Finish, failure: Some(error), ..update }
}

/// What a change does next. A login saves the bank; any other change deletes one that it left
/// without accounts. That the change cannot be announced is passed over. An event that does not
/// answer the step being taken changes nothing.
pub open spec fn update_stepped(update: UpdateModel, event: UpdateEvent) -> UpdateModel {
    match (update.doing, event) {
        (UpdateWork::Finish, _) => update,
        (UpdateWork::Announce, UpdateEvent::Done) => UpdateModel {
            doing: UpdateWork::Finish,
            ..update
        },
        (UpdateWork::Announce, UpdateEvent::Failed(_)) => UpdateModel {
            doing: UpdateWork::Finish,
            ..update
        },
        (_, UpdateEvent::Failed(error)) => not_changed(update, error@),
        (UpdateWork::Load, UpdateEvent::Loaded(loaded)) => match base_of(update.login, loaded@) {
            Ok(bank) => UpdateModel { doing: UpdateWork::Change, bank: Some(bank), ..update },
            Err(error) => not_changed(update, error),
        },
        (UpdateWork::Change, UpdateEvent::Changed(bank)) => UpdateModel {
            doing: if !update.login && bank@.accounts.len() == 0 {
                UpdateWork::Delete
            } else {
                UpdateWork::Save
            },
            bank: Some(bank@),
            ..update
        },
        (UpdateWork::Save, UpdateEvent::Done) => UpdateModel {
            doing: UpdateWork::Announce,
            ..update
        },
        (UpdateWork::Delete, UpdateEvent::Done) => UpdateModel {
            doing: UpdateWork::Announce,
            ..update
        },
        _ => update,
    }
}

impl BankUpdate {
    /// A change that starts with its first step.
    pub fn start(login: bool) -> (update: Self)
        ensures
            update@ == (UpdateModel {
                doing: UpdateWork::Load,
                login,
                bank: None,
                failure: None,
            }),
    {
        BankUpdate { doing: UpdateWork::Load, login, bank: None, failure: None }
    }

    /// What the change does next, now that its step ended. An event that does not answer the step
    /// being taken changes nothing.
    pub fn next(self, event: UpdateEvent) -> (update: Self)
        ensures
            update@ == update_stepped(self@, event),
    {
        let mut update = self;
        match (update.doing, event) {
            (UpdateWork::Finish, _) => {},
            (UpdateWork::Announce, UpdateEvent::Done) => {
                update.doing = UpdateWork::Finish;
            },
            (UpdateWork::Announce, UpdateEvent::Failed(_)) => {
                update.doing = UpdateWork::Finish;
            },
            (_, UpdateEvent::Failed(error)) => {
                update.doing = UpdateWork::Finish;
                update.failure = Some(error);
            },
            (UpdateWork::Load, UpdateEvent::Loaded(loaded)) => {
                match bank_base(update.login, loaded) {
                    Ok(bank) => {
                        update.doing = UpdateWork::Change;
                        update.bank = Some(bank);
                    },
                    Err(error) => {
                        update.doing = UpdateWork::Finish;
                        update.failure = Some(error);
                    },
                }
            },
            (UpdateWork::Change, UpdateEvent::Changed(bank)) => {
                update.doing = if update.login {
                    UpdateWork::Save
                } else {
                    match bank.write_back() {
                        BankWrite::Delete => UpdateWork::Delete,
                        BankWrite::Save => UpdateWork::Save,
                    }
                };
                update.bank = Some(bank);
            },
            (UpdateWork::Save, UpdateEvent::Done) => {
                update.doing = UpdateWork::Announce;
            },
            (UpdateWork::Delete, UpdateEvent::Done) => {
                update.doing = UpdateWork::Announce;
            },
            (_, _) => {},
        }
        update
    }
}

/// Where a change stands after a run of events.
pub open spec fn update_after(login: bool, events: Seq<UpdateEvent>) -> UpdateModel
    decreases events.len(),
{
    if events.len() == 0 {
        UpdateModel { doing: UpdateWork::Load, login, bank: None, failure: None }
    } else {
        update_stepped(update_after(login, events.drop_last()), events.last())
    }
}

/// A change is announced once it is stored, and only then: a step into the announcement comes from
/// a save or a deletion that went well, and a change that ends without a failure was announced.
pub proof fn changes_are_announced_once_stored(login: bool, events: Seq<UpdateEvent>)
    requires
        events.len() > 0,
    ensures
        ({
            let before = update_after(login, events.drop_last());
            let now = update_after(login, events);
            &&& before.doing != UpdateWork::Announce && now.doing == UpdateWork::Announce ==> (
            before.doing == UpdateWork::Save || before.doing == UpdateWork::Delete)
                && events.last() is Done
            &&& before.doing != UpdateWork::Finish && now.doing == UpdateWork::Finish
                && now.failure is None ==> before.doing == UpdateWork::Announce
        }),
{
    unfinished_changes_have_not_failed(login, events.drop_last());
}

/// What goes on has not failed.
proof fn unfinished_changes_have_not_failed(login: bool, events: Seq<UpdateEvent>)
    ensures
        update_after(login, events).doing != UpdateWork::Finish ==> update_after(
            login,
            events,
        ).failure is None,
    decreases events.len(),
{
    if events.len() > 0 {
        unfinished_changes_have_not_failed(login, events.drop_last());
    }
}

/// The outside steps of taking an account away, in the order of a removal that goes through.
#[derive(Clone, Copy, Debug, PartialEq, Eq, Structural)]
pub enum RemovalWork {
    /// Load the bank to find the account.
    Find,
    /// Wait until no other process refreshes the account.
    Lock,
    /// Load the bank again.
    Load,
    /// Take the account out of the stored bank.
    Remove,
    /// Revoke the tokens that the account had.
    Revoke,
    /// The removal is answered.
    Finish,
}

/// How an outside step of a removal ended.
#[derive(PartialEq, Eq)]
pub enum RemovalEvent {
    Bank(StoredAuthBank),
    /// Whether the account was there.
    Removed(bool),
    Done,
    Failed(String),
}

/// A removal on its way: the step being taken, the account and its credentials once they are known,
/// whether it was there, and what went wrong.
#[derive(PartialEq, Eq)]
pub struct AccountRemoval {
    pub doing: RemovalWork,
    pub account_id: Option<String>,
    pub auth: Option<AuthDotJson>,
    pub removed: bool,
    pub failure: Option<String>,
}

/// A removal on its way, with its texts as sequences of characters.
#[verifier::ext_equal]
pub struct RemovalModel {
    pub doing: RemovalWork,
    pub account_id: Option<Seq<char>>,
    pub auth: Option<AuthModel>,
    pub removed: bool,
    pub failure: Option<Seq<char>>,
}

/// What optional credentials stand for.
pub open spec fn credited(auth: Option<AuthDotJson>) -> Option<AuthModel> {
    match auth {
        Some(auth) => Some(auth@),
        None => None,
    }
}

impl View for AccountRemoval {
    type V = RemovalModel;

    open spec fn view(&self) -> RemovalModel {
        RemovalModel {
            doing: self.doing,
            account_id: maybe(self.account_id),
            auth: credited(self.auth),
            removed: self.removed,
            failure: maybe(self.failure),
        }
    }
}

/// A removal that starts with its first step.
pub open spec fn removing() -> RemovalModel {
    RemovalModel {
        doing: RemovalWork::Find,
        account_id: None,
        auth: None,
        removed: false,
        failure: None,
    }
}

/// What a removal does next. Tokens are revoked where the account was there; that they cannot be is
/// passed over. An event that does not answer the step being taken changes nothing.
pub open spec fn removal_stepped(
    selector: Seq<char>,
    removal: RemovalModel,
    event: RemovalEvent,
) -> RemovalModel {
    match (removal.doing, event) {
        (RemovalWork::Finish, _) => removal,
        (RemovalWork::Revoke, RemovalEvent::Done) => RemovalModel {
            doing: RemovalWork::Finish,
            ..removal
        },
        (RemovalWork::Revoke, RemovalEvent::Failed(_)) => RemovalModel {
            doing: RemovalWork::Finish,
            ..removal
        },
        (_, RemovalEvent::Failed(error)) => RemovalModel {
            doing: RemovalWork::Finish,
            failure: Some(error@),
            ..removal
        },
        (RemovalWork::Find, RemovalEvent::Bank(bank)) => match selected_by(bank@, selector) {
            Ok(id) => RemovalModel { doing: RemovalWork::Lock, account_id: Some(id), ..removal },
            Err(error) => RemovalModel {
                doing: RemovalWork::Finish,
                failure: Some(error_text(error)),
                ..removal
            },
        },
        (RemovalWork::Lock, RemovalEvent::Done) => RemovalModel {
            doing: RemovalWork::Load,
            ..removal
        },
        (RemovalWork::Load, RemovalEvent::Bank(bank)) => match removal.account_id {
            Some(id) => match snapshot_of(bank@, id) {
                Some(snapshot) => RemovalModel {
                    doing: RemovalWork::Remove,
                    auth: Some(snapshot.auth),
                    ..removal
                },
                None => RemovalModel { doing: RemovalWork::Finish, ..removal },
            },
            None => removal,
        },
        (RemovalWork::Remove, RemovalEvent::Removed(removed)) => RemovalModel {
            doing: if removed {
                RemovalWork::Revoke
            } else {
                RemovalWork::Finish
            },
            removed,
            ..removal
        },
        _ => removal,
    }
}

impl AccountRemoval {
    /// A removal that starts with its first step.
    pub fn start() -> (removal: Self)
        ensures
            removal@ == removing(),
    {
        AccountRemoval {
            doing: RemovalWork::Find,
            account_id: None,
            auth: None,
            removed: false,
            failure: None,
        }
    }

    /// What the removal of the account that `selector` means does next, now that its step ended. An
    /// event that does not answer the step being taken changes nothing.
    pub fn next(self, selector: &str, event: RemovalEvent) -> (removal: Self)
        ensures
            removal@ == removal_stepped(selector@, self@, event),
    {
        let mut removal = self;
        match (removal.doing, event) {
            (RemovalWork::Finish, _) => {},
            (RemovalWork::Revoke, RemovalEvent::Done) => {
                removal.doing = RemovalWork::Finish;
            },
            (RemovalWork::Revoke, RemovalEvent::Failed(_)) => {
                removal.doing = RemovalWork::Finish;
            },
            (_, RemovalEvent::Failed(error)) => {
                removal.doing = RemovalWork::Finish;
                removal.failure = Some(error);
            },
            (RemovalWork::Find, RemovalEvent::Bank(bank)) => {
                match bank.resolve_account_id(selector) {
                    Ok(id) => {
                        removal.doing = RemovalWork::Lock;
                        removal.account_id = Some(id);
                    },
                    Err(error) => {
                        removal.doing = RemovalWork::Finish;
                        removal.failure = Some(error.message());
                    },
                }
            },
            (RemovalWork::Lock, RemovalEvent::Done) => {
                removal.doing = RemovalWork::Load;
            },
            (RemovalWork::Load, RemovalEvent::Bank(bank)) => {
                if let Some(id) = &removal.account_id {
                    match bank.snapshot(id.as_str()) {
                        Some(snapshot) => {
                            removal.doing = RemovalWork::Remove;
                            removal.auth = Some(snapshot.auth);
                        },
                        None => {
                            removal.doing = RemovalWork::Finish;
                        },
                    }
                }
            },
            (RemovalWork::Remove, RemovalEvent::Removed(removed)) => {
                removal.doing = if removed {
                    RemovalWork::Revoke
                } else {
                    RemovalWork::Finish
                };
                removal.removed = removed;
            },
            (_, _) => {},
        }
        removal
    }
}

/// Where a removal stands after a run of events.
pub open spec fn removal_after(selector: Seq<char>, events: Seq<RemovalEvent>) -> RemovalModel
    decreases events.len(),
{
    if events.len() == 0 {
        removing()
    } else {
        removal_stepped(selector, removal_after(selector, events.drop_last()), events.last())
    }
}

/// Tokens are revoked only for an account that was taken out of the bank, and with the credentials
/// that it had there.
pub proof fn only_removed_accounts_are_revoked(selector: Seq<char>, events: Seq<RemovalEvent>)
    requires
        removal_after(selector, events).doing == RemovalWork::Revoke,
    ensures
        removal_after(selector, events).removed,
        removal_after(selector, events).auth is Some,
        exists|i: int| 0 <= i < events.len() && #[trigger] events[i] == RemovalEvent::Removed(true),
    decreases events.len(),
{
    if events.len() > 0 {
        let before = events.drop_last();
        if removal_after(selector, before).doing == RemovalWork::Revoke {
            only_removed_accounts_are_revoked(selector, before);
            let i = choose|i: int|
                0 <= i < before.len() && #[trigger] before[i] == RemovalEvent::Removed(true);
            assert(events[i] == before[i]);
        } else {
            removed_accounts_were_there(selector, before);
            assert(events[events.len() - 1] == events.last());
        }
    }
}

/// An account that is taken out was found with its credentials.
proof fn removed_accounts_were_there(selector: Seq<char>, events: Seq<RemovalEvent>)
    ensures
        removal_after(selector, events).doing == RemovalWork::Remove ==> removal_after(
            selector,
            events,
        ).auth is Some,
    decreases events.len(),
{
    if events.len() > 0 {
        removed_accounts_were_there(selector, events.drop_last());
    }
}

} // verus!
