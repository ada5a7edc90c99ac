//! Accounts by the names their users gave them.

use vstd::prelude::*;
use vstd::string::StringExecFns;

use crate::auth::bank::has_label;
use crate::auth::bank::AccountModel;
use crate::auth::bank::BankModel;
use crate::auth::bank::StoredAuthAccount;
use crate::auth::bank::StoredAuthBank;
use crate::auth::credentials::account_id_from_auth;
use crate::auth::credentials::account_id_of;
use crate::auth::credentials::email_from_auth;
use crate::auth::credentials::email_of;
use crate::auth::credentials::plan_of;
use crate::auth::credentials::plan_type_from_auth;
use crate::auth::credentials::AuthDotJson;
use crate::auth::credentials::AuthMode;
use crate::table::ascending;
use crate::table::is_less;
use crate::table::less;
use crate::table::less_irreflexive;
use crate::table::less_total;
use crate::table::less_transitive;
use crate::table::listed;
use crate::table::listed_iff;
use crate::table::lookup;
use crate::table::placed;
use crate::table::Duplicate;
use crate::text::chars_of;
use crate::text::holds;
use crate::text::maybe;
use crate::text::same;
use crate::text::texts;
use crate::text::trim;
use crate::text::trimmed;

verus! {

/// What may be told of a named account: no access, refresh, API or identity token. The local
/// identity is stable across label changes and is unrelated to the provider's name for the account.
#[derive(Debug, PartialEq, Eq)]
pub struct NamedAccountMetadata {
    pub id: String,
    pub label: String,
    pub is_active: bool,
    pub account_id: Option<String>,
    pub email: Option<String>,
    pub auth_mode: AuthMode,
    pub plan_type: Option<String>,
}

/// What may be told of a named account, with its texts as sequences of characters.
#[verifier::ext_equal]
pub struct MetadataModel {
    pub id: Seq<char>,
    pub label: Seq<char>,
    pub is_active: bool,
    pub account_id: Option<Seq<char>>,
    pub email: Option<Seq<char>>,
    pub auth_mode: AuthMode,
    pub plan_type: Option<Seq<char>>,
}

impl View for NamedAccountMetadata {
    type V = MetadataModel;

    open spec fn view(&self) -> MetadataModel {
        MetadataModel {
            id: self.id@,
            label: self.label@,
            is_active: self.is_active,
            account_id: maybe(self.account_id),
            email: maybe(self.email),
            auth_mode: self.auth_mode,
            plan_type: maybe(self.plan_type),
        }
    }
}

/// Why a named account cannot be used.
#[derive(Debug, PartialEq, Eq)]
pub enum NamedAccountError {
    EmptyLabel,
    DuplicateLabel(String),
    NotFound(String),
    AmbiguousSelector(String),
}

/// Why a named account cannot be used, with its text as a sequence of characters.
pub enum ErrorModel {
    EmptyLabel,
    DuplicateLabel(Seq<char>),
    NotFound(Seq<char>),
    AmbiguousSelector(Seq<char>),
}

impl View for NamedAccountError {
    type V = ErrorModel;

    open spec fn view(&self) -> ErrorModel {
        match *self {
            NamedAccountError::EmptyLabel => ErrorModel::EmptyLabel,
            NamedAccountError::DuplicateLabel(label) => ErrorModel::DuplicateLabel(label@),
            NamedAccountError::NotFound(selector) => ErrorModel::NotFound(selector@),
            NamedAccountError::AmbiguousSelector(selector) => ErrorModel::AmbiguousSelector(
                selector@,
            ),
        }
    }
}

/// What the error says.
pub open spec fn error_text(error: ErrorModel) -> Seq<char> {
    match error {
        ErrorModel::EmptyLabel => "account label must not be empty"@,
        ErrorModel::DuplicateLabel(label) => "account label already exists: "@ + label,
        ErrorModel::NotFound(selector) => "named account not found: "@ + selector,
        ErrorModel::AmbiguousSelector(selector) =>
            "account selector matches both an ID and another account's label: "@ + selector,
    }
}

impl NamedAccountError {
    /// What the error says.
    pub fn message(&self) -> (text: String)
        ensures
            text@ == error_text(self@),
    {
        match self {
            NamedAccountError::EmptyLabel => "account label must not be empty".to_string(),
            NamedAccountError::DuplicateLabel(label) => {
                let mut text = "account label already exists: ".to_string();
                text.append(label.as_str());
                text
            },
            NamedAccountError::NotFound(selector) => {
                let mut text = "named account not found: ".to_string();
                text.append(selector.as_str());
                text
            },
            NamedAccountError::AmbiguousSelector(selector) => {
                let mut text = "account selector matches both an ID and another account's label: ".to_string();
                text.append(selector.as_str());
                text
            },
        }
    }
}

/// A label as it is kept.
pub fn normalize_label(label: &str) -> (r: Result<String, NamedAccountError>)
    ensures
        match r {
            Ok(normal) => trimmed(label@).len() > 0 && normal@ == trimmed(label@),
            Err(error) => trimmed(label@).len() == 0 && error@ == ErrorModel::EmptyLabel,
        },
{
    let normal = trim(label);
    let length: usize = chars_of(normal.as_str()).len();
    if length == 0 {
        return Err(NamedAccountError::EmptyLabel);
    }
    Ok(normal)
}

/// The first account with a label, in the order of the identities.
pub open spec fn first_labelled(accounts: Seq<(Seq<char>, AccountModel)>, label: Seq<char>) -> Option<
    Seq<char>,
>
    decreases accounts.len(),
{
    if accounts.len() == 0 {
        None
    } else if accounts[0].1.label == label {
        Some(accounts[0].0)
    } else {
        first_labelled(accounts.skip(1), label)
    }
}

/// The account that a selector means: the identity itself, unless another account has it for a
/// label, or the first account with that label.
pub open spec fn selected_by(bank: BankModel, selector: Seq<char>) -> Result<
    Seq<char>,
    ErrorModel,
> {
    let by_label = first_labelled(bank.accounts, selector);
    if listed(bank.accounts, selector) {
        if by_label is Some && by_label != Some(selector) {
            Err(ErrorModel::AmbiguousSelector(selector))
        } else {
            Ok(selector)
        }
    } else {
        match by_label {
            Some(id) => Ok(id),
            None => Err(ErrorModel::NotFound(selector)),
        }
    }
}

/// What may be told of an account.
pub open spec fn metadata_of(
    id: Seq<char>,
    account: AccountModel,
    selected: Option<Seq<char>>,
) -> MetadataModel {
    MetadataModel {
        id,
        label: account.label,
        is_active: selected == Some(id),
        account_id: account_id_of(account.auth),
        email: email_of(account.auth),
        auth_mode: account.auth.mode,
        plan_type: plan_of(account.auth),
    }
}

/// What may be told of an account.
pub fn metadata_for(id: &str, account: &StoredAuthAccount, selected: &Option<String>) -> (r:
    NamedAccountMetadata)
    ensures
        r@ == metadata_of(id@, account@, maybe(*selected)),
{
    let is_active = match selected {
        Some(selected) => same(selected.as_str(), id),
        None => false,
    };
    NamedAccountMetadata {
        id: id.to_string(),
        label: account.label.clone(),
        is_active,
        account_id: account_id_from_auth(&account.auth),
        email: email_from_auth(&account.auth),
        auth_mode: account.auth.mode,
        plan_type: plan_type_from_auth(&account.auth),
    }
}

/// What may be told of an account of a bank.
pub open spec fn told(bank: BankModel, id: Seq<char>) -> MetadataModel {
    metadata_of(id, lookup(bank.accounts, id)->0, bank.selected_account_id)
}

/// The account that the selector means is in the bank.
pub proof fn first_labelled_listed(accounts: Seq<(Seq<char>, AccountModel)>, label: Seq<char>)
    ensures
        match first_labelled(accounts, label) {
            Some(id) => exists|i: int|
                0 <= i < accounts.len() && (#[trigger] accounts[i]).0 == id
                    && accounts[i].1.label == label,
            None => !has_label(accounts, label),
        },
    decreases accounts.len(),
{
    if accounts.len() > 0 && accounts[0].1.label != label {
        let rest = accounts.skip(1);
        first_labelled_listed(rest, label);
        match first_labelled(accounts, label) {
            Some(id) => {
                let i = choose|i: int|
                    0 <= i < rest.len() && (#[trigger] rest[i]).0 == id && rest[i].1.label == label;
                assert(accounts[i + 1] == rest[i]);
            },
            None => {
                assert forall|i: int| 0 <= i < accounts.len() implies (#[trigger] accounts[i]).1.label
                    != label by {
                    if i > 0 {
                        assert(rest[i - 1] == accounts[i]);
                    }
                }
            },
        }
    }
}

/// A selector never means an account that is not there.
pub proof fn selector_means_an_account(bank: BankModel, selector: Seq<char>)
    requires
        ascending(bank.accounts),
    ensures
        match selected_by(bank, selector) {
            Ok(id) => listed(bank.accounts, id),
            Err(ErrorModel::NotFound(_)) => !listed(bank.accounts, selector) && !has_label(
                bank.accounts,
                selector,
            ),
            Err(_) => true,
        },
{
    first_labelled_listed(bank.accounts, selector);
    if let Ok(id) = selected_by(bank, selector) {
        listed_iff(bank.accounts, id);
    }
}

impl StoredAuthBank {
    /// The first account with a label, in the order of the identities.
    fn id_labelled(&self, label: &str) -> (r: Option<String>)
        ensures
            maybe(r) == first_labelled(self@.accounts, label@),
    {
        let total: usize = self.accounts.len();
        let ghost rows = self@.accounts;
        let mut i: usize = 0;
        assert(rows.skip(0) == rows);
        while i < total
            invariant
                i <= total == self.accounts@.len(),
                rows == self.accounts@,
                first_labelled(rows, label@) == first_labelled(rows.skip(i as int), label@),
            decreases total - i,
        {
            assert(rows.skip(i as int)[0] == rows[i as int]);
            assert(rows.skip(i as int).skip(1) == rows.skip(i + 1));
            if same(self.accounts.value(i).label.as_str(), label) {
                return Some(self.accounts.key(i).clone());
            }
            i += 1;
        }
        None
    }

    /// The account that a selector means.
    pub fn resolve_account_id(&self, selector: &str) -> (r: Result<String, NamedAccountError>)
        ensures
            match r {
                Ok(id) => selected_by(self@, selector@) == Ok::<Seq<char>, ErrorModel>(id@)
                    && listed(self@.accounts, id@),
                Err(error) => selected_by(self@, selector@) == Err::<Seq<char>, ErrorModel>(
                    error@,
                ),
            },
    {
        let _: usize = self.accounts.len();
        proof {
            selector_means_an_account(self@, selector@);
        }
        let by_label = self.id_labelled(selector);
        if self.accounts.get(selector).is_some() {
            if let Some(id) = &by_label {
                if !same(id.as_str(), selector) {
                    return Err(NamedAccountError::AmbiguousSelector(selector.to_string()));
                }
            }
            return Ok(selector.to_string());
        }
        match by_label {
            Some(id) => Ok(id),
            None => Err(NamedAccountError::NotFound(selector.to_string())),
        }
    }

    /// What may be told of an account that is there.
    fn tell(&self, id: &str) -> (r: NamedAccountMetadata)
        requires
            listed(self@.accounts, id@),
        ensures
            r@ == told(self@, id@),
    {
        match self.accounts.get(id) {
            Some(account) => metadata_for(id, account, &self.selected_account_id),
            None => NamedAccountMetadata {
                id: id.to_string(),
                label: String::new(),
                is_active: false,
                account_id: None,
                email: None,
                auth_mode: AuthMode::ApiKey,
                plan_type: None,
            },
        }
    }
}

/// Another account has the label.
pub open spec fn label_taken(
    accounts: Seq<(Seq<char>, AccountModel)>,
    id: Seq<char>,
    label: Seq<char>,
) -> bool {
    exists|i: int|
        0 <= i < accounts.len() && (#[trigger] accounts[i]).0 != id && accounts[i].1.label == label
}

/// The bank with another label for an account.
pub open spec fn renamed(bank: BankModel, id: Seq<char>, label: Seq<char>) -> BankModel {
    BankModel {
        accounts: placed(
            bank.accounts,
            id,
            AccountModel { label, auth: lookup(bank.accounts, id)->0.auth },
        ),
        ..bank
    }
}

/// Why an account cannot be renamed, if it cannot; the label is tested before the selector.
pub open spec fn rename_problem(bank: BankModel, selector: Seq<char>, label: Seq<char>) -> Option<
    ErrorModel,
> {
    if trimmed(label).len() == 0 {
        Some(ErrorModel::EmptyLabel)
    } else {
        match selected_by(bank, selector) {
            Err(error) => Some(error),
            Ok(id) => if label_taken(bank.accounts, id, trimmed(label)) {
                Some(ErrorModel::DuplicateLabel(trimmed(label)))
            } else {
                None
            },
        }
    }
}

/// Which accounts a switch may go to.
#[derive(Debug, PartialEq, Eq)]
pub struct SwitchPolicy {
    /// Accounts that go through the Codex backend are allowed.
    pub chatgpt_allowed: bool,
    /// All other accounts are allowed.
    pub api_allowed: bool,
    /// The workspaces that an account of the Codex backend must be in, where that is restricted.
    pub workspaces: Option<Vec<String>>,
}

/// Why an account cannot be switched to.
#[derive(Debug, PartialEq, Eq)]
pub enum SwitchError {
    /// The selector means no account.
    Account(NamedAccountError),
    /// The way the account authenticates is not allowed.
    NotPermitted,
    /// The account is outside the workspaces that are allowed.
    OutsideWorkspace,
}

/// Why an account cannot be switched to, with its text as a sequence of characters.
pub enum SwitchErrorModel {
    Account(ErrorModel),
    NotPermitted,
    OutsideWorkspace,
}

impl View for SwitchError {
    type V = SwitchErrorModel;

    open spec fn view(&self) -> SwitchErrorModel {
        match *self {
            SwitchError::Account(error) => SwitchErrorModel::Account(error@),
            SwitchError::NotPermitted => SwitchErrorModel::NotPermitted,
            SwitchError::OutsideWorkspace => SwitchErrorModel::OutsideWorkspace,
        }
    }
}

impl SwitchError {
    /// What the error says.
    pub fn message(&self) -> (text: String)
        ensures
            text@ == match self@ {
                SwitchErrorModel::Account(error) => error_text(error),
                SwitchErrorModel::NotPermitted =>
                    "authentication requirements do not permit this named account"@,
                SwitchErrorModel::OutsideWorkspace =>
                    "named account is outside the configured workspace restriction"@,
            },
    {
        match self {
            SwitchError::Account(error) => error.message(),
            SwitchError::NotPermitted =>
                "authentication requirements do not permit this named account".to_string(),
            SwitchError::OutsideWorkspace =>
                "named account is outside the configured workspace restriction".to_string(),
        }
    }
}

/// Why an account cannot be switched to, if it cannot.
pub open spec fn switch_problem(bank: BankModel, selector: Seq<char>, policy: SwitchPolicy) -> Option<
    SwitchErrorModel,
> {
    match selected_by(bank, selector) {
        Err(error) => Some(SwitchErrorModel::Account(error)),
        Ok(id) => {
            let auth = lookup(bank.accounts, id)->0.auth;
            let allowed = if auth.uses_codex_backend {
                policy.chatgpt_allowed
            } else {
                policy.api_allowed
            };
            if !allowed {
                Some(SwitchErrorModel::NotPermitted)
            } else if policy.workspaces is Some && auth.uses_codex_backend && !(account_id_of(
                auth,
            ) is Some && texts(policy.workspaces->0@).contains(account_id_of(auth)->0)) {
                Some(SwitchErrorModel::OutsideWorkspace)
            } else {
                None
            }
        },
    }
}

/// The bank with another account selected.
pub open spec fn switched(bank: BankModel, id: Seq<char>) -> BankModel {
    BankModel { selected_account_id: Some(id), ..bank }
}

/// The bank with a new account under a fresh identity, selected.
pub open spec fn added(
    bank: BankModel,
    fresh: Seq<char>,
    account: AccountModel,
) -> BankModel {
    BankModel {
        selected_account_id: Some(fresh),
        accounts: placed(bank.accounts, fresh, account),
        ..bank
    }
}

impl StoredAuthBank {
    /// Whether another account has a label.
    fn is_label_taken(&self, id: &str, label: &str) -> (r: bool)
        ensures
            r == label_taken(self@.accounts, id@, label@),
    {
        let total: usize = self.accounts.len();
        let mut i: usize = 0;
        while i < total
            invariant
                i <= total == self.accounts@.len(),
                forall|j: int|
                    0 <= j < i ==> (#[trigger] self.accounts@[j]).0 == id@
                        || self.accounts@[j].1.label != label@,
            decreases total - i,
        {
            if !same(self.accounts.key(i).as_str(), id) && same(
                self.accounts.value(i).label.as_str(),
                label,
            ) {
                assert(self@.accounts[i as int].0 != id@);
                return true;
            }
            i += 1;
        }
        false
    }

    /// Gives an account another label. Its identity, its credentials and the selection stay.
    pub fn rename(&mut self, selector: &str, label: &str) -> (r: Result<
        NamedAccountMetadata,
        NamedAccountError,
    >)
        ensures
            match r {
                Ok(metadata) => rename_problem(old(self)@, selector@, label@) is None && {
                    let id = selected_by(old(self)@, selector@)->Ok_0;
                    final(self)@ == renamed(old(self)@, id, trimmed(label@)) && metadata@ == told(
                        final(self)@,
                        id,
                    )
                },
                Err(error) => rename_problem(old(self)@, selector@, label@) == Some(error@)
                    && final(self)@ == old(self)@,
            },
    {
        let _: usize = self.accounts.len();
        let label = match normalize_label(label) {
            Ok(label) => label,
            Err(error) => {
                return Err(error);
            },
        };
        let id = match self.resolve_account_id(selector) {
            Ok(id) => id,
            Err(error) => {
                return Err(error);
            },
        };
        if self.is_label_taken(id.as_str(), label.as_str()) {
            return Err(NamedAccountError::DuplicateLabel(label));
        }
        let auth = match self.accounts.get(id.as_str()) {
            Some(account) => account.auth.duplicate(),
            None => {
                return Err(NamedAccountError::NotFound(id));
            },
        };
        proof {
            crate::table::placed_found(
                self@.accounts,
                id@,
                AccountModel { label: label@, auth: auth@ },
                id@,
            );
        }
        let _ = self.accounts.insert(id.clone(), StoredAuthAccount { label, auth });
        Ok(self.tell(id.as_str()))
    }

    /// Selects another account, where that is allowed.
    pub fn switch(&mut self, selector: &str, policy: &SwitchPolicy) -> (r: Result<
        NamedAccountMetadata,
        SwitchError,
    >)
        ensures
            match r {
                Ok(metadata) => switch_problem(old(self)@, selector@, *policy) is None && {
                    let id = selected_by(old(self)@, selector@)->Ok_0;
                    final(self)@ == switched(old(self)@, id) && metadata@ == told(final(self)@, id)
                },
                Err(error) => switch_problem(old(self)@, selector@, *policy) == Some(error@)
                    && final(self)@ == old(self)@,
            },
    {
        let id = match self.resolve_account_id(selector) {
            Ok(id) => id,
            Err(error) => {
                return Err(SwitchError::Account(error));
            },
        };
        match self.accounts.get(id.as_str()) {
            Some(account) => {
                let backend = account.auth.uses_codex_backend;
                let allowed = if backend {
                    policy.chatgpt_allowed
                } else {
                    policy.api_allowed
                };
                if !allowed {
                    return Err(SwitchError::NotPermitted);
                }
                if let Some(workspaces) = &policy.workspaces {
                    if backend {
                        let inside = match account_id_from_auth(&account.auth) {
                            Some(workspace) => holds(workspaces, workspace.as_str()),
                            None => false,
                        };
                        if !inside {
                            return Err(SwitchError::OutsideWorkspace);
                        }
                    }
                }
            },
            None => {
                return Err(SwitchError::Account(NamedAccountError::NotFound(id)));
            },
        }
        self.selected_account_id = Some(id.clone());
        Ok(self.tell(id.as_str()))
    }

    /// Adds an account under a fresh identity and selects it.
    pub fn save_named(&mut self, label: &str, auth: &AuthDotJson, fresh: &str) -> (r: Result<
        NamedAccountMetadata,
        NamedAccountError,
    >)
        requires
            !listed(old(self)@.accounts, fresh@),
        ensures
            r is Err <==> trimmed(label@).len() == 0 || has_label(
                old(self)@.accounts,
                trimmed(label@),
            ),
            match r {
                Ok(metadata) => final(self)@ == added(
                    old(self)@,
                    fresh@,
                    AccountModel { label: trimmed(label@), auth: auth@ },
                ) && metadata@ == told(final(self)@, fresh@),
                Err(error) => final(self)@ == old(self)@ && error@ == if trimmed(label@).len()
                    == 0 {
                    ErrorModel::EmptyLabel
                } else {
                    ErrorModel::DuplicateLabel(trimmed(label@))
                },
            },
    {
        let _: usize = self.accounts.len();
        let label = match normalize_label(label) {
            Ok(label) => label,
            Err(error) => {
                return Err(error);
            },
        };
        if self.labelled(label.as_str()) {
            return Err(NamedAccountError::DuplicateLabel(label));
        }
        proof {
            crate::table::placed_found(
                self@.accounts,
                fresh@,
                AccountModel { label: label@, auth: auth@ },
                fresh@,
            );
        }
        let _ = self.accounts.insert(
            fresh.to_string(),
            StoredAuthAccount { label, auth: auth.duplicate() },
        );
        self.selected_account_id = Some(fresh.to_string());
        Ok(self.tell(fresh))
    }
}

/// The account comes first in a list: by its label, then by its identity.
pub open spec fn told_before(a: MetadataModel, b: MetadataModel) -> bool {
    less(a.label, b.label) || a.label == b.label && less(a.id, b.id)
}

/// What a list of accounts stands for.
pub open spec fn all_told(list: Seq<NamedAccountMetadata>) -> Seq<MetadataModel> {
    Seq::new(list.len(), |i: int| list[i]@)
}

/// No account comes before one in front of it.
pub open spec fn told_in_order(list: Seq<MetadataModel>) -> bool {
    forall|i: int, j: int|
        0 <= i < j < list.len() ==> !told_before(#[trigger] list[j], #[trigger] list[i])
}

/// What may be told of every account of a bank, in the order of the identities.
pub open spec fn tellings(bank: BankModel) -> Seq<MetadataModel> {
    Seq::new(
        bank.accounts.len(),
        |i: int| metadata_of(bank.accounts[i].0, bank.accounts[i].1, bank.selected_account_id),
    )
}

/// Whether one account comes before another.
fn is_told_before(a: &NamedAccountMetadata, b: &NamedAccountMetadata) -> (r: bool)
    ensures
        r == told_before(a@, b@),
{
    is_less(a.label.as_str(), b.label.as_str()) || same(a.label.as_str(), b.label.as_str())
        && is_less(a.id.as_str(), b.id.as_str())
}

/// The order of accounts is transitive.
proof fn told_transitive(a: MetadataModel, b: MetadataModel, c: MetadataModel)
    requires
        told_before(a, b),
        told_before(b, c),
    ensures
        told_before(a, c),
{
    if less(a.label, b.label) && less(b.label, c.label) {
        less_transitive(a.label, b.label, c.label);
    } else if a.label == b.label && b.label == c.label {
        if less(a.label, a.label) {
            less_irreflexive(a.label);
        }
        less_transitive(a.id, b.id, c.id);
    }
}

/// Of two accounts at most one comes first, and one does where their labels or identities differ.
proof fn told_total(a: MetadataModel, b: MetadataModel)
    ensures
        !(told_before(a, b) && told_before(b, a)),
        told_before(a, b) || told_before(b, a) || a.label == b.label && a.id == b.id,
{
    less_total(a.label, b.label);
    less_total(a.id, b.id);
    if told_before(a, b) && told_before(b, a) {
        told_transitive(a, b, a);
        less_irreflexive(a.label);
        less_irreflexive(a.id);
    }
}

/// Puts an account into an ordered list, behind those that do not come after it.
fn insert_told(list: &mut Vec<NamedAccountMetadata>, metadata: NamedAccountMetadata)
    requires
        told_in_order(all_told(old(list)@)),
    ensures
        told_in_order(all_told(final(list)@)),
        all_told(final(list)@).to_multiset() == all_told(old(list)@).to_multiset().insert(
            metadata@,
        ),
{
    let ghost before = all_told(list@);
    let mut at: usize = list.len();
    while at > 0 && is_told_before(&metadata, &list[at - 1])
        invariant
            at <= list@.len(),
            before == all_told(list@),
            forall|j: int| at <= j < before.len() ==> told_before(metadata@, #[trigger] before[j]),
        decreases at,
    {
        assert(before[at - 1] == list@[at - 1]@);
        at -= 1;
    }
    let ghost new = metadata@;
    proof {
        if at > 0 {
            assert(before[at - 1] == list@[at - 1]@);
        }
    }
    list.insert(at, metadata);
    proof {
        let after = all_told(list@);
        assert(after =~= before.insert(at as int, new));
        vstd::seq_lib::to_multiset_insert(before, at as int, new);
        assert forall|i: int, j: int| 0 <= i < j < after.len() implies !told_before(
            #[trigger] after[j],
            #[trigger] after[i],
        ) by {
            if i == at {
                told_total(new, before[j - 1]);
            } else if j == at {
                if told_before(new, before[i]) {
                    if i < at - 1 {
                        told_total(before[at - 1], before[i]);
                        assert(!told_before(before[at - 1], before[i]));
                        if told_before(before[i], before[at - 1]) {
                            told_transitive(new, before[i], before[at - 1]);
                        } else {
                            assert(before[i].label == before[at - 1].label && before[i].id
                                == before[at - 1].id);
                        }
                    }
                    assert(false);
                }
            } else {
                let old_i = if i < at {
                    i
                } else {
                    i - 1
                };
                let old_j = if j < at {
                    j
                } else {
                    j - 1
                };
                assert(after[i] == before[old_i] && after[j] == before[old_j]);
            }
        }
    }
}

impl StoredAuthBank {
    /// What may be told of every account, by label and then by identity.
    pub fn list(&self) -> (r: Vec<NamedAccountMetadata>)
        ensures
            told_in_order(all_told(r@)),
            all_told(r@).to_multiset() == tellings(self@).to_multiset(),
    {
        let total: usize = self.accounts.len();
        let mut out: Vec<NamedAccountMetadata> = Vec::new();
        let ghost all = tellings(self@);
        let mut i: usize = 0;
        assert(all_told(out@) =~= all.take(0));
        while i < total
            invariant
                i <= total == self.accounts@.len(),
                all == tellings(self@),
                told_in_order(all_told(out@)),
                all_told(out@).to_multiset() == all.take(i as int).to_multiset(),
            decreases total - i,
        {
            let metadata = metadata_for(
                self.accounts.key(i).as_str(),
                self.accounts.value(i),
                &self.selected_account_id,
            );
            proof {
                assert(metadata@ == all[i as int]);
                assert(all.take(i + 1) =~= all.take(i as int).push(all[i as int]));
                all.take(i as int).to_multiset_ensures();
            }
            insert_told(&mut out, metadata);
            i += 1;
        }
        assert(all.take(all.len() as int) =~= all);
        out
    }
}

} // verus!
