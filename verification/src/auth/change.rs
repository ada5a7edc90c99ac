//! Whether credentials still belong to the same account.

use vstd::prelude::*;

use crate::auth::credentials::AuthMode;
use crate::history::scoped;
use crate::history::AccountScope;
use crate::history::ScopeModel;
use crate::text::chars_of;
use crate::text::maybe;
use crate::text::same_maybe;
use crate::text::trim;
use crate::text::trimmed;

verus! {

/// Credentials in use, with what ownership depends on.
#[derive(Debug, PartialEq, Eq)]
pub struct CodexAuth {
    /// The form of the credentials.
    pub kind: AuthMode,
    /// How requests with them authenticate.
    pub api_auth_mode: AuthMode,
    /// The account that server state belongs to, where the credentials name one.
    pub account_scope: Option<AccountScope>,
    pub chatgpt_user_id: Option<String>,
    pub account_id: Option<String>,
    /// What tells two credentials of the same form apart: the key, the stored credentials, the
    /// tokens, the headers or the record.
    pub material: Option<String>,
}

/// Credentials in use, with their texts as sequences of characters.
#[verifier::ext_equal]
pub struct CodexAuthModel {
    pub kind: AuthMode,
    pub api_auth_mode: AuthMode,
    pub account_scope: Option<ScopeModel>,
    pub chatgpt_user_id: Option<Seq<char>>,
    pub account_id: Option<Seq<char>>,
    pub material: Option<Seq<char>>,
}

impl View for CodexAuth {
    type V = CodexAuthModel;

    open spec fn view(&self) -> CodexAuthModel {
        CodexAuthModel {
            kind: self.kind,
            api_auth_mode: self.api_auth_mode,
            account_scope: scoped(self.account_scope),
            chatgpt_user_id: maybe(self.chatgpt_user_id),
            account_id: maybe(self.account_id),
            material: maybe(self.material),
        }
    }
}

/// What optional credentials stand for.
pub open spec fn used(auth: Option<&CodexAuth>) -> Option<CodexAuthModel> {
    match auth {
        Some(auth) => Some(auth@),
        None => None,
    }
}

/// A text that holds more than white space.
pub open spec fn filled(text: Option<Seq<char>>) -> bool {
    text is Some && trimmed(text->0).len() > 0
}

/// The same user in the same workspace authenticates in the same way; credentials without a full
/// identity belong to no known owner.
pub open spec fn owned_alike(previous: Option<CodexAuthModel>, current: Option<CodexAuthModel>) -> bool {
    match (previous, current) {
        (Some(a), Some(b)) => {
            &&& a.api_auth_mode == b.api_auth_mode
            &&& filled(a.chatgpt_user_id) && filled(a.account_id)
            &&& b.chatgpt_user_id == a.chatgpt_user_id && b.account_id == a.account_id
        },
        _ => false,
    }
}

/// Server state of the one can be used with the other: the accounts they name decide where either
/// names one; otherwise they have the same owner, or are the same credentials.
pub open spec fn same_account(a: CodexAuthModel, b: CodexAuthModel) -> bool {
    if a.account_scope is Some || b.account_scope is Some {
        a.account_scope == b.account_scope
    } else {
        owned_alike(Some(a), Some(b)) || a.kind == b.kind && a.material == b.material
    }
}

/// Whether a text holds more than white space.
fn is_filled(text: &Option<String>) -> (r: bool)
    ensures
        r == filled(maybe(*text)),
{
    match text {
        Some(text) => {
            let length: usize = chars_of(trim(text.as_str()).as_str()).len();
            length > 0
        },
        None => false,
    }
}

/// Whether the same user in the same workspace authenticates in the same way.
pub fn same_owner(previous: Option<&CodexAuth>, current: Option<&CodexAuth>) -> (r: bool)
    ensures
        r == owned_alike(used(previous), used(current)),
{
    match (previous, current) {
        (Some(a), Some(b)) => a.api_auth_mode == b.api_auth_mode && is_filled(&a.chatgpt_user_id)
            && is_filled(&a.account_id) && same_maybe(&b.chatgpt_user_id, &a.chatgpt_user_id)
            && same_maybe(&b.account_id, &a.account_id),
        _ => false,
    }
}

impl CodexAuth {
    /// Whether request-scoped server state can be reused with these credentials.
    pub fn same_account_as(&self, other: &Self) -> (r: bool)
        ensures
            r == same_account(self@, other@),
    {
        match (&self.account_scope, &other.account_scope) {
            (Some(previous), Some(current)) => {
                return previous.same_as(current);
            },
            (Some(_), None) => {
                return false;
            },
            (None, Some(_)) => {
                return false;
            },
            (None, None) => {},
        }
        if same_owner(Some(self), Some(other)) {
            return true;
        }
        self.kind == other.kind && same_maybe(&self.material, &other.material)
    }
}

/// Belonging to the same account is mutual.
pub proof fn same_account_is_mutual(a: CodexAuthModel, b: CodexAuthModel)
    ensures
        same_account(a, b) == same_account(b, a),
{
}

/// Credentials that name an account share state only with credentials that name the same one.
pub proof fn named_accounts_do_not_mix(a: CodexAuthModel, b: CodexAuthModel)
    requires
        a.account_scope is Some,
        same_account(a, b),
    ensures
        b.account_scope == a.account_scope,
{
}

/// Revisions local to one holder of credentials.
#[derive(Clone, Copy, Debug, PartialEq, Eq, Structural)]
pub struct AuthChangeState {
    /// Advances whenever cached credentials change.
    pub generation: u64,
    /// Advances on login, logout, or changes of user, workspace, or way of authenticating.
    /// Credential changes with incomplete owner identity also advance this revision.
    pub owner_generation: u64,
}

impl Default for AuthChangeState {
    fn default() -> (state: Self)
        ensures
            state.generation == 0,
            state.owner_generation == 0,
    {
        AuthChangeState { generation: 0, owner_generation: 0 }
    }
}

} // verus!
