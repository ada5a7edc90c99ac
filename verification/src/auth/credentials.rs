//! What is stored of one account, and what may be told of it.

use vstd::prelude::*;
use vstd::string::StringExecFns;

use crate::codec::digest_hex;
use crate::codec::digest_text;
use crate::history::AccountScope;
use crate::history::ScopeModel;
use crate::table::Duplicate;
use crate::text::chars_of;
use crate::text::copy_maybe;
use crate::text::maybe;
use crate::text::same;
use crate::text::same_maybe;
use crate::text::trim;
use crate::text::trimmed;

verus! {

/// How an account authenticates.
#[derive(Clone, Copy, Debug, PartialEq, Eq, Structural)]
pub enum AuthMode {
    ApiKey,
    Chatgpt,
    ChatgptAuthTokens,
    Headers,
    AgentIdentity,
    PersonalAccessToken,
    BedrockApiKey,
    BedrockAccessKeys,
}

/// Managed Amazon Bedrock API key. It has no debug form, so that the key is not printed.
#[derive(PartialEq, Eq)]
pub struct BedrockApiKeyAuth {
    pub api_key: String,
    pub region: String,
    pub account_scope: AccountScope,
}

/// Managed Amazon Bedrock API key, with its texts as sequences of characters.
#[verifier::ext_equal]
pub struct BedrockModel {
    pub api_key: Seq<char>,
    pub region: Seq<char>,
    pub account_scope: ScopeModel,
}

impl View for BedrockApiKeyAuth {
    type V = BedrockModel;

    open spec fn view(&self) -> BedrockModel {
        BedrockModel {
            api_key: self.api_key@,
            region: self.region@,
            account_scope: self.account_scope@,
        }
    }
}

/// The account that a Bedrock API key stands for: it is named by the digest of the key.
pub open spec fn bedrock_scope(api_key: Seq<char>) -> ScopeModel {
    ScopeModel {
        local_account_id: None,
        account_id: "bedrock-api-key:"@ + digest_text(api_key),
        user_id: None,
    }
}

impl BedrockApiKeyAuth {
    /// A key for a region.
    pub fn new(api_key: String, region: String) -> (auth: Self)
        ensures
            auth@ == (BedrockModel {
                api_key: api_key@,
                region: region@,
                account_scope: bedrock_scope(api_key@),
            }),
    {
        let mut account_id = "bedrock-api-key:".to_string();
        account_id.append(digest_hex(api_key.as_str()).as_str());
        BedrockApiKeyAuth {
            api_key,
            region,
            account_scope: AccountScope { local_account_id: None, account_id, user_id: None },
        }
    }

    /// The key itself.
    pub fn api_key(&self) -> (key: &str)
        ensures
            key@ == self.api_key@,
    {
        self.api_key.as_str()
    }
}

/// The tokens of a signed-in user, with what their identity token says.
#[derive(Debug, PartialEq, Eq)]
pub struct TokenData {
    pub access_token: String,
    pub refresh_token: String,
    pub account_id: Option<String>,
    /// The identity token as it is written down.
    pub id_token: String,
    pub chatgpt_account_id: Option<String>,
    pub email: Option<String>,
    pub chatgpt_plan_type: Option<String>,
}

/// The tokens of a signed-in user, with their texts as sequences of characters.
#[verifier::ext_equal]
pub struct TokensModel {
    pub access_token: Seq<char>,
    pub refresh_token: Seq<char>,
    pub account_id: Option<Seq<char>>,
    pub id_token: Seq<char>,
    pub chatgpt_account_id: Option<Seq<char>>,
    pub email: Option<Seq<char>>,
    pub chatgpt_plan_type: Option<Seq<char>>,
}

impl View for TokenData {
    type V = TokensModel;

    open spec fn view(&self) -> TokensModel {
        TokensModel {
            access_token: self.access_token@,
            refresh_token: self.refresh_token@,
            account_id: maybe(self.account_id),
            id_token: self.id_token@,
            chatgpt_account_id: maybe(self.chatgpt_account_id),
            email: maybe(self.email),
            chatgpt_plan_type: maybe(self.chatgpt_plan_type),
        }
    }
}

/// What is stored of an agent's own identity.
#[derive(Debug, PartialEq, Eq)]
pub struct AgentIdentityAuthRecord {
    pub agent_runtime_id: String,
    pub agent_private_key: String,
    pub account_id: String,
    pub chatgpt_user_id: String,
    pub email: Option<String>,
    pub plan_type: String,
    pub chatgpt_account_is_fedramp: bool,
    pub task_id: Option<String>,
}

/// What is stored of an agent's own identity, with its texts as sequences of characters.
#[verifier::ext_equal]
pub struct RecordModel {
    pub agent_runtime_id: Seq<char>,
    pub agent_private_key: Seq<char>,
    pub account_id: Seq<char>,
    pub chatgpt_user_id: Seq<char>,
    pub email: Option<Seq<char>>,
    pub plan_type: Seq<char>,
    pub chatgpt_account_is_fedramp: bool,
    pub task_id: Option<Seq<char>>,
}

impl View for AgentIdentityAuthRecord {
    type V = RecordModel;

    open spec fn view(&self) -> RecordModel {
        RecordModel {
            agent_runtime_id: self.agent_runtime_id@,
            agent_private_key: self.agent_private_key@,
            account_id: self.account_id@,
            chatgpt_user_id: self.chatgpt_user_id@,
            email: maybe(self.email),
            plan_type: self.plan_type@,
            chatgpt_account_is_fedramp: self.chatgpt_account_is_fedramp,
            task_id: maybe(self.task_id),
        }
    }
}

/// An agent's own identity: a signed token, with the record it decodes to where it does, or a
/// record.
#[derive(Debug, PartialEq, Eq)]
pub enum AgentIdentityStorage {
    Jwt { jwt: String, decoded: Option<AgentIdentityAuthRecord> },
    Record(AgentIdentityAuthRecord),
}

/// An agent's own identity, with its texts as sequences of characters.
pub enum IdentityModel {
    Jwt { jwt: Seq<char>, decoded: Option<RecordModel> },
    Record(RecordModel),
}

/// What an optional record stands for.
pub open spec fn recorded(record: Option<AgentIdentityAuthRecord>) -> Option<RecordModel> {
    match record {
        Some(record) => Some(record@),
        None => None,
    }
}

impl View for AgentIdentityStorage {
    type V = IdentityModel;

    open spec fn view(&self) -> IdentityModel {
        match *self {
            AgentIdentityStorage::Jwt { jwt, decoded } => IdentityModel::Jwt {
                jwt: jwt@,
                decoded: recorded(decoded),
            },
            AgentIdentityStorage::Record(record) => IdentityModel::Record(record@),
        }
    }
}

/// Whether a text holds more than white space.
fn is_filled(text: &str) -> (r: bool)
    ensures
        r == (trimmed(text@).len() > 0),
{
    let content = trim(text);
    let length: usize = chars_of(content.as_str()).len();
    length > 0
}

impl AgentIdentityStorage {
    /// Whether there is anything to authenticate with: a token, or both the runtime and its key.
    pub fn has_auth_material(&self) -> (r: bool)
        ensures
            r == match self@ {
                IdentityModel::Jwt { jwt, .. } => trimmed(jwt).len() > 0,
                IdentityModel::Record(record) => trimmed(record.agent_runtime_id).len() > 0
                    && trimmed(record.agent_private_key).len() > 0,
            },
    {
        match self {
            AgentIdentityStorage::Jwt { jwt, .. } => is_filled(jwt.as_str()),
            AgentIdentityStorage::Record(record) => is_filled(record.agent_runtime_id.as_str())
                && is_filled(record.agent_private_key.as_str()),
        }
    }

    /// The record, where it is stored as one.
    pub fn as_record(&self) -> (r: Option<&AgentIdentityAuthRecord>)
        ensures
            (match r {
                Some(record) => Some(record@),
                None => None,
            }) == (match self@ {
                IdentityModel::Jwt { .. } => None,
                IdentityModel::Record(record) => Some(record),
            }),
    {
        match self {
            AgentIdentityStorage::Jwt { .. } => None,
            AgentIdentityStorage::Record(record) => Some(record),
        }
    }
}

/// The record that an identity stands for, stored or decoded.
pub open spec fn known_record(identity: Option<IdentityModel>) -> Option<RecordModel> {
    match identity {
        Some(IdentityModel::Jwt { decoded, .. }) => decoded,
        Some(IdentityModel::Record(record)) => Some(record),
        None => None,
    }
}

/// What is stored of one account.
#[derive(PartialEq, Eq)]
pub struct AuthDotJson {
    /// How the account authenticates, where that is stored.
    pub auth_mode: Option<AuthMode>,
    /// How the account authenticates, as it is resolved from what is stored.
    pub mode: AuthMode,
    /// That way of authenticating goes through the Codex backend.
    pub uses_codex_backend: bool,
    pub openai_api_key: Option<String>,
    pub tokens: Option<TokenData>,
    pub last_refresh: Option<String>,
    pub agent_identity: Option<AgentIdentityStorage>,
    pub personal_access_token: Option<String>,
    pub bedrock_api_key: Option<BedrockApiKeyAuth>,
    /// The access keys as they are written down.
    pub bedrock_access_keys: Option<String>,
}

/// What is stored of one account, with its texts as sequences of characters.
#[verifier::ext_equal]
pub struct AuthModel {
    pub auth_mode: Option<AuthMode>,
    pub mode: AuthMode,
    pub uses_codex_backend: bool,
    pub openai_api_key: Option<Seq<char>>,
    pub tokens: Option<TokensModel>,
    pub last_refresh: Option<Seq<char>>,
    pub agent_identity: Option<IdentityModel>,
    pub personal_access_token: Option<Seq<char>>,
    pub bedrock_api_key: Option<BedrockModel>,
    pub bedrock_access_keys: Option<Seq<char>>,
}

/// What optional tokens stand for.
pub open spec fn tokened(tokens: Option<TokenData>) -> Option<TokensModel> {
    match tokens {
        Some(tokens) => Some(tokens@),
        None => None,
    }
}

/// What an optional identity stands for.
pub open spec fn identified(identity: Option<AgentIdentityStorage>) -> Option<IdentityModel> {
    match identity {
        Some(identity) => Some(identity@),
        None => None,
    }
}

/// What an optional Bedrock key stands for.
pub open spec fn keyed(key: Option<BedrockApiKeyAuth>) -> Option<BedrockModel> {
    match key {
        Some(key) => Some(key@),
        None => None,
    }
}

impl View for AuthDotJson {
    type V = AuthModel;

    open spec fn view(&self) -> AuthModel {
        AuthModel {
            auth_mode: self.auth_mode,
            mode: self.mode,
            uses_codex_backend: self.uses_codex_backend,
            openai_api_key: maybe(self.openai_api_key),
            tokens: tokened(self.tokens),
            last_refresh: maybe(self.last_refresh),
            agent_identity: identified(self.agent_identity),
            personal_access_token: maybe(self.personal_access_token),
            bedrock_api_key: keyed(self.bedrock_api_key),
            bedrock_access_keys: maybe(self.bedrock_access_keys),
        }
    }
}

/// Whether two sets of tokens are the same.
fn same_tokens(a: &Option<TokenData>, b: &Option<TokenData>) -> (r: bool)
    ensures
        r == (tokened(*a) == tokened(*b)),
{
    match (a, b) {
        (Some(a), Some(b)) => same(a.access_token.as_str(), b.access_token.as_str()) && same(
            a.refresh_token.as_str(),
            b.refresh_token.as_str(),
        ) && same_maybe(&a.account_id, &b.account_id) && same(
            a.id_token.as_str(),
            b.id_token.as_str(),
        ) && same_maybe(&a.chatgpt_account_id, &b.chatgpt_account_id) && same_maybe(
            &a.email,
            &b.email,
        ) && same_maybe(&a.chatgpt_plan_type, &b.chatgpt_plan_type),
        (None, None) => true,
        _ => false,
    }
}

/// Whether two records are the same.
fn same_record(a: &AgentIdentityAuthRecord, b: &AgentIdentityAuthRecord) -> (r: bool)
    ensures
        r == (a@ == b@),
{
    same(a.agent_runtime_id.as_str(), b.agent_runtime_id.as_str()) && same(
        a.agent_private_key.as_str(),
        b.agent_private_key.as_str(),
    ) && same(a.account_id.as_str(), b.account_id.as_str()) && same(
        a.chatgpt_user_id.as_str(),
        b.chatgpt_user_id.as_str(),
    ) && same_maybe(&a.email, &b.email) && same(a.plan_type.as_str(), b.plan_type.as_str())
        && a.chatgpt_account_is_fedramp == b.chatgpt_account_is_fedramp && same_maybe(
        &a.task_id,
        &b.task_id,
    )
}

/// Whether two optional records are the same.
fn same_records(
    a: &Option<AgentIdentityAuthRecord>,
    b: &Option<AgentIdentityAuthRecord>,
) -> (r: bool)
    ensures
        r == (recorded(*a) == recorded(*b)),
{
    match (a, b) {
        (Some(a), Some(b)) => same_record(a, b),
        (None, None) => true,
        _ => false,
    }
}

/// Whether two identities are the same.
fn same_identity(a: &Option<AgentIdentityStorage>, b: &Option<AgentIdentityStorage>) -> (r: bool)
    ensures
        r == (identified(*a) == identified(*b)),
{
    match (a, b) {
        (Some(a), Some(b)) => match (a, b) {
            (
                AgentIdentityStorage::Jwt { jwt: x, decoded: p },
                AgentIdentityStorage::Jwt { jwt: y, decoded: q },
            ) => same(x.as_str(), y.as_str()) && same_records(p, q),
            (AgentIdentityStorage::Record(x), AgentIdentityStorage::Record(y)) => same_record(x, y),
            _ => false,
        },
        (None, None) => true,
        _ => false,
    }
}

/// Whether two Bedrock keys are the same.
fn same_key(a: &Option<BedrockApiKeyAuth>, b: &Option<BedrockApiKeyAuth>) -> (r: bool)
    ensures
        r == (keyed(*a) == keyed(*b)),
{
    match (a, b) {
        (Some(a), Some(b)) => same(a.api_key.as_str(), b.api_key.as_str()) && same(
            a.region.as_str(),
            b.region.as_str(),
        ) && a.account_scope.same_as(&b.account_scope),
        (None, None) => true,
        _ => false,
    }
}

/// What is stored of an account apart from the agent's own identity; how the account authenticates
/// is resolved from all of it, and so is left out as well.
pub open spec fn unidentified(auth: AuthModel) -> AuthModel {
    AuthModel {
        mode: AuthMode::ApiKey,
        uses_codex_backend: false,
        agent_identity: None,
        ..auth
    }
}

/// Whether two ways of authenticating are the same.
fn same_mode(a: &Option<AuthMode>, b: &Option<AuthMode>) -> (r: bool)
    ensures
        r == (*a == *b),
{
    match (a, b) {
        (Some(a), Some(b)) => *a == *b,
        (None, None) => true,
        _ => false,
    }
}

/// Whether what is stored of two accounts is the same, but for an agent's own identity.
fn same_but_identity(a: &AuthDotJson, b: &AuthDotJson) -> (r: bool)
    ensures
        r == (unidentified(a@) == unidentified(b@)),
{
    same_mode(&a.auth_mode, &b.auth_mode) && same_maybe(&a.openai_api_key, &b.openai_api_key)
        && same_tokens(&a.tokens, &b.tokens) && same_maybe(&a.last_refresh, &b.last_refresh)
        && same_maybe(&a.personal_access_token, &b.personal_access_token) && same_key(
        &a.bedrock_api_key,
        &b.bedrock_api_key,
    ) && same_maybe(&a.bedrock_access_keys, &b.bedrock_access_keys)
}

/// The same tokens again.
fn copy_tokens(tokens: &Option<TokenData>) -> (r: Option<TokenData>)
    ensures
        tokened(r) == tokened(*tokens),
{
    match tokens {
        Some(tokens) => Some(
            TokenData {
                access_token: tokens.access_token.clone(),
                refresh_token: tokens.refresh_token.clone(),
                account_id: copy_maybe(&tokens.account_id),
                id_token: tokens.id_token.clone(),
                chatgpt_account_id: copy_maybe(&tokens.chatgpt_account_id),
                email: copy_maybe(&tokens.email),
                chatgpt_plan_type: copy_maybe(&tokens.chatgpt_plan_type),
            },
        ),
        None => None,
    }
}

/// The same record again.
fn copy_record(record: &AgentIdentityAuthRecord) -> (r: AgentIdentityAuthRecord)
    ensures
        r@ == record@,
{
    AgentIdentityAuthRecord {
        agent_runtime_id: record.agent_runtime_id.clone(),
        agent_private_key: record.agent_private_key.clone(),
        account_id: record.account_id.clone(),
        chatgpt_user_id: record.chatgpt_user_id.clone(),
        email: copy_maybe(&record.email),
        plan_type: record.plan_type.clone(),
        chatgpt_account_is_fedramp: record.chatgpt_account_is_fedramp,
        task_id: copy_maybe(&record.task_id),
    }
}

/// The same identity again.
fn copy_identity(identity: &Option<AgentIdentityStorage>) -> (r: Option<AgentIdentityStorage>)
    ensures
        identified(r) == identified(*identity),
{
    match identity {
        Some(AgentIdentityStorage::Jwt { jwt, decoded }) => Some(
            AgentIdentityStorage::Jwt {
                jwt: jwt.clone(),
                decoded: match decoded {
                    Some(record) => Some(copy_record(record)),
                    None => None,
                },
            },
        ),
        Some(AgentIdentityStorage::Record(record)) => Some(
            AgentIdentityStorage::Record(copy_record(record)),
        ),
        None => None,
    }
}

impl Duplicate for AuthDotJson {
    fn duplicate(&self) -> (copy: Self) {
        AuthDotJson {
            auth_mode: self.auth_mode,
            mode: self.mode,
            uses_codex_backend: self.uses_codex_backend,
            openai_api_key: copy_maybe(&self.openai_api_key),
            tokens: copy_tokens(&self.tokens),
            last_refresh: copy_maybe(&self.last_refresh),
            agent_identity: copy_identity(&self.agent_identity),
            personal_access_token: copy_maybe(&self.personal_access_token),
            bedrock_api_key: match &self.bedrock_api_key {
                Some(key) => Some(
                    BedrockApiKeyAuth {
                        api_key: key.api_key.clone(),
                        region: key.region.clone(),
                        account_scope: key.account_scope.copy(),
                    },
                ),
                None => None,
            },
            bedrock_access_keys: copy_maybe(&self.bedrock_access_keys),
        }
    }
}

impl AuthDotJson {
    /// Whether what is stored of two accounts is the same.
    pub fn same_as(&self, other: &AuthDotJson) -> (r: bool)
        ensures
            r == (self@ == other@),
    {
        let alike = same_but_identity(self, other) && self.mode == other.mode
            && self.uses_codex_backend == other.uses_codex_backend;
        let identity = same_identity(&self.agent_identity, &other.agent_identity);
        proof {
            let a = self@;
            let b = other@;
            if alike && identity {
                assert(unidentified(a) == unidentified(b));
                assert(a =~= b);
            }
        }
        alike && identity
    }

    /// Whether two accounts differ at most in the agent's own identity, and in what is resolved from
    /// it.
    pub fn same_apart_from_identity(&self, other: &AuthDotJson) -> (r: bool)
        ensures
            r == (unidentified(self@) == unidentified(other@)),
    {
        same_but_identity(self, other)
    }

    /// The same credentials with another agent identity. How they authenticate stays as it was
    /// resolved; the host resolves it anew from what is stored whenever it reads the bank.
    pub fn with_identity(&self, other: &AuthDotJson) -> (r: AuthDotJson)
        ensures
            r@ == (AuthModel { agent_identity: other@.agent_identity, ..self@ }),
    {
        let mut auth = self.duplicate();
        auth.agent_identity = copy_identity(&other.agent_identity);
        auth
    }
}

/// The user is signed in with tokens.
pub open spec fn signed_in(mode: AuthMode) -> bool {
    mode == AuthMode::Chatgpt || mode == AuthMode::ChatgptAuthTokens
}

/// The provider's name for an account.
pub open spec fn account_id_of(auth: AuthModel) -> Option<Seq<char>> {
    if signed_in(auth.mode) {
        match auth.tokens {
            Some(tokens) => match tokens.account_id {
                Some(id) if id.len() > 0 => Some(id),
                _ => tokens.chatgpt_account_id,
            },
            None => None,
        }
    } else if auth.mode == AuthMode::AgentIdentity {
        match known_record(auth.agent_identity) {
            Some(record) => Some(record.account_id),
            None => None,
        }
    } else {
        None
    }
}

/// The address of an account.
pub open spec fn email_of(auth: AuthModel) -> Option<Seq<char>> {
    if signed_in(auth.mode) {
        match auth.tokens {
            Some(tokens) => tokens.email,
            None => None,
        }
    } else if auth.mode == AuthMode::AgentIdentity {
        match known_record(auth.agent_identity) {
            Some(record) => record.email,
            None => None,
        }
    } else {
        None
    }
}

/// The plan of an account.
pub open spec fn plan_of(auth: AuthModel) -> Option<Seq<char>> {
    if signed_in(auth.mode) {
        match auth.tokens {
            Some(tokens) => tokens.chatgpt_plan_type,
            None => None,
        }
    } else if auth.mode == AuthMode::AgentIdentity {
        match known_record(auth.agent_identity) {
            Some(record) => Some(record.plan_type),
            None => None,
        }
    } else {
        None
    }
}

/// The record that an identity stands for, stored or decoded.
fn record_of(identity: &Option<AgentIdentityStorage>) -> (r: Option<&AgentIdentityAuthRecord>)
    ensures
        (match r {
            Some(record) => Some(record@),
            None => None,
        }) == known_record(identified(*identity)),
{
    match identity {
        Some(AgentIdentityStorage::Jwt { decoded, .. }) => match decoded {
            Some(record) => Some(record),
            None => None,
        },
        Some(AgentIdentityStorage::Record(record)) => Some(record),
        None => None,
    }
}

/// The provider's name for an account.
pub fn account_id_from_auth(auth: &AuthDotJson) -> (r: Option<String>)
    ensures
        maybe(r) == account_id_of(auth@),
{
    match auth.mode {
        AuthMode::Chatgpt | AuthMode::ChatgptAuthTokens => {
            match &auth.tokens {
                Some(tokens) => {
                    if let Some(id) = &tokens.account_id {
                        let length: usize = chars_of(id.as_str()).len();
                        if length > 0 {
                            return Some(id.clone());
                        }
                    }
                    copy_maybe(&tokens.chatgpt_account_id)
                },
                None => None,
            }
        },
        AuthMode::AgentIdentity => match record_of(&auth.agent_identity) {
            Some(record) => Some(record.account_id.clone()),
            None => None,
        },
        _ => None,
    }
}

/// The address of an account.
pub fn email_from_auth(auth: &AuthDotJson) -> (r: Option<String>)
    ensures
        maybe(r) == email_of(auth@),
{
    match auth.mode {
        AuthMode::Chatgpt | AuthMode::ChatgptAuthTokens => match &auth.tokens {
            Some(tokens) => copy_maybe(&tokens.email),
            None => None,
        },
        AuthMode::AgentIdentity => match record_of(&auth.agent_identity) {
            Some(record) => copy_maybe(&record.email),
            None => None,
        },
        _ => None,
    }
}

/// The plan of an account.
pub fn plan_type_from_auth(auth: &AuthDotJson) -> (r: Option<String>)
    ensures
        maybe(r) == plan_of(auth@),
{
    match auth.mode {
        AuthMode::Chatgpt | AuthMode::ChatgptAuthTokens => match &auth.tokens {
            Some(tokens) => copy_maybe(&tokens.chatgpt_plan_type),
            None => None,
        },
        AuthMode::AgentIdentity => match record_of(&auth.agent_identity) {
            Some(record) => Some(record.plan_type.clone()),
            None => None,
        },
        _ => None,
    }
}

/// Credentials that hold an Amazon Bedrock API key and nothing else.
pub fn bedrock_credentials(api_key: &str, region: &str, uses_codex_backend: bool) -> (auth: AuthDotJson)
    ensures
        auth@ == (AuthModel {
            auth_mode: Some(AuthMode::BedrockApiKey),
            mode: AuthMode::BedrockApiKey,
            uses_codex_backend,
            openai_api_key: None,
            tokens: None,
            last_refresh: None,
            agent_identity: None,
            personal_access_token: None,
            bedrock_api_key: Some(
                BedrockModel {
                    api_key: api_key@,
                    region: region@,
                    account_scope: bedrock_scope(api_key@),
                },
            ),
            bedrock_access_keys: None,
        }),
{
    AuthDotJson {
        auth_mode: Some(AuthMode::BedrockApiKey),
        mode: AuthMode::BedrockApiKey,
        uses_codex_backend,
        openai_api_key: None,
        tokens: None,
        last_refresh: None,
        agent_identity: None,
        personal_access_token: None,
        bedrock_api_key: Some(BedrockApiKeyAuth::new(api_key.to_string(), region.to_string())),
        bedrock_access_keys: None,
    }
}

} // verus!
