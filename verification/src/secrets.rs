//! Secrets kept in encrypted files that share one key.

use vstd::prelude::*;
use vstd::string::StringExecFns;

use crate::storage::path_join;
use crate::storage::path_of;
use crate::table::Table;
use crate::table::ascending;
use crate::table::dropped;
use crate::table::dropped_gone;
use crate::table::listed;
use crate::table::lookup;
use crate::table::placed;
use crate::table::placed_found;
use crate::text::byte_count;
use crate::text::bytes_of;
use crate::text::decimal;
use crate::text::decimal_of;
use crate::text::joined;
use crate::text::same;
use crate::text::split;
use crate::text::split_on;
use crate::text::texts;

verus! {

/// The version of a secrets file's form.
pub const SECRETS_VERSION: u8 = 1;

/// Selects the encrypted file that secrets are kept in.
#[derive(Clone, Copy, Debug, PartialEq, Eq, Structural)]
pub enum LocalSecretsNamespace {
    /// General managed secrets stored in `local.age`.
    ManagedSecrets,
    /// Authentication credentials used by the CLI, TUI, app server, and other clients.
    CodexAuth,
    /// OAuth credentials for external MCP servers.
    McpOAuth,
}

impl Default for LocalSecretsNamespace {
    fn default() -> (namespace: Self)
        ensures
            namespace == LocalSecretsNamespace::ManagedSecrets,
    {
        LocalSecretsNamespace::ManagedSecrets
    }
}

/// The file of a namespace.
pub open spec fn filename_of(namespace: LocalSecretsNamespace) -> Seq<char> {
    match namespace {
        LocalSecretsNamespace::ManagedSecrets => "local.age"@,
        LocalSecretsNamespace::CodexAuth => "codex_auth.age"@,
        LocalSecretsNamespace::McpOAuth => "mcp_oauth.age"@,
    }
}

/// Where the file of a namespace stands.
pub open spec fn secrets_path_of(home: Seq<char>, namespace: LocalSecretsNamespace) -> Seq<char> {
    path_of(path_of(home, "secrets"@), filename_of(namespace))
}

/// The directory of the secrets files.
pub fn secrets_dir(codex_home: &str) -> (path: String)
    ensures
        path@ == path_of(codex_home@, "secrets"@),
{
    path_join(codex_home, "secrets")
}

/// Where the file of a namespace stands.
pub fn secrets_path(codex_home: &str, namespace: LocalSecretsNamespace) -> (path: String)
    ensures
        path@ == secrets_path_of(codex_home@, namespace),
{
    let name = match namespace {
        LocalSecretsNamespace::ManagedSecrets => "local.age",
        LocalSecretsNamespace::CodexAuth => "codex_auth.age",
        LocalSecretsNamespace::McpOAuth => "mcp_oauth.age",
    };
    path_join(secrets_dir(codex_home).as_str(), name)
}

/// Two namespaces have two files.
pub proof fn namespaces_have_separate_files(
    home: Seq<char>,
    a: LocalSecretsNamespace,
    b: LocalSecretsNamespace,
)
    requires
        a != b,
    ensures
        secrets_path_of(home, a) != secrets_path_of(home, b),
{
    reveal_strlit("local.age");
    reveal_strlit("codex_auth.age");
    reveal_strlit("mcp_oauth.age");
    let dir = path_of(home, "secrets"@);
    let x = secrets_path_of(home, a);
    let y = secrets_path_of(home, b);
    let from = x.len() - filename_of(a).len();
    if filename_of(a).len() == filename_of(b).len() {
        assert(x[from] == filename_of(a)[0]);
        assert(y[from] == filename_of(b)[0]);
    }
}

/// What a secret belongs to.
#[derive(Debug, PartialEq, Eq)]
pub enum SecretScope {
    Global,
    /// One environment, by its identity.
    Environment(String),
}

/// What a secret belongs to, with its text as a sequence of characters.
pub enum SecretScopeModel {
    Global,
    Environment(Seq<char>),
}

impl View for SecretScope {
    type V = SecretScopeModel;

    open spec fn view(&self) -> SecretScopeModel {
        match *self {
            SecretScope::Global => SecretScopeModel::Global,
            SecretScope::Environment(id) => SecretScopeModel::Environment(id@),
        }
    }
}

/// A secret, without its value.
#[derive(Debug, PartialEq, Eq)]
pub struct SecretListEntry {
    pub scope: SecretScope,
    pub name: String,
}

/// A secret without its value, with its texts as sequences of characters.
pub struct EntryModel {
    pub scope: SecretScopeModel,
    pub name: Seq<char>,
}

impl View for SecretListEntry {
    type V = EntryModel;

    open spec fn view(&self) -> EntryModel {
        EntryModel { scope: self.scope@, name: self.name@ }
    }
}

/// What an optional entry stands for.
pub open spec fn entered(entry: Option<SecretListEntry>) -> Option<EntryModel> {
    match entry {
        Some(entry) => Some(entry@),
        None => None,
    }
}

/// The key that a secret is kept under.
pub open spec fn canonical_key_of(scope: SecretScopeModel, name: Seq<char>) -> Seq<char> {
    match scope {
        SecretScopeModel::Global => "global/"@ + name,
        SecretScopeModel::Environment(id) => "env/"@ + id + "/"@ + name,
    }
}

/// The key that a secret is kept under.
pub fn canonical_key(scope: &SecretScope, name: &str) -> (key: String)
    ensures
        key@ == canonical_key_of(scope@, name@),
{
    match scope {
        SecretScope::Global => {
            let mut key = "global/".to_string();
            key.append(name);
            key
        },
        SecretScope::Environment(id) => {
            let mut key = "env/".to_string();
            key.append(id.as_str());
            key.append("/");
            key.append(name);
            key
        },
    }
}

/// The secret that a key has the form of, where it has one.
pub open spec fn form_of(key: Seq<char>) -> Option<EntryModel> {
    let parts = split_on(key, '/');
    if parts.len() == 2 && parts[0] == "global"@ {
        Some(EntryModel { scope: SecretScopeModel::Global, name: parts[1] })
    } else if parts.len() == 3 && parts[0] == "env"@ {
        Some(EntryModel { scope: SecretScopeModel::Environment(parts[1]), name: parts[2] })
    } else {
        None
    }
}

/// The secret that a key stands for: the one that it has the form of, where that has a valid name
/// and a valid environment.
pub open spec fn entry_of(key: Seq<char>, valid: bool) -> Option<EntryModel> {
    if valid {
        form_of(key)
    } else {
        None
    }
}

/// The secret that a key has the form of, where it has one. What is valid as a name and as an
/// environment, the host says.
pub fn key_form(key: &str) -> (r: Option<SecretListEntry>)
    ensures
        entered(r) == form_of(key@),
{
    let parts = split(key, '/');
    assert(texts(parts@)[0] == parts@[0]@);
    if parts.len() == 2 && same(parts[0].as_str(), "global") {
        assert(texts(parts@)[1] == parts@[1]@);
        return Some(SecretListEntry { scope: SecretScope::Global, name: parts[1].clone() });
    }
    if parts.len() == 3 && same(parts[0].as_str(), "env") {
        assert(texts(parts@)[1] == parts@[1]@);
        assert(texts(parts@)[2] == parts@[2]@);
        return Some(
            SecretListEntry {
                scope: SecretScope::Environment(parts[1].clone()),
                name: parts[2].clone(),
            },
        );
    }
    None
}

/// The secret that a key stands for. `valid` is what the host says of the name and the environment
/// of the secret that the key has the form of; it does not matter where the key has no such form.
pub fn parse_canonical_key(key: &str, valid: bool) -> (r: Option<SecretListEntry>)
    ensures
        entered(r) == entry_of(key@, valid),
{
    if valid {
        key_form(key)
    } else {
        None
    }
}

/// A text without slashes.
pub open spec fn slashless(s: Seq<char>) -> bool {
    forall|i: int| 0 <= i < s.len() ==> s[i] != '/'
}

/// Splitting what follows a separator.
proof fn split_concat(head: Seq<char>, tail: Seq<char>)
    requires
        slashless(tail),
    ensures
        split_on(head + seq!['/'] + tail, '/') == split_on(head, '/').push(tail),
    decreases tail.len(),
{
    let whole = head + seq!['/'] + tail;
    if tail.len() == 0 {
        assert(whole.drop_last() == head);
        assert(tail == Seq::<char>::empty());
    } else {
        let less = tail.drop_last();
        assert(whole.drop_last() == head + seq!['/'] + less);
        split_concat(head, less);
        assert(whole.last() == tail.last());
        let before = split_on(head, '/').push(less);
        assert(before.drop_last() == split_on(head, '/'));
        assert(less.push(tail.last()) == tail);
    }
}

/// A text without slashes is one part.
proof fn split_whole(s: Seq<char>)
    requires
        slashless(s),
    ensures
        split_on(s, '/') == seq![s],
    decreases s.len(),
{
    if s.len() == 0 {
        assert(s == Seq::<char>::empty());
    } else {
        split_whole(s.drop_last());
        assert(s.drop_last().push(s.last()) == s);
        assert(seq![s.drop_last()].drop_last().push(s.drop_last().push(s.last())) =~= seq![s]);
    }
}

/// The key of a secret stands for that secret, where neither the name nor the environment has a
/// slash in it.
pub proof fn keys_stand_for_their_secrets(scope: SecretScopeModel, name: Seq<char>)
    requires
        slashless(name),
        scope matches SecretScopeModel::Environment(id) ==> slashless(id),
    ensures
        entry_of(canonical_key_of(scope, name), true) == Some(EntryModel { scope, name }),
{
    reveal_strlit("global/");
    reveal_strlit("global");
    reveal_strlit("env/");
    reveal_strlit("env");
    reveal_strlit("/");
    match scope {
        SecretScopeModel::Global => {
            assert("global/"@ =~= "global"@ + seq!['/']);
            assert("global/"@ + name =~= "global"@ + seq!['/'] + name);
            split_concat("global"@, name);
            split_whole("global"@);
        },
        SecretScopeModel::Environment(id) => {
            assert("/"@ =~= seq!['/']);
            assert("env/"@ =~= "env"@ + seq!['/']);
            let head = "env"@ + seq!['/'] + id;
            assert("env/"@ + id + "/"@ + name =~= head + seq!['/'] + name);
            split_concat(head, name);
            split_concat("env"@, id);
            split_whole("env"@);
        },
    }
}

/// The secrets of one namespace, under their keys.
#[derive(PartialEq, Eq)]
pub struct SecretsFile {
    pub version: u8,
    pub secrets: Table<String>,
}

/// The secrets of one namespace, with their texts as sequences of characters.
#[verifier::ext_equal]
pub struct SecretsModel {
    pub version: u8,
    pub secrets: Seq<(Seq<char>, Seq<char>)>,
}

impl View for SecretsFile {
    type V = SecretsModel;

    open spec fn view(&self) -> SecretsModel {
        SecretsModel { version: self.version, secrets: self.secrets@ }
    }
}

/// What an optional reference to a text holds.
pub open spec fn text_at(text: Option<&String>) -> Option<Seq<char>> {
    match text {
        Some(text) => Some(text@),
        None => None,
    }
}

/// What the host says of a key; one that it was not asked about is not valid.
pub open spec fn valid_at(valid: Seq<bool>, i: int) -> bool {
    i < valid.len() && valid[i]
}

/// The entries whose key stands for a secret and, where a scope is given, one of that scope.
pub open spec fn entries_of(
    secrets: Seq<(Seq<char>, Seq<char>)>,
    valid: Seq<bool>,
    scope: Option<SecretScopeModel>,
    n: nat,
) -> Seq<EntryModel>
    decreases n,
{
    if n == 0 || n > secrets.len() {
        Seq::empty()
    } else {
        let before = entries_of(secrets, valid, scope, (n - 1) as nat);
        match entry_of(secrets[n - 1].0, valid_at(valid, n - 1)) {
            Some(entry) => if scope is None || scope == Some(entry.scope) {
                before.push(entry)
            } else {
                before
            },
            None => before,
        }
    }
}

/// What an optional reference to a scope stands for.
pub open spec fn scope_at(scope: Option<&SecretScope>) -> Option<SecretScopeModel> {
    match scope {
        Some(scope) => Some(scope@),
        None => None,
    }
}

/// What a list of entries stands for.
pub open spec fn entries(list: Seq<SecretListEntry>) -> Seq<EntryModel> {
    Seq::new(list.len(), |i: int| list[i]@)
}

/// Whether two scopes are the same.
fn same_scope(a: &SecretScope, b: &SecretScope) -> (r: bool)
    ensures
        r == (a@ == b@),
{
    match (a, b) {
        (SecretScope::Global, SecretScope::Global) => true,
        (SecretScope::Environment(a), SecretScope::Environment(b)) => same(
            a.as_str(),
            b.as_str(),
        ),
        _ => false,
    }
}

impl SecretsFile {
    /// A file without secrets.
    pub fn new_empty() -> (file: Self)
        ensures
            file@ == (SecretsModel { version: SECRETS_VERSION, secrets: Seq::empty() }),
    {
        SecretsFile { version: SECRETS_VERSION, secrets: Table::new() }
    }

    /// Keeps a secret, in place of what was kept under its name.
    pub fn set(&mut self, scope: &SecretScope, name: &str, value: &str) -> (r: Result<(), String>)
        ensures
            r is Err <==> value@.len() == 0,
            match r {
                Ok(()) => final(self)@ == (SecretsModel {
                    secrets: placed(old(self)@.secrets, canonical_key_of(scope@, name@), value@),
                    ..old(self)@
                }),
                Err(error) => final(self)@ == old(self)@ && error@
                    == "secret value must not be empty"@,
            },
    {
        let length: usize = byte_count(value);
        proof {
            assert(value@.len() > 0 ==> bytes_of(value@) > 0);
        }
        if length == 0 {
            return Err("secret value must not be empty".to_string());
        }
        let _ = self.secrets.insert(canonical_key(scope, name), value.to_string());
        Ok(())
    }

    /// The value of a secret.
    pub fn get(&self, scope: &SecretScope, name: &str) -> (r: Option<&String>)
        ensures
            text_at(r) == lookup(self@.secrets, canonical_key_of(scope@, name@)),
    {
        self.secrets.get(canonical_key(scope, name).as_str())
    }

    /// Forgets a secret. Says whether it was kept, and the file has to be written.
    pub fn delete(&mut self, scope: &SecretScope, name: &str) -> (removed: bool)
        ensures
            removed == listed(old(self)@.secrets, canonical_key_of(scope@, name@)),
            final(self)@ == (SecretsModel {
                secrets: dropped(old(self)@.secrets, canonical_key_of(scope@, name@)),
                ..old(self)@
            }),
    {
        self.secrets.remove(canonical_key(scope, name).as_str()).is_some()
    }

    /// The secrets kept, in the order of their keys, of one scope or of all. `valid` is what the host
    /// says of each key in that order: whether the secret that it has the form of has a valid name
    /// and a valid environment. A key that stands for no secret is passed over.
    pub fn list(&self, scope_filter: Option<&SecretScope>, valid: &Vec<bool>) -> (r: Vec<
        SecretListEntry,
    >)
        ensures
            entries(r@) == entries_of(
                self@.secrets,
                valid@,
                scope_at(scope_filter),
                self@.secrets.len(),
            ),
    {
        let total: usize = self.secrets.len();
        let mut out: Vec<SecretListEntry> = Vec::new();
        let mut i: usize = 0;
        assert(entries(out@) =~= entries_of(self@.secrets, valid@, scope_at(scope_filter), 0));
        while i < total
            invariant
                i <= total == self.secrets@.len(),
                entries(out@) == entries_of(
                    self@.secrets,
                    valid@,
                    scope_at(scope_filter),
                    i as nat,
                ),
            decreases total - i,
        {
            let known = i < valid.len() && valid[i];
            if let Some(entry) = parse_canonical_key(self.secrets.key(i).as_str(), known) {
                let wanted = match scope_filter {
                    Some(scope) => same_scope(scope, &entry.scope),
                    None => true,
                };
                if wanted {
                    assert(entries(out@.push(entry)) =~= entries(out@).push(entry@));
                    out.push(entry);
                }
            }
            i += 1;
        }
        out
    }
}

/// Why a file of this version cannot be read, if it cannot.
pub open spec fn version_problem(version: u8) -> Option<Seq<char>> {
    if version > SECRETS_VERSION {
        Some(
            "secrets file version "@ + decimal_of(version as nat)
                + " is newer than supported version "@ + decimal_of(SECRETS_VERSION as nat),
        )
    } else {
        None
    }
}

/// The version that a file of this version is read as; one that does not say is taken for the
/// first.
pub fn settle_version(version: u8) -> (r: Result<u8, String>)
    ensures
        match r {
            Ok(settled) => version_problem(version) is None && settled == SECRETS_VERSION,
            Err(error) => version_problem(version) == Some(error@),
        },
{
    if version > SECRETS_VERSION {
        let mut error = "secrets file version ".to_string();
        error.append(decimal(version as u64).as_str());
        error.append(" is newer than supported version ");
        error.append(decimal(SECRETS_VERSION as u64).as_str());
        return Err(error);
    }
    Ok(SECRETS_VERSION)
}

/// What was kept is found again, a later value in place of an earlier one; what was forgotten is
/// not; and neither changes any other secret.
pub proof fn secrets_are_found_again(
    file: SecretsModel,
    key: Seq<char>,
    value: Seq<char>,
    other: Seq<char>,
)
    requires
        ascending(file.secrets),
    ensures
        lookup(placed(file.secrets, key, value), key) == Some(value),
        lookup(dropped(file.secrets, key), key) is None,
        other != key ==> lookup(placed(file.secrets, key, value), other) == lookup(
            file.secrets,
            other,
        ) && lookup(dropped(file.secrets, key), other) == lookup(file.secrets, other),
{
    placed_found(file.secrets, key, value, other);
    dropped_gone(file.secrets, key, other);
}

/// Files of this version and of earlier ones are read, and newer ones are not.
pub proof fn newer_files_are_not_read(version: u8)
    ensures
        version_problem(version) is Some <==> version > 1,
{
}

/// Secrets are listed exactly when the host takes their key for valid, the key has the form of one, and
/// it is of the scope that is asked for, where one is.
pub proof fn valid_secrets_are_listed(
    secrets: Seq<(Seq<char>, Seq<char>)>,
    valid: Seq<bool>,
    scope: Option<SecretScopeModel>,
    n: nat,
    entry: EntryModel,
)
    requires
        n <= secrets.len(),
    ensures
        entries_of(secrets, valid, scope, n).contains(entry) <==> (scope is None || scope == Some(
            entry.scope,
        )) && exists|i: int|
            0 <= i < n && i < valid.len() && valid[i] && form_of((#[trigger] secrets[i]).0) == Some(
                entry,
            ),
    decreases n,
{
    if n > 0 {
        let before = entries_of(secrets, valid, scope, (n - 1) as nat);
        let after = entries_of(secrets, valid, scope, n);
        valid_secrets_are_listed(secrets, valid, scope, (n - 1) as nat, entry);
        if before.contains(entry) {
            let k = choose|k: int| 0 <= k < before.len() && before[k] == entry;
            assert(after[k] == entry);
        }
        if after != before {
            assert(after[before.len() as int] == form_of(secrets[n - 1].0)->0);
            if after.contains(entry) && !before.contains(entry) {
                let k = choose|k: int| 0 <= k < after.len() && after[k] == entry;
                assert(k == before.len()) by {
                    if k < before.len() {
                        assert(before[k] == entry);
                    }
                }
                assert(form_of(secrets[n - 1].0) == Some(entry));
            }
        }
        if n - 1 < valid.len() && valid[n - 1] && form_of(secrets[n - 1].0) == Some(entry) && (scope
            is None || scope == Some(entry.scope)) {
            assert(after == before.push(entry));
            assert(after[before.len() as int] == entry);
        }
    }
}

/// Each namespace has its file in the directory of secrets, and each secret its key: `global/` or `env/`
/// with the environment, and the name.
pub proof fn secrets_have_their_place(home: Seq<char>, id: Seq<char>, name: Seq<char>)
    ensures
        secrets_path_of(home, LocalSecretsNamespace::ManagedSecrets) == path_of(
            path_of(home, "secrets"@),
            "local.age"@,
        ),
        secrets_path_of(home, LocalSecretsNamespace::CodexAuth) == path_of(
            path_of(home, "secrets"@),
            "codex_auth.age"@,
        ),
        secrets_path_of(home, LocalSecretsNamespace::McpOAuth) == path_of(
            path_of(home, "secrets"@),
            "mcp_oauth.age"@,
        ),
        canonical_key_of(SecretScopeModel::Global, name) == "global/"@ + name,
        canonical_key_of(SecretScopeModel::Environment(id), name) == "env/"@ + id + "/"@ + name,
{
}

/// A text is its parts with the separator between them.
proof fn parts_make_the_text(s: Seq<char>, c: char)
    ensures
        split_on(s, c).len() > 0,
        joined(split_on(s, c), seq![c]) == s,
    decreases s.len(),
{
    reveal_with_fuel(joined, 2);
    if s.len() > 0 {
        let head = s.drop_last();
        let before = split_on(head, c);
        parts_make_the_text(head, c);
        assert(head.push(s.last()) =~= s);
        if s.last() == c {
            assert(before.push(Seq::empty()).drop_last() =~= before);
            assert(joined(before, seq![c]) + seq![c] + Seq::<char>::empty() =~= s);
        } else {
            let after = before.drop_last().push(before.last().push(s.last()));
            assert(after.drop_last() =~= before.drop_last());
            if before.len() == 1 {
                assert(after[0] =~= s);
            } else {
                let lead = joined(before.drop_last(), seq![c]) + seq![c];
                assert(lead + before.last().push(s.last()) =~= (lead + before.last()).push(
                    s.last(),
                ));
            }
        }
    }
}

/// A key that has the form of a secret is the key of that secret.
pub proof fn forms_belong_to_their_keys(key: Seq<char>)
    ensures
        form_of(key) matches Some(entry) ==> canonical_key_of(entry.scope, entry.name) == key,
{
    let parts = split_on(key, '/');
    let slash = seq!['/'];
    parts_make_the_text(key, '/');
    reveal_with_fuel(joined, 4);
    reveal_strlit("global");
    reveal_strlit("env");
    reveal_strlit("global/");
    reveal_strlit("env/");
    reveal_strlit("/");
    if form_of(key) is Some {
        if parts.len() == 2 {
            assert(parts.drop_last() =~= seq![parts[0]]);
            assert(joined(parts, slash) =~= parts[0] + slash + parts[1]);
            assert("global"@ + slash + parts[1] =~= "global/"@ + parts[1]);
        } else {
            let two = parts.drop_last();
            assert(two =~= seq![parts[0], parts[1]]);
            assert(two.drop_last() =~= seq![parts[0]]);
            assert(joined(two, slash) =~= parts[0] + slash + parts[1]);
            assert(joined(parts, slash) =~= parts[0] + slash + parts[1] + slash + parts[2]);
            assert("env"@ + slash + parts[1] + slash + parts[2] =~= "env/"@ + parts[1] + "/"@
                + parts[2]);
        }
    }
}

} // verus!
