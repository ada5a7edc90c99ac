//! The bank that holds several accounts under stable local identities, one of them selected.

use vstd::prelude::*;
use vstd::string::StringExecFns;

use crate::auth::credentials::AuthDotJson;
use crate::auth::credentials::AuthModel;
use crate::auth::credentials::unidentified;
use crate::codec::digest_hex;
use crate::codec::digest_text;
use crate::codec::hex_padded;
use crate::codec::padded_digits;
use crate::codec::padded_hex;
use crate::codec::random_u128;
use crate::codec::random_u64;
use crate::json::Json;
use crate::json::JsonModel;
use crate::json::member;
use crate::json::read_json;
use crate::json::read_of;
use crate::storage::path_join;
use crate::storage::path_of;
use crate::table::Duplicate;
use crate::table::Table;
use crate::table::ascending;
use crate::table::dropped;
use crate::table::listed;
use crate::table::listed_iff;
use crate::table::lookup;
use crate::table::placed;
use crate::text::chars_of;
use crate::text::copy_maybe;
use crate::text::decimal;
use crate::text::decimal_injective;
use crate::text::decimal_of;
use crate::text::maybe;
use crate::text::same;
use crate::text::text_of;
use crate::text::trim;
use crate::text::trimmed;
use crate::text::wide_decimal;

verus! {

/// The local identity of the account that comes from credentials stored without a bank.
pub const LEGACY_ACCOUNT_ID: &'static str = "legacy";

/// The version of the bank's form.
pub const AUTH_BANK_VERSION: u8 = 1;

/// The name of the file that is written when credentials changed.
pub const AUTH_CHANGE_FILE: &'static str = "auth.change";

/// A stored account: the name its user gave it, and its credentials.
#[derive(PartialEq, Eq)]
pub struct StoredAuthAccount {
    pub label: String,
    pub auth: AuthDotJson,
}

/// A stored account, with its texts as sequences of characters.
#[verifier::ext_equal]
pub struct AccountModel {
    pub label: Seq<char>,
    pub auth: AuthModel,
}

impl View for StoredAuthAccount {
    type V = AccountModel;

    open spec fn view(&self) -> AccountModel {
        AccountModel { label: self.label@, auth: self.auth@ }
    }
}

impl Duplicate for StoredAuthAccount {
    fn duplicate(&self) -> (copy: Self) {
        StoredAuthAccount { label: self.label.clone(), auth: self.auth.duplicate() }
    }
}

/// The accounts under their local identities, and the one that is used.
#[derive(PartialEq, Eq)]
pub struct StoredAuthBank {
    pub version: u8,
    pub selected_account_id: Option<String>,
    pub accounts: Table<StoredAuthAccount>,
}

/// The accounts under their local identities, with their texts as sequences of characters.
#[verifier::ext_equal]
pub struct BankModel {
    pub version: u8,
    pub selected_account_id: Option<Seq<char>>,
    pub accounts: Seq<(Seq<char>, AccountModel)>,
}

impl View for StoredAuthBank {
    type V = BankModel;

    open spec fn view(&self) -> BankModel {
        BankModel {
            version: self.version,
            selected_account_id: maybe(self.selected_account_id),
            accounts: self.accounts@,
        }
    }
}

/// One account taken out of the bank.
#[derive(PartialEq, Eq)]
pub struct StoredAuthSnapshot {
    pub account_id: String,
    pub label: String,
    pub auth: AuthDotJson,
}

/// One account taken out of the bank, with its texts as sequences of characters.
#[verifier::ext_equal]
pub struct SnapshotModel {
    pub account_id: Seq<char>,
    pub label: Seq<char>,
    pub auth: AuthModel,
}

impl View for StoredAuthSnapshot {
    type V = SnapshotModel;

    open spec fn view(&self) -> SnapshotModel {
        SnapshotModel { account_id: self.account_id@, label: self.label@, auth: self.auth@ }
    }
}

/// What an optional snapshot stands for.
pub open spec fn taken(snapshot: Option<StoredAuthSnapshot>) -> Option<SnapshotModel> {
    match snapshot {
        Some(snapshot) => Some(snapshot@),
        None => None,
    }
}

/// A label as it is kept: not empty, and without white space at either end.
pub open spec fn normal_label(label: Seq<char>) -> bool {
    label.len() > 0 && trimmed(label) == label
}

/// Some account has the label.
pub open spec fn has_label(accounts: Seq<(Seq<char>, AccountModel)>, label: Seq<char>) -> bool {
    exists|i: int| 0 <= i < accounts.len() && (#[trigger] accounts[i]).1.label == label
}

/// Two accounts have different labels.
pub open spec fn distinct_labels(accounts: Seq<(Seq<char>, AccountModel)>) -> bool {
    forall|i: int, j: int|
        0 <= i < j < accounts.len() ==> (#[trigger] accounts[i]).1.label != (
        #[trigger] accounts[j]).1.label
}

/// Every identity and every label is as it is kept.
pub open spec fn normal_entries(accounts: Seq<(Seq<char>, AccountModel)>) -> bool {
    forall|i: int|
        0 <= i < accounts.len() ==> (#[trigger] accounts[i]).0.len() > 0 && normal_label(
            accounts[i].1.label,
        )
}

/// The selected account is there.
pub open spec fn selection_exists(bank: BankModel) -> bool {
    bank.selected_account_id matches Some(id) ==> listed(bank.accounts, id)
}

/// The bank is as it is kept: of this version, with a selected account that is there and with
/// normal labels, none of which occurs twice.
pub open spec fn well_formed(bank: BankModel) -> bool {
    &&& bank.version == AUTH_BANK_VERSION
    &&& selection_exists(bank)
    &&& ascending(bank.accounts)
    &&& normal_entries(bank.accounts)
    &&& distinct_labels(bank.accounts)
}

/// A bank without accounts.
pub open spec fn empty_bank() -> BankModel {
    BankModel { version: AUTH_BANK_VERSION, selected_account_id: None, accounts: Seq::empty() }
}

/// A bank with the one account that was stored without a bank.
pub open spec fn legacy_bank(auth: AuthModel) -> BankModel {
    BankModel {
        version: AUTH_BANK_VERSION,
        selected_account_id: Some("legacy"@),
        accounts: placed(Seq::empty(), "legacy"@, AccountModel { label: "default"@, auth }),
    }
}

/// One account taken out of a bank.
pub open spec fn snapshot_of(bank: BankModel, id: Seq<char>) -> Option<SnapshotModel> {
    match lookup(bank.accounts, id) {
        Some(account) => Some(
            SnapshotModel { account_id: id, label: account.label, auth: account.auth },
        ),
        None => None,
    }
}

/// The selected account taken out of a bank.
pub open spec fn selected_of(bank: BankModel) -> Option<SnapshotModel> {
    match bank.selected_account_id {
        Some(id) => snapshot_of(bank, id),
        None => None,
    }
}

/// Why a stored bank cannot be used.
#[derive(Clone, Copy, Debug, PartialEq, Eq, Structural)]
pub enum BankError {
    UnsupportedVersion(u8),
    SelectedMissing,
    InvalidEntry,
}

/// What the error says.
pub open spec fn bank_message(error: BankError) -> Seq<char> {
    match error {
        BankError::UnsupportedVersion(version) => "unsupported authentication bank version: "@
            + decimal_of(version as nat),
        BankError::SelectedMissing => "selected authentication account does not exist"@,
        BankError::InvalidEntry =>
            "authentication bank contains an invalid ID or a non-unique, non-normalized label"@,
    }
}

impl BankError {
    /// What the error says.
    pub fn message(self) -> (text: String)
        ensures
            text@ == bank_message(self),
    {
        match self {
            BankError::UnsupportedVersion(version) => {
                let mut text = "unsupported authentication bank version: ".to_string();
                text.append(decimal(version as u64).as_str());
                text
            },
            BankError::SelectedMissing =>
                "selected authentication account does not exist".to_string(),
            BankError::InvalidEntry =>
                "authentication bank contains an invalid ID or a non-unique, non-normalized label".to_string(),
        }
    }
}

/// Why a bank cannot be used, if it cannot: the version is tested first, and the selection before
/// the entries.
pub open spec fn bank_problem(bank: BankModel) -> Option<BankError> {
    if bank.version != AUTH_BANK_VERSION {
        Some(BankError::UnsupportedVersion(bank.version))
    } else if !selection_exists(bank) {
        Some(BankError::SelectedMissing)
    } else if !(normal_entries(bank.accounts) && distinct_labels(bank.accounts)) {
        Some(BankError::InvalidEntry)
    } else {
        None
    }
}

/// The two forms in which credentials are stored.
#[derive(Clone, Copy, Debug, PartialEq, Eq, Structural)]
pub enum StoredFormat {
    Bank,
    /// One account, without a bank.
    Legacy,
}

/// The form that a document has: any of the keys of a bank makes it one.
pub open spec fn format_of(json: JsonModel) -> StoredFormat {
    if member(json, "version"@) is Some || member(json, "accounts"@) is Some || member(
        json,
        "selected_account_id"@,
    ) is Some {
        StoredFormat::Bank
    } else {
        StoredFormat::Legacy
    }
}

/// The form that a document has.
pub fn format(json: &Json) -> (r: StoredFormat)
    ensures
        r == format_of(json@),
{
    if json.get("version").is_some() || json.get("accounts").is_some() || json.get(
        "selected_account_id",
    ).is_some() {
        StoredFormat::Bank
    } else {
        StoredFormat::Legacy
    }
}

/// The form in which credentials are stored, or what is wrong with the text.
pub fn stored_format(serialized: &str) -> (r: Result<StoredFormat, String>)
    ensures
        match r {
            Ok(form) => read_of(serialized@) is Ok && form == format_of(read_of(serialized@)->Ok_0),
            Err(error) => read_of(serialized@) == Err::<JsonModel, Seq<char>>(error@),
        },
{
    match read_json(serialized) {
        Ok(json) => Ok(format(&json)),
        Err(error) => Err(error),
    }
}

/// Whether a label is as it is kept.
fn is_normal_label(label: &str) -> (r: bool)
    ensures
        r == normal_label(label@),
{
    let length: usize = chars_of(label).len();
    length > 0 && same(trim(label).as_str(), label)
}

impl StoredAuthBank {
    /// A bank without accounts.
    pub fn empty() -> (bank: Self)
        ensures
            bank@ == empty_bank(),
    {
        StoredAuthBank {
            version: AUTH_BANK_VERSION,
            selected_account_id: None,
            accounts: Table::new(),
        }
    }

    /// A bank with the one account that was stored without a bank.
    pub fn from_legacy(auth: AuthDotJson) -> (bank: Self)
        ensures
            bank@ == legacy_bank(auth@),
    {
        let mut accounts: Table<StoredAuthAccount> = Table::new();
        let _ = accounts.insert(
            "legacy".to_string(),
            StoredAuthAccount { label: "default".to_string(), auth },
        );
        StoredAuthBank {
            version: AUTH_BANK_VERSION,
            selected_account_id: Some("legacy".to_string()),
            accounts,
        }
    }

    /// The same bank again.
    pub fn copy(&self) -> (bank: Self)
        ensures
            bank@ == self@,
    {
        StoredAuthBank {
            version: self.version,
            selected_account_id: copy_maybe(&self.selected_account_id),
            accounts: self.accounts.duplicate(),
        }
    }

    /// One account taken out of the bank.
    pub fn snapshot(&self, account_id: &str) -> (r: Option<StoredAuthSnapshot>)
        ensures
            taken(r) == snapshot_of(self@, account_id@),
    {
        match self.accounts.get(account_id) {
            Some(account) => Some(
                StoredAuthSnapshot {
                    account_id: account_id.to_string(),
                    label: account.label.clone(),
                    auth: account.auth.duplicate(),
                },
            ),
            None => None,
        }
    }

    /// The selected account taken out of the bank.
    pub fn selected(&self) -> (r: Option<StoredAuthSnapshot>)
        ensures
            taken(r) == selected_of(self@),
    {
        match &self.selected_account_id {
            Some(id) => self.snapshot(id.as_str()),
            None => None,
        }
    }

    /// Whether some account has a label.
    pub fn labelled(&self, label: &str) -> (r: bool)
        ensures
            r == has_label(self@.accounts, label@),
    {
        let total: usize = self.accounts.len();
        let mut i: usize = 0;
        while i < total
            invariant
                i <= total == self.accounts@.len(),
                forall|j: int| 0 <= j < i ==> (#[trigger] self.accounts@[j]).1.label != label@,
            decreases total - i,
        {
            if same(self.accounts.value(i).label.as_str(), label) {
                assert(self@.accounts[i as int].1.label == label@);
                return true;
            }
            i += 1;
        }
        false
    }

    /// Whether the row has a normal identity and a normal label that no row before it has.
    fn is_sound_row(&self, at: usize) -> (r: bool)
        requires
            at < self.accounts@.len(),
        ensures
            r == (self@.accounts[at as int].0.len() > 0 && normal_label(
                self@.accounts[at as int].1.label,
            ) && forall|j: int|
                0 <= j < at ==> (#[trigger] self@.accounts[j]).1.label
                    != self@.accounts[at as int].1.label),
    {
        let length: usize = chars_of(self.accounts.key(at).as_str()).len();
        let label = self.accounts.value(at).label.as_str();
        if length == 0 || !is_normal_label(label) {
            return false;
        }
        let mut j: usize = 0;
        while j < at
            invariant
                j <= at < self.accounts@.len(),
                label@ == self.accounts@[at as int].1.label,
                forall|k: int| 0 <= k < j ==> (#[trigger] self.accounts@[k]).1.label != label@,
            decreases at - j,
        {
            if same(self.accounts.value(j).label.as_str(), label) {
                assert(self@.accounts[j as int].1.label == label@);
                return false;
            }
            j += 1;
        }
        true
    }

    /// Whether every row is sound.
    fn is_sound(&self) -> (r: bool)
        ensures
            r == (normal_entries(self@.accounts) && distinct_labels(self@.accounts)),
    {
        let total: usize = self.accounts.len();
        let mut i: usize = 0;
        while i < total
            invariant
                i <= total == self.accounts@.len(),
                forall|j: int|
                    0 <= j < i ==> (#[trigger] self@.accounts[j]).0.len() > 0 && normal_label(
                        self@.accounts[j].1.label,
                    ),
                forall|j: int, k: int|
                    0 <= j < k < i ==> (#[trigger] self@.accounts[j]).1.label != (
                    #[trigger] self@.accounts[k]).1.label,
            decreases total - i,
        {
            if !self.is_sound_row(i) {
                return false;
            }
            i += 1;
        }
        true
    }

    /// Tests a bank that was read: the version, then the selection, then the entries.
    pub fn check(&self) -> (r: Result<(), BankError>)
        ensures
            match r {
                Ok(()) => bank_problem(self@) is None && well_formed(self@),
                Err(error) => bank_problem(self@) == Some(error),
            },
    {
        let _: usize = self.accounts.len();
        if self.version != AUTH_BANK_VERSION {
            return Err(BankError::UnsupportedVersion(self.version));
        }
        if let Some(id) = &self.selected_account_id {
            if self.accounts.get(id.as_str()).is_none() {
                return Err(BankError::SelectedMissing);
            }
        }
        if !self.is_sound() {
            return Err(BankError::InvalidEntry);
        }
        Ok(())
    }
}

/// The label `default` with a number behind it.
pub open spec fn numbered_label(k: nat) -> Seq<char> {
    "default-"@ + decimal_of(k)
}

/// The label is the first free one among `default`, `default-2`, `default-3` and so on.
pub open spec fn first_free(accounts: Seq<(Seq<char>, AccountModel)>, label: Seq<char>) -> bool {
    if !has_label(accounts, "default"@) {
        label == "default"@
    } else {
        exists|k: nat|
            2 <= k && label == #[trigger] numbered_label(k) && !has_label(
                accounts,
                numbered_label(k),
            ) && forall|j: nat| 2 <= j < k ==> has_label(accounts, #[trigger] numbered_label(j))
    }
}

/// The first free one among `default`, `default-2`, `default-3` and so on.
pub open spec fn default_label(accounts: Seq<(Seq<char>, AccountModel)>) -> Seq<char> {
    choose|label: Seq<char>| first_free(accounts, label)
}

/// There is one first free label.
pub proof fn first_free_unique(
    accounts: Seq<(Seq<char>, AccountModel)>,
    a: Seq<char>,
    b: Seq<char>,
)
    requires
        first_free(accounts, a),
        first_free(accounts, b),
    ensures
        a == b,
{
    if has_label(accounts, "default"@) {
        let j = choose|k: nat|
            2 <= k && a == #[trigger] numbered_label(k) && !has_label(accounts, numbered_label(k))
                && forall|i: nat| 2 <= i < k ==> has_label(accounts, #[trigger] numbered_label(i));
        let k = choose|k: nat|
            2 <= k && b == #[trigger] numbered_label(k) && !has_label(accounts, numbered_label(k))
                && forall|i: nat| 2 <= i < k ==> has_label(accounts, #[trigger] numbered_label(i));
        if j < k {
            assert(has_label(accounts, numbered_label(j)));
        } else if k < j {
            assert(has_label(accounts, numbered_label(k)));
        }
    }
}

/// Different numbers make different labels.
pub proof fn numbered_injective(j: nat, k: nat)
    requires
        numbered_label(j) == numbered_label(k),
    ensures
        j == k,
{
    let lead = "default-"@;
    assert(numbered_label(j).skip(lead.len() as int) == decimal_of(j));
    assert(numbered_label(k).skip(lead.len() as int) == decimal_of(k));
    decimal_injective(j, k);
}

/// As many labels in a row as are taken, so many accounts there are.
pub proof fn taken_labels(accounts: Seq<(Seq<char>, AccountModel)>, m: nat)
    requires
        forall|j: nat| 2 <= j < m + 2 ==> has_label(accounts, #[trigger] numbered_label(j)),
    ensures
        m <= accounts.len(),
    decreases m,
{
    if m > 0 {
        let last = numbered_label((m + 1) as nat);
        assert(has_label(accounts, last));
        let at = choose|i: int| 0 <= i < accounts.len() && (#[trigger] accounts[i]).1.label == last;
        let rest = accounts.remove(at);
        assert forall|j: nat| 2 <= j < (m - 1) + 2 implies has_label(
            rest,
            #[trigger] numbered_label(j),
        ) by {
            assert(has_label(accounts, numbered_label(j)));
            let i = choose|i: int|
                0 <= i < accounts.len() && (#[trigger] accounts[i]).1.label == numbered_label(j);
            if i == at {
                numbered_injective(j, (m + 1) as nat);
            }
            let moved = if i < at {
                i
            } else {
                i - 1
            };
            assert(rest[moved] == accounts[i]);
        }
        taken_labels(rest, (m - 1) as nat);
    }
}

impl StoredAuthBank {
    /// The first free one among `default`, `default-2`, `default-3` and so on.
    pub fn unique_default_label(&self) -> (label: String)
        ensures
            label@ == default_label(self@.accounts),
            first_free(self@.accounts, label@),
    {
        if !self.labelled("default") {
            assert(first_free(self@.accounts, "default"@));
            proof {
                first_free_unique(self@.accounts, default_label(self@.accounts), "default"@);
            }
            return "default".to_string();
        }
        let total: usize = self.accounts.len();
        let mut suffix: u128 = 2;
        loop
            invariant
                total == self@.accounts.len(),
                has_label(self@.accounts, "default"@),
                2 <= suffix <= total + 2,
                forall|j: nat|
                    2 <= j < suffix ==> has_label(self@.accounts, #[trigger] numbered_label(j)),
            decreases total + 3 - suffix,
        {
            let mut label = "default-".to_string();
            label.append(wide_decimal(suffix).as_str());
            assert(label@ == numbered_label(suffix as nat));
            if !self.labelled(label.as_str()) {
                proof {
                    assert(first_free(self@.accounts, label@));
                    first_free_unique(self@.accounts, default_label(self@.accounts), label@);
                }
                return label;
            }
            proof {
                assert forall|j: nat| 2 <= j < suffix + 1 implies has_label(
                    self@.accounts,
                    #[trigger] numbered_label(j),
                ) by {
                    if j == suffix {
                        assert(numbered_label(j) == label@);
                    }
                }
                taken_labels(self@.accounts, (suffix - 1) as nat);
            }
            suffix += 1;
        }
    }
}

/// The local identity that a random draw makes.
pub open spec fn drawn_id(draw: u128) -> Seq<char> {
    hex_padded(draw as nat, 32)
}

/// The local identity that a random draw makes among these accounts, unless it is taken.
pub open spec fn free_id(accounts: Seq<(Seq<char>, AccountModel)>, draw: u128) -> Option<
    Seq<char>,
> {
    if drawn_id(draw) == "legacy"@ || listed(accounts, drawn_id(draw)) {
        None
    } else {
        Some(drawn_id(draw))
    }
}

impl StoredAuthBank {
    /// The local identity that a random draw makes, unless it is taken.
    pub fn id_from_draw(&self, draw: u128) -> (r: Option<String>)
        ensures
            maybe(r) == free_id(self@.accounts, draw),
    {
        let id = padded_hex(draw, 32);
        if same(id.as_str(), LEGACY_ACCOUNT_ID) || self.accounts.get(id.as_str()).is_some() {
            return None;
        }
        Some(id)
    }

    /// Draws a local identity for a new account; nothing where an account goes by the draw already,
    /// so that another is due. Where no account goes by anything that can be drawn, the first draw
    /// is free.
    pub fn new_account_id(&self) -> (r: Option<String>)
        ensures
            exists|draw: u128| maybe(r) == #[trigger] free_id(self@.accounts, draw),
            r matches Some(id) ==> id@.len() == 32 && id@ != "legacy"@ && !listed(
                self@.accounts,
                id@,
            ),
            r is None ==> exists|draw: u128| listed(self@.accounts, #[trigger] drawn_id(draw)),
    {
        let draw = random_u128();
        proof {
            padded_digits(draw as nat, 32);
            reveal_strlit("legacy");
        }
        let id = self.id_from_draw(draw);
        assert(maybe(id) == free_id(self@.accounts, draw));
        id
    }
}

/// Where the lock of an account stands.
pub open spec fn lock_path_of(home: Seq<char>, account_id: Seq<char>) -> Seq<char> {
    path_of(home, ".auth-account-lock-"@ + digest_text(account_id))
}

/// Where the lock of an account stands.
pub fn account_lock_path(codex_home: &str, account_id: &str) -> (path: String)
    ensures
        path@ == lock_path_of(codex_home@, account_id@),
{
    let mut name = ".auth-account-lock-".to_string();
    name.append(digest_hex(account_id).as_str());
    path_join(codex_home, name.as_str())
}

/// The key under which a home directory's credentials are kept: the start of the digest of its
/// path.
pub open spec fn store_key_of(path: Seq<char>) -> Seq<char> {
    "cli|"@ + digest_text(path).take(16)
}

/// The key under which a home directory's credentials are kept.
pub fn compute_store_key(canonical_home: &str) -> (key: String)
    ensures
        key@ == store_key_of(canonical_home@),
{
    let digest = chars_of(digest_hex(canonical_home).as_str());
    let start = text_of(&digest, 0, 16);
    assert(start@ == digest_text(canonical_home@).take(16));
    let mut key = "cli|".to_string();
    key.append(start.as_str());
    key
}

/// The name of a temporary file with a random number in it.
pub open spec fn temporary_name(lead: Seq<char>, draw: u64) -> Seq<char> {
    lead + hex_padded(draw as nat, 16) + ".tmp"@
}

/// The name of a temporary file for the bank, with a fresh random number in it.
pub fn bank_temporary() -> (name: String)
    ensures
        exists|draw: u64| name@ == #[trigger] temporary_name(".auth-"@, draw),
{
    let draw = random_u64();
    let mut name = ".auth-".to_string();
    name.append(padded_hex(draw as u128, 16).as_str());
    name.append(".tmp");
    assert(name@ == temporary_name(".auth-"@, draw));
    name
}

/// The name of a temporary file for the notice of a change, and what the notice reads, each with a
/// fresh random number in it.
pub fn change_notice() -> (r: (String, String))
    ensures
        exists|draw: u64| r.0@ == #[trigger] temporary_name(".auth-change-"@, draw),
        exists|draw: u64| r.1@ == #[trigger] hex_padded(draw as nat, 16) + "\n"@,
{
    let draw = random_u64();
    let mut name = ".auth-change-".to_string();
    name.append(padded_hex(draw as u128, 16).as_str());
    name.append(".tmp");
    assert(name@ == temporary_name(".auth-change-"@, draw));
    let mark = random_u64();
    let mut notice = padded_hex(mark as u128, 16);
    notice.append("\n");
    assert(notice@ == hex_padded(mark as nat, 16) + "\n"@);
    (name, notice)
}

/// The bank after a login: the selected account takes the credentials, and where none is selected a
/// new account under a free label does.
pub open spec fn logged_in(bank: BankModel, auth: AuthModel, fresh: Seq<char>) -> BankModel {
    match selected_of(bank) {
        Some(selected) => BankModel {
            accounts: placed(
                bank.accounts,
                selected.account_id,
                AccountModel { label: selected.label, auth },
            ),
            ..bank
        },
        None => BankModel {
            selected_account_id: Some(fresh),
            accounts: placed(
                bank.accounts,
                fresh,
                AccountModel { label: default_label(bank.accounts), auth },
            ),
            ..bank
        },
    }
}

/// The bank after a logout: the selected account is gone, and none is selected.
pub open spec fn logged_out(bank: BankModel) -> BankModel {
    match bank.selected_account_id {
        Some(id) => BankModel {
            selected_account_id: None,
            accounts: dropped(bank.accounts, id),
            ..bank
        },
        None => bank,
    }
}

/// The bank without an account, which is no longer selected then.
pub open spec fn without_account(bank: BankModel, id: Seq<char>) -> BankModel {
    BankModel {
        selected_account_id: if bank.selected_account_id == Some(id) {
            None
        } else {
            bank.selected_account_id
        },
        accounts: dropped(bank.accounts, id),
        ..bank
    }
}

/// The bank with other credentials for an account.
pub open spec fn with_credentials(bank: BankModel, id: Seq<char>, auth: AuthModel) -> BankModel {
    match lookup(bank.accounts, id) {
        Some(account) => BankModel {
            accounts: placed(bank.accounts, id, AccountModel { label: account.label, auth }),
            ..bank
        },
        None => bank,
    }
}

/// Why the credentials of an account are not replaced, if they are not.
pub open spec fn replace_problem(bank: BankModel, id: Seq<char>, expected: AuthModel) -> Option<
    Seq<char>,
> {
    match lookup(bank.accounts, id) {
        None => Some("Authentication account was removed during an update."@),
        Some(account) => if account.auth != expected {
            Some(
                "Authentication changed during an account update; retry with the current account."@,
            )
        } else {
            None
        },
    }
}

/// Why refreshed tokens are not stored, if they are not: the account may have enrolled an agent
/// identity meanwhile, but nothing else may have changed.
pub open spec fn refresh_problem(bank: BankModel, id: Seq<char>, expected: AuthModel) -> Option<
    Seq<char>,
> {
    match lookup(bank.accounts, id) {
        None => Some("Authentication was removed during token refresh."@),
        Some(account) => if unidentified(account.auth) != unidentified(expected) {
            Some("Authentication changed during token refresh; retry with the current account."@)
        } else {
            None
        },
    }
}

/// Refreshed credentials, with the agent identity that is stored by now.
pub open spec fn refreshed(bank: BankModel, id: Seq<char>, updated: AuthModel) -> AuthModel {
    match lookup(bank.accounts, id) {
        Some(account) => AuthModel { agent_identity: account.auth.agent_identity, ..updated },
        None => updated,
    }
}

/// What becomes of the stored bank after a change.
#[derive(Clone, Copy, Debug, PartialEq, Eq, Structural)]
pub enum BankWrite {
    Save,
    Delete,
}

/// What reading the stored bank came to.
#[derive(PartialEq, Eq)]
pub enum LoadedBank {
    Bank(StoredAuthBank),
    Missing,
    /// Credentials stored without a bank that cannot be read.
    InvalidLegacy(String),
    Failed(String),
}

/// What reading the stored bank came to, with its texts as sequences of characters.
pub enum LoadedModel {
    Bank(BankModel),
    Missing,
    InvalidLegacy(Seq<char>),
    Failed(Seq<char>),
}

impl View for LoadedBank {
    type V = LoadedModel;

    open spec fn view(&self) -> LoadedModel {
        match *self {
            LoadedBank::Bank(bank) => LoadedModel::Bank(bank@),
            LoadedBank::Missing => LoadedModel::Missing,
            LoadedBank::InvalidLegacy(error) => LoadedModel::InvalidLegacy(error@),
            LoadedBank::Failed(error) => LoadedModel::Failed(error@),
        }
    }
}

/// What is read out of a stored text, once its form is known.
#[derive(PartialEq, Eq)]
pub enum ParsedText {
    Bank(StoredAuthBank),
    /// One account, without a bank.
    Legacy(AuthDotJson),
    /// The text has the form of one account, and is none.
    InvalidLegacy(String),
    /// The text is no JSON, or has the form of a bank and is none.
    Invalid(String),
}

/// What a stored text comes to: a bank is tested before it is used, and an account without a bank
/// becomes a bank of its own.
pub open spec fn decoded(parsed: ParsedText) -> LoadedModel {
    match parsed {
        ParsedText::Bank(bank) => match bank_problem(bank@) {
            Some(error) => LoadedModel::Failed(bank_message(error)),
            None => LoadedModel::Bank(bank@),
        },
        ParsedText::Legacy(auth) => LoadedModel::Bank(legacy_bank(auth@)),
        ParsedText::InvalidLegacy(error) => LoadedModel::InvalidLegacy(
            "invalid legacy authentication: "@ + error@,
        ),
        ParsedText::Invalid(error) => LoadedModel::Failed(error@),
    }
}

/// What a stored text comes to.
pub fn decode_stored_bank(parsed: ParsedText) -> (r: LoadedBank)
    ensures
        r@ == decoded(parsed),
        r@ matches LoadedModel::Bank(bank) ==> well_formed(bank),
{
    match parsed {
        ParsedText::Bank(bank) => match bank.check() {
            Ok(()) => LoadedBank::Bank(bank),
            Err(error) => LoadedBank::Failed(error.message()),
        },
        ParsedText::Legacy(auth) => {
            proof {
                crate::auth::laws::new_banks_are_well_formed(auth@);
            }
            LoadedBank::Bank(StoredAuthBank::from_legacy(auth))
        },
        ParsedText::InvalidLegacy(error) => {
            let mut text = "invalid legacy authentication: ".to_string();
            text.append(error.as_str());
            LoadedBank::InvalidLegacy(text)
        },
        ParsedText::Invalid(error) => LoadedBank::Failed(error),
    }
}

impl StoredAuthBank {
    /// Puts other credentials under an account, which keeps its label.
    fn put_credentials(&mut self, id: &str, auth: AuthDotJson)
        ensures
            final(self)@ == with_credentials(old(self)@, id@, auth@),
    {
        let label = match self.accounts.get(id) {
            Some(account) => account.label.clone(),
            None => {
                return;
            },
        };
        let _ = self.accounts.insert(id.to_string(), StoredAuthAccount { label, auth });
    }

    /// Stores the credentials of a login: in the selected account, or in a new one under the fresh
    /// identity where none is selected.
    pub fn save(&mut self, auth: &AuthDotJson, fresh: &str)
        ensures
            final(self)@ == logged_in(old(self)@, auth@, fresh@),
    {
        if let Some(id) = copy_maybe(&self.selected_account_id) {
            if self.accounts.get(id.as_str()).is_some() {
                self.put_credentials(id.as_str(), auth.duplicate());
                return;
            }
        }
        let label = self.unique_default_label();
        let _ = self.accounts.insert(
            fresh.to_string(),
            StoredAuthAccount { label, auth: auth.duplicate() },
        );
        self.selected_account_id = Some(fresh.to_string());
    }

    /// Takes the selected account away. Says whether there was one.
    pub fn delete(&mut self) -> (removed: bool)
        ensures
            final(self)@ == logged_out(old(self)@),
            removed == (selected_of(old(self)@) is Some),
    {
        match copy_maybe(&self.selected_account_id) {
            Some(id) => {
                self.selected_account_id = None;
                self.accounts.remove(id.as_str()).is_some()
            },
            None => false,
        }
    }

    /// Takes an account away, and its selection with it. Says whether it was there.
    pub fn remove_account(&mut self, account_id: &str) -> (removed: bool)
        ensures
            final(self)@ == without_account(old(self)@, account_id@),
            removed == listed(old(self)@.accounts, account_id@),
    {
        let removed = self.accounts.remove(account_id).is_some();
        let selected = match &self.selected_account_id {
            Some(id) => same(id.as_str(), account_id),
            None => false,
        };
        if selected {
            self.selected_account_id = None;
        }
        removed
    }

    /// Replaces the credentials of an account, unless they are not those expected.
    pub fn replace_if_unchanged_for_account(
        &mut self,
        account_id: &str,
        expected: &AuthDotJson,
        updated: &AuthDotJson,
    ) -> (r: Result<(), String>)
        ensures
            match r {
                Ok(()) => replace_problem(old(self)@, account_id@, expected@) is None
                    && final(self)@ == with_credentials(old(self)@, account_id@, updated@),
                Err(error) => replace_problem(old(self)@, account_id@, expected@) == Some(error@)
                    && final(self)@ == old(self)@,
            },
    {
        match self.accounts.get(account_id) {
            None => {
                return Err("Authentication account was removed during an update.".to_string());
            },
            Some(account) => {
                if !account.auth.same_as(expected) {
                    return Err(
                        "Authentication changed during an account update; retry with the current account.".to_string(),
                    );
                }
            },
        }
        self.put_credentials(account_id, updated.duplicate());
        Ok(())
    }

    /// Stores refreshed tokens, unless something but the agent identity changed meanwhile. Gives
    /// what is stored.
    pub fn refresh_tokens_for_account(
        &mut self,
        account_id: &str,
        expected: &AuthDotJson,
        updated: &AuthDotJson,
    ) -> (r: Result<AuthDotJson, String>)
        ensures
            match r {
                Ok(auth) => refresh_problem(old(self)@, account_id@, expected@) is None && auth@
                    == refreshed(old(self)@, account_id@, updated@) && final(self)@
                    == with_credentials(old(self)@, account_id@, auth@),
                Err(error) => refresh_problem(old(self)@, account_id@, expected@) == Some(error@)
                    && final(self)@ == old(self)@,
            },
    {
        let auth = match self.accounts.get(account_id) {
            None => {
                return Err("Authentication was removed during token refresh.".to_string());
            },
            Some(account) => {
                if !account.auth.same_apart_from_identity(expected) {
                    return Err(
                        "Authentication changed during token refresh; retry with the current account.".to_string(),
                    );
                }
                updated.with_identity(&account.auth)
            },
        };
        self.put_credentials(account_id, auth.duplicate());
        Ok(auth)
    }

    /// What becomes of the stored bank after a change: one without accounts is deleted.
    pub fn write_back(&self) -> (r: BankWrite)
        ensures
            r == (if self@.accounts.len() == 0 {
                BankWrite::Delete
            } else {
                BankWrite::Save
            }),
    {
        if self.accounts.is_empty() {
            BankWrite::Delete
        } else {
            BankWrite::Save
        }
    }
}

/// The bank that a change starts from: a missing one is taken for an empty one. An explicit login
/// can also replace unreadable credentials stored without a bank, but never a bank that cannot be
/// read.
pub open spec fn base_of(login: bool, loaded: LoadedModel) -> Result<BankModel, Seq<char>> {
    match loaded {
        LoadedModel::Bank(bank) => Ok(bank),
        LoadedModel::Missing => Ok(empty_bank()),
        LoadedModel::InvalidLegacy(error) => if login {
            Ok(empty_bank())
        } else {
            Err(error)
        },
        LoadedModel::Failed(error) => Err(error),
    }
}

/// The bank that a change starts from.
pub fn bank_base(login: bool, loaded: LoadedBank) -> (r: Result<StoredAuthBank, String>)
    ensures
        match r {
            Ok(bank) => base_of(login, loaded@) == Ok::<BankModel, Seq<char>>(bank@),
            Err(error) => base_of(login, loaded@) == Err::<BankModel, Seq<char>>(error@),
        },
{
    match loaded {
        LoadedBank::Bank(bank) => Ok(bank),
        LoadedBank::Missing => Ok(StoredAuthBank::empty()),
        LoadedBank::InvalidLegacy(error) => if login {
            Ok(StoredAuthBank::empty())
        } else {
            Err(error)
        },
        LoadedBank::Failed(error) => Err(error),
    }
}

/// A random draw makes an identity exactly when no account has it and it is not the one that is kept for
/// the account that was stored without a bank.
pub proof fn taken_draws_make_no_identity(
    accounts: Seq<(Seq<char>, AccountModel)>,
    draw: u128,
)
    requires
        ascending(accounts),
    ensures
        free_id(accounts, draw) matches Some(id) ==> id == drawn_id(draw) && id != "legacy"@ && (
        forall|i: int| 0 <= i < accounts.len() ==> (#[trigger] accounts[i]).0 != id),
        free_id(accounts, draw) is None ==> drawn_id(draw) == "legacy"@ || exists|i: int|
            0 <= i < accounts.len() && (#[trigger] accounts[i]).0 == drawn_id(draw),
        drawn_id(draw).len() == 32,
{
    listed_iff(accounts, drawn_id(draw));
    crate::codec::padded_digits(draw as nat, 32);
}

} // verus!
