//! What every change of a bank keeps.

use vstd::prelude::*;

use crate::auth::accounts::added;
use crate::auth::accounts::label_taken;
use crate::auth::accounts::metadata_of;
use crate::auth::accounts::rename_problem;
use crate::auth::accounts::renamed;
use crate::auth::accounts::selected_by;
use crate::auth::accounts::selector_means_an_account;
use crate::auth::accounts::switched;
use crate::auth::bank::default_label;
use crate::auth::bank::distinct_labels;
use crate::auth::bank::empty_bank;
use crate::auth::bank::first_free;
use crate::auth::bank::has_label;
use crate::auth::bank::legacy_bank;
use crate::auth::bank::logged_in;
use crate::auth::bank::logged_out;
use crate::auth::bank::normal_entries;
use crate::auth::bank::normal_label;
use crate::auth::bank::numbered_label;
use crate::auth::bank::selected_of;
use crate::auth::bank::taken_labels;
use crate::auth::bank::well_formed;
use crate::auth::bank::with_credentials;
use crate::auth::bank::without_account;
use crate::auth::bank::AccountModel;
use crate::auth::bank::BankModel;
use crate::auth::credentials::AuthModel;
use crate::table::ascending;
use crate::table::dropped;
use crate::table::dropped_gone;
use crate::table::less;
use crate::table::less_irreflexive;
use crate::table::listed;
use crate::table::listed_iff;
use crate::table::lookup;
use crate::table::placed;
use crate::table::placed_found;
use crate::table::slot;
use crate::table::slot_splits;
use crate::text::decimal_digits;
use crate::text::decimal_of;
use crate::text::digit;
use crate::text::trimmed;
use crate::text::trimmed_twice;
use crate::text::trimmed_whole;

verus! {

/// Where a row stood before an account was placed.
spec fn earlier(rows: Seq<(Seq<char>, AccountModel)>, key: Seq<char>, i: int) -> int {
    if listed(rows, key) || i < slot(rows, key) {
        i
    } else {
        i - 1
    }
}

/// The rows other than the placed one are as they were, and none of them is under its key.
proof fn placed_rows(rows: Seq<(Seq<char>, AccountModel)>, key: Seq<char>, value: AccountModel)
    requires
        ascending(rows),
    ensures
        ({
            let after = placed(rows, key, value);
            let at = slot(rows, key);
            &&& 0 <= at < after.len()
            &&& after[at] == (key, value)
            &&& forall|i: int|
                0 <= i < after.len() && i != at ==> 0 <= earlier(rows, key, i) < rows.len() && (
                #[trigger] after[i]) == rows[earlier(rows, key, i)] && after[i].0 != key
        }),
{
    let after = placed(rows, key, value);
    let at = slot(rows, key);
    slot_splits(rows, key);
    listed_iff(rows, key);
    assert forall|i: int| 0 <= i < after.len() && i != at implies 0 <= earlier(rows, key, i)
        < rows.len() && (#[trigger] after[i]) == rows[earlier(rows, key, i)] && after[i].0 != key by {
        let j = earlier(rows, key, i);
        assert(after[i] == rows[j]);
        if rows[j].0 == key {
            less_irreflexive(key);
            if j < at {
                assert(less(rows[j].0, key));
            } else if listed(rows, key) {
                assert(less(rows[at].0, rows[j].0));
            }
        }
    }
}

/// Placing an account under a normal label keeps the entries normal.
proof fn placed_normal(rows: Seq<(Seq<char>, AccountModel)>, key: Seq<char>, value: AccountModel)
    requires
        ascending(rows),
        normal_entries(rows),
        key.len() > 0,
        normal_label(value.label),
    ensures
        normal_entries(placed(rows, key, value)),
{
    let after = placed(rows, key, value);
    placed_rows(rows, key, value);
    assert forall|i: int| 0 <= i < after.len() implies (#[trigger] after[i]).0.len() > 0
        && normal_label(after[i].1.label) by {
        if i != slot(rows, key) {
            assert(after[i] == rows[earlier(rows, key, i)]);
        }
    }
}

/// Placing an account under a label that no other account has keeps the labels distinct.
proof fn placed_distinct(rows: Seq<(Seq<char>, AccountModel)>, key: Seq<char>, value: AccountModel)
    requires
        ascending(rows),
        distinct_labels(rows),
        !label_taken(rows, key, value.label),
    ensures
        distinct_labels(placed(rows, key, value)),
{
    let after = placed(rows, key, value);
    let at = slot(rows, key);
    placed_rows(rows, key, value);
    assert forall|i: int, j: int| 0 <= i < j < after.len() implies (#[trigger] after[i]).1.label
        != (#[trigger] after[j]).1.label by {
        let old_i = earlier(rows, key, i);
        let old_j = earlier(rows, key, j);
        if i == at {
            assert(after[j] == rows[old_j]);
        } else if j == at {
            assert(after[i] == rows[old_i]);
        } else {
            assert(after[i] == rows[old_i] && after[j] == rows[old_j]);
            assert(old_i < old_j);
        }
    }
}

/// Placing an account under a label that no other account has keeps the rows sound.
proof fn placed_sound(rows: Seq<(Seq<char>, AccountModel)>, key: Seq<char>, value: AccountModel)
    requires
        ascending(rows),
        normal_entries(rows),
        distinct_labels(rows),
        key.len() > 0,
        normal_label(value.label),
        !label_taken(rows, key, value.label),
    ensures
        ascending(placed(rows, key, value)),
        normal_entries(placed(rows, key, value)),
        distinct_labels(placed(rows, key, value)),
        listed(placed(rows, key, value), key),
{
    placed_found(rows, key, value, key);
    listed_iff(placed(rows, key, value), key);
    placed_normal(rows, key, value);
    placed_distinct(rows, key, value);
}

/// Dropping an account keeps the rows sound.
proof fn dropped_sound(rows: Seq<(Seq<char>, AccountModel)>, key: Seq<char>)
    requires
        ascending(rows),
        normal_entries(rows),
        distinct_labels(rows),
    ensures
        ascending(dropped(rows, key)),
        normal_entries(dropped(rows, key)),
        distinct_labels(dropped(rows, key)),
{
    let after = dropped(rows, key);
    let at = slot(rows, key);
    dropped_gone(rows, key, key);
    if listed(rows, key) {
        assert forall|i: int| 0 <= i < after.len() implies (#[trigger] after[i]).0.len() > 0
            && normal_label(after[i].1.label) by {
            let j = if i < at {
                i
            } else {
                i + 1
            };
            assert(after[i] == rows[j]);
        }
        assert forall|i: int, j: int| 0 <= i < j < after.len() implies (#[trigger] after[i]).1.label
            != (#[trigger] after[j]).1.label by {
            let old_i = if i < at {
                i
            } else {
                i + 1
            };
            let old_j = if j < at {
                j
            } else {
                j + 1
            };
            assert(after[i] == rows[old_i] && after[j] == rows[old_j]);
        }
    }
}

/// A label of the default form is normal.
proof fn default_form_normal(label: Seq<char>, accounts: Seq<(Seq<char>, AccountModel)>)
    requires
        first_free(accounts, label),
    ensures
        normal_label(label),
{
    reveal_strlit("default");
    reveal_strlit("default-");
    if has_label(accounts, "default"@) {
        let k = choose|k: nat|
            2 <= k && label == #[trigger] numbered_label(k) && !has_label(
                accounts,
                numbered_label(k),
            ) && forall|j: nat| 2 <= j < k ==> has_label(accounts, #[trigger] numbered_label(j));
        decimal_digits(k);
        assert(label.last() == decimal_of(k).last());
        assert(digit(decimal_of(k)[decimal_of(k).len() - 1]));
    }
    assert(label[0] == 'd');
    trimmed_whole(label);
}

/// There is a free label: the numbers do not run out before the accounts do.
proof fn default_label_free(accounts: Seq<(Seq<char>, AccountModel)>, k: nat)
    requires
        k >= 2,
        has_label(accounts, "default"@),
        forall|j: nat| 2 <= j < k ==> has_label(accounts, #[trigger] numbered_label(j)),
    ensures
        first_free(accounts, default_label(accounts)),
    decreases accounts.len() + 3 - k,
{
    taken_labels(accounts, (k - 2) as nat);
    if has_label(accounts, numbered_label(k)) {
        assert forall|j: nat| 2 <= j < k + 1 implies has_label(
            accounts,
            #[trigger] numbered_label(j),
        ) by {
            if j == k {
            }
        }
        default_label_free(accounts, k + 1);
    } else {
        assert(first_free(accounts, numbered_label(k)));
    }
}

/// The label for a new default account is the first free one, normal, and no account has it.
pub proof fn default_label_is_free(accounts: Seq<(Seq<char>, AccountModel)>)
    ensures
        first_free(accounts, default_label(accounts)),
        normal_label(default_label(accounts)),
        !has_label(accounts, default_label(accounts)),
{
    if has_label(accounts, "default"@) {
        default_label_free(accounts, 2);
    } else {
        assert(first_free(accounts, "default"@));
    }
    default_form_normal(default_label(accounts), accounts);
}

/// A bank that starts out is well formed: an empty one, and one made from a single stored account.
pub proof fn new_banks_are_well_formed(auth: AuthModel)
    ensures
        well_formed(empty_bank()),
        well_formed(legacy_bank(auth)),
        selected_of(legacy_bank(auth)) is Some,
        selected_of(legacy_bank(auth))->0.auth == auth,
{
    reveal_strlit("legacy");
    reveal_strlit("default");
    let none = Seq::<(Seq<char>, AccountModel)>::empty();
    let account = AccountModel { label: "default"@, auth };
    trimmed_whole("default"@);
    placed_sound(none, "legacy"@, account);
    placed_found(none, "legacy"@, account, "legacy"@);
}

/// A login keeps a bank well formed, and what is selected afterwards holds its credentials.
pub proof fn login_keeps_the_bank(bank: BankModel, auth: AuthModel, fresh: Seq<char>)
    requires
        well_formed(bank),
        fresh.len() > 0,
        !listed(bank.accounts, fresh),
    ensures
        well_formed(logged_in(bank, auth, fresh)),
        selected_of(logged_in(bank, auth, fresh)) is Some,
        selected_of(logged_in(bank, auth, fresh))->0.auth == auth,
{
    match selected_of(bank) {
        Some(selected) => {
            credentials_keep_the_bank(bank, selected.account_id, auth);
            let account = AccountModel { label: selected.label, auth };
            placed_found(bank.accounts, selected.account_id, account, selected.account_id);
        },
        None => {
            default_label_is_free(bank.accounts);
            let account = AccountModel { label: default_label(bank.accounts), auth };
            placed_sound(bank.accounts, fresh, account);
            placed_found(bank.accounts, fresh, account, fresh);
        },
    }
}

/// Other credentials for an account keep a bank well formed.
pub proof fn credentials_keep_the_bank(bank: BankModel, id: Seq<char>, auth: AuthModel)
    requires
        well_formed(bank),
    ensures
        well_formed(with_credentials(bank, id, auth)),
{
    if listed(bank.accounts, id) {
        let at = slot(bank.accounts, id);
        let account = AccountModel { label: lookup(bank.accounts, id)->0.label, auth };
        listed_iff(bank.accounts, id);
        assert(!label_taken(bank.accounts, id, account.label)) by {
            assert forall|i: int|
                0 <= i < bank.accounts.len() && (#[trigger] bank.accounts[i]).0
                    != id implies bank.accounts[i].1.label != account.label by {
                if i < at {
                    assert(bank.accounts[i].1.label != bank.accounts[at].1.label);
                } else if i > at {
                    assert(bank.accounts[at].1.label != bank.accounts[i].1.label);
                }
            }
        }
        assert(bank.accounts[at].0 == id);
        placed_sound(bank.accounts, id, account);
        if let Some(selected) = bank.selected_account_id {
            placed_found(bank.accounts, id, account, selected);
        }
    }
}

/// A logout keeps a bank well formed, selects nothing, and leaves every other account as it was.
pub proof fn logout_keeps_other_accounts(bank: BankModel, other: Seq<char>)
    requires
        well_formed(bank),
        bank.selected_account_id != Some(other),
    ensures
        well_formed(logged_out(bank)),
        selected_of(logged_out(bank)) is None,
        lookup(logged_out(bank).accounts, other) == lookup(bank.accounts, other),
{
    if let Some(id) = bank.selected_account_id {
        dropped_sound(bank.accounts, id);
        dropped_gone(bank.accounts, id, other);
    }
}

/// Removing an account keeps a bank well formed, takes that account away, and leaves every other
/// account as it was.
pub proof fn removal_keeps_other_accounts(bank: BankModel, id: Seq<char>, other: Seq<char>)
    requires
        well_formed(bank),
        other != id,
    ensures
        well_formed(without_account(bank, id)),
        !listed(without_account(bank, id).accounts, id),
        lookup(without_account(bank, id).accounts, other) == lookup(bank.accounts, other),
{
    dropped_sound(bank.accounts, id);
    dropped_gone(bank.accounts, id, other);
    if let Some(selected) = bank.selected_account_id {
        dropped_gone(bank.accounts, id, selected);
    }
}

/// Renaming keeps a bank well formed and keeps what an account is: its identity, its credentials
/// and whether it is selected; it changes nothing of any other account.
pub proof fn rename_preserves_identity(
    bank: BankModel,
    selector: Seq<char>,
    label: Seq<char>,
    other: Seq<char>,
)
    requires
        well_formed(bank),
        rename_problem(bank, selector, label) is None,
    ensures
        ({
            let id = selected_by(bank, selector)->Ok_0;
            let after = renamed(bank, id, trimmed(label));
            &&& well_formed(after)
            &&& after.selected_account_id == bank.selected_account_id
            &&& lookup(after.accounts, id) == Some(
                AccountModel { label: trimmed(label), auth: lookup(bank.accounts, id)->0.auth },
            )
            &&& other != id ==> lookup(after.accounts, other) == lookup(bank.accounts, other)
        }),
{
    let id = selected_by(bank, selector)->Ok_0;
    let account = AccountModel { label: trimmed(label), auth: lookup(bank.accounts, id)->0.auth };
    selector_means_an_account(bank, selector);
    listed_iff(bank.accounts, id);
    assert(bank.accounts[slot(bank.accounts, id)].0 == id);
    trimmed_twice(label);
    placed_sound(bank.accounts, id, account);
    placed_found(bank.accounts, id, account, other);
    if let Some(selected) = bank.selected_account_id {
        placed_found(bank.accounts, id, account, selected);
    }
}

/// Switching keeps a bank well formed, changes no account, and selects the credentials of the one
/// that was meant.
pub proof fn switch_selects_credentials(bank: BankModel, selector: Seq<char>)
    requires
        well_formed(bank),
        selected_by(bank, selector) is Ok,
    ensures
        ({
            let id = selected_by(bank, selector)->Ok_0;
            let after = switched(bank, id);
            &&& well_formed(after)
            &&& after.accounts == bank.accounts
            &&& selected_of(after) is Some
            &&& selected_of(after)->0.auth == lookup(bank.accounts, id)->0.auth
        }),
{
    selector_means_an_account(bank, selector);
}

/// Adding an account keeps a bank well formed, selects it, and leaves every other account as it was.
pub proof fn adding_keeps_other_accounts(
    bank: BankModel,
    fresh: Seq<char>,
    label: Seq<char>,
    auth: AuthModel,
    other: Seq<char>,
)
    requires
        well_formed(bank),
        fresh.len() > 0,
        !listed(bank.accounts, fresh),
        trimmed(label).len() > 0,
        !has_label(bank.accounts, trimmed(label)),
        other != fresh,
    ensures
        ({
            let after = added(bank, fresh, AccountModel { label: trimmed(label), auth });
            &&& well_formed(after)
            &&& selected_of(after) is Some
            &&& selected_of(after)->0.auth == auth
            &&& lookup(after.accounts, other) == lookup(bank.accounts, other)
        }),
{
    let account = AccountModel { label: trimmed(label), auth };
    trimmed_twice(label);
    placed_sound(bank.accounts, fresh, account);
    placed_found(bank.accounts, fresh, account, other);
}

/// The names of a well-formed bank are its own: an account is meant by its identity unless that is
/// another account's label, and by its label unless that is another account's identity.
pub proof fn accounts_go_by_their_names(bank: BankModel, at: int)
    requires
        well_formed(bank),
        0 <= at < bank.accounts.len(),
    ensures
        ({
            let id = bank.accounts[at].0;
            let label = bank.accounts[at].1.label;
            &&& !label_taken(bank.accounts, id, id) ==> selected_by(bank, id) == Ok::<
                Seq<char>,
                crate::auth::accounts::ErrorModel,
            >(id)
            &&& (listed(bank.accounts, label) ==> label == id) ==> selected_by(bank, label) == Ok::<
                Seq<char>,
                crate::auth::accounts::ErrorModel,
            >(id)
        }),
{
    let id = bank.accounts[at].0;
    let label = bank.accounts[at].1.label;
    listed_iff(bank.accounts, id);
    assert(listed(bank.accounts, id));
    crate::auth::accounts::first_labelled_listed(bank.accounts, id);
    crate::auth::accounts::first_labelled_listed(bank.accounts, label);
    if let Some(found) = crate::auth::accounts::first_labelled(bank.accounts, label) {
        let i = choose|i: int|
            0 <= i < bank.accounts.len() && (#[trigger] bank.accounts[i]).0 == found
                && bank.accounts[i].1.label == label;
        if i < at {
            assert(bank.accounts[i].1.label != bank.accounts[at].1.label);
        } else if i > at {
            assert(bank.accounts[at].1.label != bank.accounts[i].1.label);
        }
    } else {
        assert(has_label(bank.accounts, label));
    }
}

/// What is told of an account depends on its credentials only through the provider's names for it
/// and the way it authenticates: no key or token is part of it.
pub proof fn metadata_holds_no_secrets(
    id: Seq<char>,
    account: AccountModel,
    selected: Option<Seq<char>>,
    key: Option<Seq<char>>,
    token: Option<Seq<char>>,
)
    ensures
        metadata_of(id, account, selected) == metadata_of(
            id,
            AccountModel {
                auth: AuthModel {
                    openai_api_key: key,
                    personal_access_token: token,
                    bedrock_api_key: None,
                    bedrock_access_keys: None,
                    tokens: match account.auth.tokens {
                        Some(tokens) => Some(
                            crate::auth::credentials::TokensModel {
                                access_token: Seq::empty(),
                                refresh_token: Seq::empty(),
                                id_token: Seq::empty(),
                                ..tokens
                            },
                        ),
                        None => None,
                    },
                    ..account.auth
                },
                ..account
            },
            selected,
        ),
{
}

} // verus!
