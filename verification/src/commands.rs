//! What the user types and picks, and what is said in return.

use vstd::prelude::*;
use vstd::string::StringExecFns;

use crate::text::byte_count;
use crate::text::bytes_of;
use crate::text::decimal;
use crate::text::decimal_digits;
use crate::text::decimal_of;
use crate::text::digit;
use crate::text::maybe;
use crate::text::number_of;
use crate::text::number_round_trip;
use crate::text::parse_number;
use crate::text_laws::mentioned_after;
use crate::text_laws::mentioned_before;
use crate::text_laws::mentions;
use crate::text_laws::mentions_itself;
use crate::text_laws::stands_at;

verus! {

/// What a request about the capacity comes to.
#[derive(Debug, PartialEq, Eq)]
pub enum ParallelismCommand {
    /// The capacity is read, or changed to a number.
    Request(Option<usize>),
    Refused(String),
}

/// What a request about the capacity comes to, with its text as a sequence of characters.
pub enum CommandModel {
    Request(Option<usize>),
    Refused(Seq<char>),
}

impl View for ParallelismCommand {
    type V = CommandModel;

    open spec fn view(&self) -> CommandModel {
        match *self {
            ParallelismCommand::Request(capacity) => CommandModel::Request(capacity),
            ParallelismCommand::Refused(text) => CommandModel::Refused(text@),
        }
    }
}

/// What a request about the capacity comes to: nothing behind the command reads it, and a number
/// that a capacity can be changes it. The number is tested before the session.
pub open spec fn command_of(args: Seq<char>, in_session: bool) -> CommandModel {
    let parsed = if args.len() == 0 {
        Some(None)
    } else {
        match number_of(args) {
            Some(n) if n <= usize::MAX => Some(Some(n as usize)),
            _ => None,
        }
    };
    match parsed {
        None => CommandModel::Refused(
            "Usage: /parallelism [nonnegative integer]; 0 disables enforcement."@,
        ),
        Some(capacity) => if in_session {
            CommandModel::Request(capacity)
        } else {
            CommandModel::Refused("Start a session before using /parallelism."@)
        },
    }
}

/// What a request about the capacity comes to.
pub fn parallelism_command(args: &str, in_session: bool) -> (r: ParallelismCommand)
    ensures
        r@ == command_of(args@, in_session),
{
    let length: usize = byte_count(args);
    proof {
        assert(args@.len() > 0 ==> bytes_of(args@) > 0);
    }
    let capacity: Option<usize> = if length == 0 {
        None
    } else {
        match parse_number(args) {
            Some(n) if n <= usize::MAX as u64 => Some(n as usize),
            _ => {
                return ParallelismCommand::Refused(
                    "Usage: /parallelism [nonnegative integer]; 0 disables enforcement.".to_string(),
                );
            },
        }
    };
    if !in_session {
        return ParallelismCommand::Refused(
            "Start a session before using /parallelism.".to_string(),
        );
    }
    ParallelismCommand::Request(capacity)
}

/// What is said of the capacity.
pub open spec fn capacity_text(capacity: usize) -> Seq<char> {
    if capacity == 0 {
        "Task parallelism is off for this session."@
    } else if capacity == 1 {
        "Task parallelism is 1 slot for this session."@
    } else {
        "Task parallelism is "@ + decimal_of(capacity as nat) + " slots for this session."@
    }
}

/// What is said of the capacity.
pub fn parallelism_message(capacity: usize) -> (text: String)
    ensures
        text@ == capacity_text(capacity),
{
    if capacity == 0 {
        "Task parallelism is off for this session.".to_string()
    } else if capacity == 1 {
        "Task parallelism is 1 slot for this session.".to_string()
    } else {
        let mut text = "Task parallelism is ".to_string();
        text.append(decimal(capacity as u64).as_str());
        text.append(" slots for this session.");
        text
    }
}

/// What is said when the capacity cannot be had.
pub fn parallelism_trouble(error: &str) -> (text: String)
    ensures
        text@ == "Could not access task parallelism: "@ + error@,
{
    let mut text = "Could not access task parallelism: ".to_string();
    text.append(error);
    text
}

/// What is said when the ledger cannot be had.
pub fn ledger_trouble(error: &str) -> (text: String)
    ensures
        text@ == "Could not read task ledger: "@ + error@,
{
    let mut text = "Could not read task ledger: ".to_string();
    text.append(error);
    text
}

/// What is shown to the user.
#[derive(Debug, PartialEq, Eq)]
pub enum Notice {
    Info(String),
    Error(String),
}

/// What is shown to the user, with its text as a sequence of characters.
pub enum NoticeModel {
    Info(Seq<char>),
    Error(Seq<char>),
}

impl View for Notice {
    type V = NoticeModel;

    open spec fn view(&self) -> NoticeModel {
        match *self {
            Notice::Info(text) => NoticeModel::Info(text@),
            Notice::Error(text) => NoticeModel::Error(text@),
        }
    }
}

/// What is shown of a request about the capacity: nothing once another session is displayed.
pub fn parallelism_notice(displayed: bool, result: Result<usize, String>) -> (r: Option<Notice>)
    ensures
        r is Some <==> displayed,
        r matches Some(notice) ==> notice@ == match result {
            Ok(capacity) => NoticeModel::Info(capacity_text(capacity)),
            Err(error) => NoticeModel::Error("Could not access task parallelism: "@ + error@),
        },
{
    if !displayed {
        return None;
    }
    match result {
        Ok(capacity) => Some(Notice::Info(parallelism_message(capacity))),
        Err(error) => Some(Notice::Error(parallelism_trouble(error.as_str()))),
    }
}

/// An account that the user can pick.
#[derive(Debug, PartialEq, Eq)]
pub struct PickableAccount {
    pub id: String,
    pub label: String,
    pub is_active: bool,
    pub account_id: Option<String>,
    pub email: Option<String>,
    /// How the account authenticates, as it is shown.
    pub auth_mode: String,
}

/// A row of a picker.
#[derive(Debug, PartialEq, Eq)]
pub struct SelectionItem {
    pub name: String,
    pub description: String,
    pub is_current: bool,
    pub search_value: String,
    /// The account that is switched to when the row is picked.
    pub account_id: String,
}

/// Whom an account belongs to: its address, else the provider's name for it.
pub open spec fn principal_of(account: PickableAccount) -> Seq<char> {
    match (maybe(account.email), maybe(account.account_id)) {
        (Some(email), _) => email,
        (None, Some(id)) => id,
        (None, None) => "no provider identity"@,
    }
}

/// The row of an account: it goes by its label, is searched by everything it is known by, and picks
/// its stable identity.
pub fn account_item(account: &PickableAccount) -> (item: SelectionItem)
    ensures
        item.name@ == account.label@,
        item.description@ == principal_of(*account) + " · "@ + account.auth_mode@,
        item.is_current == account.is_active,
        item.search_value@ == account.label@ + " "@ + account.id@ + " "@ + principal_of(*account),
        item.account_id@ == account.id@,
{
    let principal = match &account.email {
        Some(email) => email.clone(),
        None => match &account.account_id {
            Some(id) => id.clone(),
            None => "no provider identity".to_string(),
        },
    };
    let mut description = principal.clone();
    description.append(" · ");
    description.append(account.auth_mode.as_str());
    let mut search_value = account.label.clone();
    search_value.append(" ");
    search_value.append(account.id.as_str());
    search_value.append(" ");
    search_value.append(principal.as_str());
    SelectionItem {
        name: account.label.clone(),
        description,
        is_current: account.is_active,
        search_value,
        account_id: account.id.clone(),
    }
}

/// The command without arguments reads the capacity, and with a whole number that fits changes it to
/// that number; anything else is refused with how it is used, in a session or not. Outside a session
/// the request is refused.
pub proof fn commands_are_requests(n: u64, args: Seq<char>)
    ensures
        command_of(Seq::empty(), true) == CommandModel::Request(None),
        n <= usize::MAX ==> command_of(decimal_of(n as nat), true) == CommandModel::Request(
            Some(n as usize),
        ),
        n <= usize::MAX ==> command_of(decimal_of(n as nat), false) == CommandModel::Refused(
            "Start a session before using /parallelism."@,
        ),
        command_of(Seq::empty(), false) == CommandModel::Refused(
            "Start a session before using /parallelism."@,
        ),
        args.len() > 0 && (exists|i: int|
            0 <= i < args.len() && !('0' <= #[trigger] args[i] <= '9') && args[i] != '+')
            ==> command_of(args, true) == CommandModel::Refused(
            "Usage: /parallelism [nonnegative integer]; 0 disables enforcement."@,
        ) && command_of(args, false) == command_of(args, true),
{
    number_round_trip(n);
    decimal_digits(n as nat);
    if args.len() > 0 && exists|i: int|
        0 <= i < args.len() && !('0' <= #[trigger] args[i] <= '9') && args[i] != '+' {
        let i = choose|i: int|
            0 <= i < args.len() && !('0' <= #[trigger] args[i] <= '9') && args[i] != '+';
        let s = crate::text::unsigned(args);
        let at = if args[0] == '+' { i - 1 } else { i };
        assert(s[at] == args[i]);
        assert(!crate::text::digit(s[at]));
    }
}

/// An account is told by its address where it has one, and else by the provider's name for it.
pub proof fn principals_are_addresses_first(account: PickableAccount)
    ensures
        account.email matches Some(email) ==> principal_of(account) == email@,
        account.email is None ==> (account.account_id matches Some(id) ==> principal_of(account)
            == id@),
        account.email is None && account.account_id is None ==> principal_of(account)
            == "no provider identity"@,
{
}

/// What is said of the parallelism tells it: that it is off, or how many slots there are.
pub proof fn parallelism_is_told(capacity: usize)
    ensures
        capacity == 0 <==> capacity_text(capacity) == "Task parallelism is off for this session."@,
        capacity > 0 ==> mentions(capacity_text(capacity), decimal_of(capacity as nat)),
{
    reveal_strlit("Task parallelism is off for this session.");
    reveal_strlit("Task parallelism is 1 slot for this session.");
    reveal_strlit("Task parallelism is ");
    let lead = "Task parallelism is "@;
    let number = decimal_of(capacity as nat);
    decimal_digits(capacity as nat);
    if capacity == 1 {
        let text = capacity_text(capacity);
        assert(number =~= seq!['1']) by {
            reveal_with_fuel(decimal_of, 2);
        }
        assert(text[20] == '1');
        assert(text.subrange(20, 21) =~= number);
        assert(stands_at(text, number, 20));
        assert(text[20] != "Task parallelism is off for this session."@[20]);
    } else if capacity > 1 {
        mentions_itself(number);
        mentioned_after(lead, number, number);
        mentioned_before(lead + number, " slots for this session."@, number);
        assert(capacity_text(capacity)[20] == number[0]);
        assert(digit(number[0]));
        assert("Task parallelism is off for this session."@[20] == 'o');
    }
}

} // verus!
