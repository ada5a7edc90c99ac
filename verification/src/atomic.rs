//! Replacing a file as a whole: the new content is written beside it and takes its place in one
//! step, and what was written beside it is taken away when that fails.

use vstd::prelude::*;
use vstd::string::StringExecFns;

use crate::text::decimal;
use crate::text::decimal_of;
use crate::text::maybe;
use crate::text::wide_decimal;

verus! {

/// The outside steps of a replacement, in the order of one that goes through.
#[derive(Clone, Copy, Debug, PartialEq, Eq, Structural)]
pub enum ReplaceWork {
    /// Create the file beside the destination, which must not be there.
    Create,
    Write,
    Sync,
    /// Let it take the place of the destination.
    Rename,
    SyncDirectory,
    /// Take the file beside the destination away.
    Remove,
    /// The replacement is answered.
    Finish,
}

/// How an outside step ended.
#[derive(Debug, PartialEq, Eq)]
pub enum ReplaceEvent {
    Done,
    Failed(String),
}

/// A replacement on its way: the step being taken, and what it will be answered when it failed.
#[derive(Debug, PartialEq, Eq)]
pub struct Replacement {
    pub doing: ReplaceWork,
    pub failure: Option<String>,
}

/// A replacement on its way, with its text as a sequence of characters.
#[verifier::ext_equal]
pub struct ReplacementModel {
    pub doing: ReplaceWork,
    pub failure: Option<Seq<char>>,
}

impl View for Replacement {
    type V = ReplacementModel;

    open spec fn view(&self) -> ReplacementModel {
        ReplacementModel { doing: self.doing, failure: maybe(self.failure) }
    }
}

/// What a replacement does next.
pub open spec fn replace_stepped(state: ReplacementModel, event: ReplaceEvent) -> ReplacementModel {
    match (state.doing, event) {
        (ReplaceWork::Finish, _) => state,
        (ReplaceWork::Remove, _) => ReplacementModel {
            doing: ReplaceWork::Finish,
            failure: state.failure,
        },
        (ReplaceWork::Create, ReplaceEvent::Failed(error)) => ReplacementModel {
            doing: ReplaceWork::Finish,
            failure: Some(error@),
        },
        (_, ReplaceEvent::Failed(error)) => ReplacementModel {
            doing: ReplaceWork::Remove,
            failure: Some(error@),
        },
        (doing, ReplaceEvent::Done) => ReplacementModel {
            doing: match doing {
                ReplaceWork::Create => ReplaceWork::Write,
                ReplaceWork::Write => ReplaceWork::Sync,
                ReplaceWork::Sync => ReplaceWork::Rename,
                ReplaceWork::Rename => ReplaceWork::SyncDirectory,
                _ => ReplaceWork::Finish,
            },
            failure: None,
        },
    }
}

impl Replacement {
    /// A replacement that starts with its first step.
    pub fn start() -> (state: Self)
        ensures
            state@ == (ReplacementModel { doing: ReplaceWork::Create, failure: None }),
    {
        Replacement { doing: ReplaceWork::Create, failure: None }
    }

    /// What the replacement does next, now that its step ended. A failure to take the file beside
    /// the destination away is passed over.
    pub fn next(self, event: ReplaceEvent) -> (state: Self)
        ensures
            state@ == replace_stepped(self@, event),
    {
        match (self.doing, event) {
            (ReplaceWork::Finish, _) => self,
            (ReplaceWork::Remove, _) => Replacement {
                doing: ReplaceWork::Finish,
                failure: self.failure,
            },
            (ReplaceWork::Create, ReplaceEvent::Failed(error)) => Replacement {
                doing: ReplaceWork::Finish,
                failure: Some(error),
            },
            (_, ReplaceEvent::Failed(error)) => Replacement {
                doing: ReplaceWork::Remove,
                failure: Some(error),
            },
            (doing, ReplaceEvent::Done) => Replacement {
                doing: match doing {
                    ReplaceWork::Create => ReplaceWork::Write,
                    ReplaceWork::Write => ReplaceWork::Sync,
                    ReplaceWork::Sync => ReplaceWork::Rename,
                    ReplaceWork::Rename => ReplaceWork::SyncDirectory,
                    _ => ReplaceWork::Finish,
                },
                failure: None,
            },
        }
    }
}

/// Where a replacement stands after a run of events.
pub open spec fn replace_after(events: Seq<ReplaceEvent>) -> ReplacementModel
    decreases events.len(),
{
    if events.len() == 0 {
        ReplacementModel { doing: ReplaceWork::Create, failure: None }
    } else {
        replace_stepped(replace_after(events.drop_last()), events.last())
    }
}

/// The destination is replaced only by content that was written and brought to disk whole; and a
/// replacement that created a file beside it is not answered with a failure before that file was to
/// be taken away.
pub proof fn replacement_is_whole_or_undone(events: Seq<ReplaceEvent>)
    requires
        events.len() > 0,
    ensures
        ({
            let before = replace_after(events.drop_last());
            let now = replace_after(events);
            &&& before.doing != ReplaceWork::Rename && now.doing == ReplaceWork::Rename
                ==> before.doing == ReplaceWork::Sync && events.last() is Done
            &&& before.doing != ReplaceWork::Finish && now.doing == ReplaceWork::Finish ==> if now.failure
                is Some {
                before.doing == ReplaceWork::Create || before.doing == ReplaceWork::Remove
            } else {
                before.doing == ReplaceWork::SyncDirectory && events.last() is Done
            }
        }),
{
    undone_with_failure(events.drop_last());
}

/// What is taken away again has failed.
proof fn undone_with_failure(events: Seq<ReplaceEvent>)
    ensures
        replace_after(events).doing == ReplaceWork::Remove ==> replace_after(events).failure is Some,
    decreases events.len(),
{
    if events.len() > 0 {
        undone_with_failure(events.drop_last());
    }
}

/// The name of the file beside a destination: the process and a moment keep it from colliding.
pub open spec fn beside_name(filename: Seq<char>, process: u32, nonce: u128) -> Seq<char> {
    "."@ + filename + ".tmp-"@ + decimal_of(process as nat) + "-"@ + decimal_of(nonce as nat)
}

/// The name of the file beside a destination.
pub fn temporary_beside(filename: &str, process: u32, nonce: u128) -> (name: String)
    ensures
        name@ == beside_name(filename@, process, nonce),
{
    let mut name = ".".to_string();
    name.append(filename);
    name.append(".tmp-");
    name.append(decimal(process as u64).as_str());
    name.append("-");
    name.append(wide_decimal(nonce).as_str());
    name
}

/// The name under which a ledger is written before it takes its place.
pub fn ledger_temporary(process: u32) -> (name: String)
    ensures
        name@ == "ledger.json."@ + decimal_of(process as nat) + ".tmp"@,
{
    let mut name = "ledger.json.".to_string();
    name.append(decimal(process as u64).as_str());
    name.append(".tmp");
    name
}

/// A replacement that goes through creates a file, writes it, brings it to disk, lets it take the place
/// of the destination and brings the directory to disk, in this order; a step that fails after the file
/// was created has it taken away first, and the replacement is answered with what failed.
pub proof fn replacements_go_through(state: ReplacementModel, error: String, last: ReplaceEvent)
    ensures
        ({
            let a = replace_stepped(
                ReplacementModel { doing: ReplaceWork::Create, failure: None },
                ReplaceEvent::Done,
            );
            let b = replace_stepped(a, ReplaceEvent::Done);
            let c = replace_stepped(b, ReplaceEvent::Done);
            let d = replace_stepped(c, ReplaceEvent::Done);
            let e = replace_stepped(d, ReplaceEvent::Done);
            &&& a.doing == ReplaceWork::Write
            &&& b.doing == ReplaceWork::Sync
            &&& c.doing == ReplaceWork::Rename
            &&& d.doing == ReplaceWork::SyncDirectory
            &&& e == (ReplacementModel { doing: ReplaceWork::Finish, failure: None })
        }),
        state.doing == ReplaceWork::Write || state.doing == ReplaceWork::Sync || state.doing
            == ReplaceWork::Rename || state.doing == ReplaceWork::SyncDirectory ==> ({
            let failed = replace_stepped(state, ReplaceEvent::Failed(error));
            &&& failed == (ReplacementModel {
                doing: ReplaceWork::Remove,
                failure: Some(error@),
            })
            &&& replace_stepped(failed, last) == (ReplacementModel {
                doing: ReplaceWork::Finish,
                failure: Some(error@),
            })
        }),
        state.doing == ReplaceWork::Create ==> replace_stepped(state, ReplaceEvent::Failed(error))
            == (ReplacementModel { doing: ReplaceWork::Finish, failure: Some(error@) }),
{
}

/// The file beside a destination is another one.
pub proof fn files_beside_are_others(filename: Seq<char>, process: u32, nonce: u128)
    ensures
        beside_name(filename, process, nonce) != filename,
        beside_name(filename, process, nonce).len() > filename.len(),
{
    reveal_strlit(".");
    assert("."@.len() == 1);
}

} // verus!
