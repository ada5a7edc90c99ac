//! Where ledgers are kept, and what reading one settles.
//!
//! There is one ledger document per thread, in the directory `tasks/<thread id>` of the home
//! directory.

use vstd::prelude::*;
use vstd::string::StringExecFns;

use crate::ledger::model::Ledger;
use crate::ledger::model::LedgerModel;
use crate::ledger::model::blank;
use crate::text::chars_of;
use crate::text::maybe;

verus! {

/// The name of the ledger document.
pub const LEDGER_FILE: &'static str = "ledger.json";

/// A path below another: an absolute path stands for itself, and one separator stands between the
/// two.
pub open spec fn path_of(base: Seq<char>, part: Seq<char>) -> Seq<char> {
    if part.len() > 0 && part[0] == '/' {
        part
    } else if base.len() == 0 || base.last() == '/' {
        base + part
    } else {
        base + "/"@ + part
    }
}

/// A path below another.
pub fn path_join(base: &str, part: &str) -> (path: String)
    ensures
        path@ == path_of(base@, part@),
{
    let head = chars_of(base);
    let tail = chars_of(part);
    if tail.len() > 0 && tail[0] == '/' {
        return part.to_string();
    }
    let mut path = base.to_string();
    if head.len() > 0 && head[head.len() - 1] != '/' {
        path.append("/");
    }
    path.append(part);
    path
}

/// The directory of a thread's ledger.
pub open spec fn ledger_dir_of(home: Seq<char>, thread_id: Seq<char>) -> Seq<char> {
    path_of(path_of(home, "tasks"@), thread_id)
}

/// The directory of a thread's ledger.
pub fn ledger_dir(codex_home: &str, thread_id: &str) -> (dir: String)
    ensures
        dir@ == ledger_dir_of(codex_home@, thread_id@),
{
    let tasks = path_join(codex_home, "tasks");
    path_join(tasks.as_str(), thread_id)
}

/// A time on the system's clock, carried through without looking inside.
#[verifier::external_type_specification]
#[verifier::external_body]
pub struct ExSystemTime(std::time::SystemTime);

/// `SystemTime::now` reads the clock. What it says is not stated.
pub assume_specification[ std::time::SystemTime::now ]() -> std::time::SystemTime
;

/// `Duration::as_millis` counts the milliseconds of a span of time. As what the clock says is not
/// stated, neither is the count.
pub assume_specification[ std::time::Duration::as_millis ](span: &std::time::Duration) -> u128
;

/// `SystemTime::duration_since`: the time that has passed since the start of 1970, or nothing where
/// the clock stands before that. As what the clock says is not stated, neither is the span.
#[verifier::external_body]
fn since_1970(time: std::time::SystemTime) -> (elapsed: Option<std::time::Duration>) {
    time.duration_since(std::time::UNIX_EPOCH).ok()
}

/// The milliseconds from the start of 1970 to the present, or nothing where the clock stands before
/// that.
fn clock() -> (elapsed: Option<u128>) {
    match since_1970(std::time::SystemTime::now()) {
        Some(elapsed) => Some(elapsed.as_millis()),
        None => None,
    }
}

/// A time on the clock as Unix milliseconds: what does not fit is the largest, and what comes
/// before 1970 is zero.
pub open spec fn clock_time(elapsed: Option<u128>) -> i64 {
    match elapsed {
        Some(elapsed) => if elapsed <= i64::MAX {
            elapsed as i64
        } else {
            i64::MAX
        },
        None => 0,
    }
}

/// A time on the clock as Unix milliseconds.
pub fn unix_ms(elapsed: Option<u128>) -> (now: i64)
    ensures
        now == clock_time(elapsed),
{
    match elapsed {
        Some(elapsed) => if elapsed <= i64::MAX as u128 {
            elapsed as i64
        } else {
            i64::MAX
        },
        None => 0,
    }
}

/// The present in Unix milliseconds.
pub fn now_ms() -> (now: i64)
    ensures
        now >= 0,
{
    unix_ms(clock())
}

/// A spawned thread's capacity: one slot while its root has any, and none while the root has none.
pub open spec fn following(ledger: LedgerModel, root: LedgerModel) -> LedgerModel {
    LedgerModel {
        parallelism: if root.parallelism != 0 {
            1
        } else {
            0
        },
        ..ledger
    }
}

impl Ledger {
    /// Takes over the capacity that follows from the root's ledger.
    pub fn follow(&mut self, root: &Ledger)
        ensures
            final(self).model() == following(old(self).model(), root.model()),
    {
        self.parallelism = if root.parallelism != 0 {
            1
        } else {
            0
        };
    }
}

/// The outside steps of reading or changing a ledger, in the order of a change that goes through.
#[derive(Clone, Copy, Debug, PartialEq, Eq, Structural)]
pub enum AccessWork {
    /// Read the document.
    Read,
    /// Read the document of the root that the thread follows.
    ReadRoot,
    /// Let the caller change the ledger.
    Change,
    /// Write the document back.
    Write,
    /// The ledger is at hand, or the access has failed.
    Finish,
}

/// How an outside step of an access ended.
#[derive(Debug, PartialEq, Eq)]
pub enum AccessEvent {
    Document(Ledger),
    /// There is no document.
    Missing,
    /// The caller is done with the ledger, and says whether it changed.
    Changed { ledger: Ledger, changed: bool },
    Done,
    Failed(String),
}

/// An access to a ledger on its way: the step being taken, whether the ledger is to be changed, the
/// ledger once it was read, and what went wrong.
#[derive(Debug, PartialEq, Eq)]
pub struct LedgerAccess {
    pub doing: AccessWork,
    pub changing: bool,
    pub ledger: Option<Ledger>,
    pub failure: Option<String>,
}

/// An access to a ledger on its way, with its texts as sequences of characters.
#[verifier::ext_equal]
pub struct AccessModel {
    pub doing: AccessWork,
    pub changing: bool,
    pub ledger: Option<LedgerModel>,
    pub failure: Option<Seq<char>>,
}

/// What an optional ledger stands for.
pub open spec fn kept(ledger: Option<Ledger>) -> Option<LedgerModel> {
    match ledger {
        Some(ledger) => Some(ledger.model()),
        None => None,
    }
}

impl View for LedgerAccess {
    type V = AccessModel;

    open spec fn view(&self) -> AccessModel {
        AccessModel {
            doing: self.doing,
            changing: self.changing,
            ledger: kept(self.ledger),
            failure: maybe(self.failure),
        }
    }
}

/// The ledger that an event of reading brings: a document that is not there is an empty ledger.
pub open spec fn brought(event: AccessEvent) -> Option<LedgerModel> {
    match event {
        AccessEvent::Document(ledger) => Some(ledger.model()),
        AccessEvent::Missing => Some(blank()),
        _ => None,
    }
}

/// The ledger is as its reader sees it.
pub open spec fn settled(access: AccessModel, ledger: LedgerModel) -> AccessModel {
    AccessModel {
        doing: if access.changing {
            AccessWork::Change
        } else {
            AccessWork::Finish
        },
        ledger: Some(ledger),
        ..access
    }
}

/// What an access does next. A thread that follows a root takes its capacity from there. A ledger
/// that its caller left unchanged is not written. An event that does not answer the step being
/// taken changes nothing.
pub open spec fn access_stepped(access: AccessModel, event: AccessEvent) -> AccessModel {
    match (access.doing, event) {
        (AccessWork::Finish, _) => access,
        (_, AccessEvent::Failed(error)) => AccessModel {
            doing: AccessWork::Finish,
            failure: Some(error@),
            ..access
        },
        (AccessWork::Read, _) => match brought(event) {
            Some(ledger) => if ledger.capacity_root is Some {
                AccessModel { doing: AccessWork::ReadRoot, ledger: Some(ledger), ..access }
            } else {
                settled(access, ledger)
            },
            None => access,
        },
        (AccessWork::ReadRoot, _) => match (brought(event), access.ledger) {
            (Some(root), Some(ledger)) => settled(access, following(ledger, root)),
            _ => access,
        },
        (AccessWork::Change, AccessEvent::Changed { ledger, changed }) => AccessModel {
            doing: if changed {
                AccessWork::Write
            } else {
                AccessWork::Finish
            },
            ledger: Some(ledger.model()),
            ..access
        },
        (AccessWork::Write, AccessEvent::Done) => AccessModel {
            doing: AccessWork::Finish,
            ..access
        },
        _ => access,
    }
}

/// The ledger that an event of reading brings.
fn bring(event: AccessEvent) -> (r: Option<Ledger>)
    ensures
        kept(r) == brought(event),
{
    match event {
        AccessEvent::Document(ledger) => Some(ledger),
        AccessEvent::Missing => Some(Ledger::default()),
        _ => None,
    }
}

impl LedgerAccess {
    /// An access that starts with its first step.
    pub fn start(changing: bool) -> (access: Self)
        ensures
            access@ == (AccessModel {
                doing: AccessWork::Read,
                changing,
                ledger: None,
                failure: None,
            }),
    {
        LedgerAccess { doing: AccessWork::Read, changing, ledger: None, failure: None }
    }

    /// The ledger is as its reader sees it.
    fn settle(self, ledger: Ledger) -> (access: Self)
        ensures
            access@ == settled(self@, ledger.model()),
    {
        let mut access = self;
        access.doing = if access.changing {
            AccessWork::Change
        } else {
            AccessWork::Finish
        };
        access.ledger = Some(ledger);
        access
    }

    /// What the access does next, now that its step ended. An event that does not answer the step
    /// being taken changes nothing.
    pub fn next(self, event: AccessEvent) -> (access: Self)
        ensures
            access@ == access_stepped(self@, event),
    {
        let mut access = self;
        match (access.doing, event) {
            (AccessWork::Finish, _) => {},
            (_, AccessEvent::Failed(error)) => {
                access.doing = AccessWork::Finish;
                access.failure = Some(error);
            },
            (AccessWork::Read, event) => {
                if let Some(ledger) = bring(event) {
                    if ledger.capacity_root.is_none() {
                        return access.settle(ledger);
                    }
                    access.doing = AccessWork::ReadRoot;
                    access.ledger = Some(ledger);
                }
            },
            (AccessWork::ReadRoot, event) => {
                if let Some(root) = bring(event) {
                    match access.ledger.take() {
                        Some(ledger) => {
                            let mut own = ledger;
                            own.follow(&root);
                            return access.settle(own);
                        },
                        None => {},
                    }
                }
            },
            (AccessWork::Change, AccessEvent::Changed { ledger, changed }) => {
                access.doing = if changed {
                    AccessWork::Write
                } else {
                    AccessWork::Finish
                };
                access.ledger = Some(ledger);
            },
            (AccessWork::Write, AccessEvent::Done) => {
                access.doing = AccessWork::Finish;
            },
            (_, _) => {},
        }
        access
    }
}

/// Where an access stands after a run of events.
pub open spec fn access_after(changing: bool, events: Seq<AccessEvent>) -> AccessModel
    decreases events.len(),
{
    if events.len() == 0 {
        AccessModel { doing: AccessWork::Read, changing, ledger: None, failure: None }
    } else {
        access_stepped(access_after(changing, events.drop_last()), events.last())
    }
}

/// A document is written only after its caller said that it changed: reading never rewrites it, and
/// neither does a change that came to nothing.
pub proof fn unchanged_ledgers_are_not_written(changing: bool, events: Seq<AccessEvent>)
    requires
        access_after(changing, events).doing == AccessWork::Write,
    ensures
        changing,
        exists|i: int|
            0 <= i < events.len() && (#[trigger] events[i] matches AccessEvent::Changed {
                ledger,
                changed,
            } && changed && access_after(changing, events).ledger == Some(ledger.model())),
    decreases events.len(),
{
    access_keeps_its_purpose(changing, events);
    if events.len() > 0 {
        let before = events.drop_last();
        if access_after(changing, before).doing == AccessWork::Write {
            unchanged_ledgers_are_not_written(changing, before);
            let i = choose|i: int|
                0 <= i < before.len() && (#[trigger] before[i] matches AccessEvent::Changed {
                    ledger,
                    changed,
                } && changed && access_after(changing, before).ledger == Some(ledger.model()));
            assert(events[i] == before[i]);
        } else {
            assert(events[events.len() - 1] == events.last());
        }
    }
}

/// An access does what it started for, and one that only reads never gets to a change.
proof fn access_keeps_its_purpose(changing: bool, events: Seq<AccessEvent>)
    ensures
        access_after(changing, events).changing == changing,
        access_after(changing, events).doing == AccessWork::Change || access_after(
            changing,
            events,
        ).doing == AccessWork::Write ==> changing,
    decreases events.len(),
{
    if events.len() > 0 {
        access_keeps_its_purpose(changing, events.drop_last());
    }
}

/// A thread that follows a root is read with one slot while the root has any, and with none while
/// the root has none; a thread that follows none keeps its own capacity.
pub proof fn followers_take_the_roots_capacity(own: Ledger, root: Ledger)
    ensures
        ({
            let read = access_after(false, seq![AccessEvent::Document(own)]);
            let followed = access_after(
                false,
                seq![AccessEvent::Document(own), AccessEvent::Document(root)],
            );
            if own.model().capacity_root is Some {
                followed.doing == AccessWork::Finish && followed.ledger == Some(
                    LedgerModel {
                        parallelism: if root.model().parallelism == 0 {
                            0
                        } else {
                            1
                        },
                        ..own.model()
                    },
                )
            } else {
                read.doing == AccessWork::Finish && read.ledger == Some(own.model())
            }
        }),
{
    let one = seq![AccessEvent::Document(own)];
    let two = seq![AccessEvent::Document(own), AccessEvent::Document(root)];
    reveal_with_fuel(access_after, 3);
    assert(one.drop_last() =~= Seq::empty());
    assert(two.drop_last() =~= one);
}

/// A ledger that is read without a root to follow is at hand as it is; one that is to be changed is
/// handed to its caller, and what the caller made of it is kept: written where the caller says that it
/// changed, and not written where it does not.
pub proof fn changed_ledgers_are_written(own: Ledger, made: Ledger, changed: bool)
    requires
        own.model().capacity_root is None,
    ensures
        ({
            let start = AccessModel {
                doing: AccessWork::Read,
                changing: true,
                ledger: None,
                failure: None,
            };
            let read = access_stepped(start, AccessEvent::Document(own));
            let given = access_stepped(read, AccessEvent::Changed { ledger: made, changed });
            let end = access_stepped(given, AccessEvent::Done);
            &&& read.doing == AccessWork::Change && read.ledger == Some(own.model())
            &&& given.ledger == Some(made.model())
            &&& given.doing == (if changed { AccessWork::Write } else { AccessWork::Finish })
            &&& end.doing == AccessWork::Finish && end.ledger == Some(made.model()) && end.failure
                is None
        }),
{
}

/// Where there is no document, the ledger is empty: no tasks, no workers, no pause, no limit.
pub proof fn missing_ledgers_are_empty(changing: bool)
    ensures
        ({
            let start = AccessModel {
                doing: AccessWork::Read,
                changing,
                ledger: None,
                failure: None,
            };
            let read = access_stepped(start, AccessEvent::Missing);
            &&& read.doing == (if changing { AccessWork::Change } else { AccessWork::Finish })
            &&& read.failure is None
            &&& read.ledger matches Some(ledger) && ledger.tasks.len() == 0
                && ledger.executions.len() == 0 && ledger.pause is None && ledger.parallelism == 0
                && ledger.capacity_root is None
        }),
{
}

/// A step that fails ends an access with what went wrong, and nothing is written after that.
pub proof fn failed_accesses_end(access: AccessModel, error: String, event: AccessEvent)
    requires
        access.doing != AccessWork::Finish,
    ensures
        ({
            let next = access_stepped(access, AccessEvent::Failed(error));
            &&& next.doing == AccessWork::Finish
            &&& next.failure == Some(error@)
            &&& access_stepped(next, event) == next
        }),
{
}

/// A part is put below a directory with exactly one slash between them, and a part that is absolute
/// stands for itself.
pub proof fn paths_have_one_separator(base: Seq<char>, part: Seq<char>)
    requires
        base.len() > 0,
    ensures
        part.len() > 0 && part[0] == '/' ==> path_of(base, part) == part,
        !(part.len() > 0 && part[0] == '/') ==> {
            let path = path_of(base, part);
            let lead = path.len() - part.len();
            &&& path.skip(lead) == part
            &&& base.is_prefix_of(path)
            &&& lead > 0 && path[lead - 1] == '/'
            &&& lead == base.len() || lead == base.len() + 1
            &&& lead == base.len() + 1 <==> base.last() != '/'
        },
{
    reveal_strlit("/");
    let path = path_of(base, part);
    if !(part.len() > 0 && part[0] == '/') {
        let lead = path.len() - part.len();
        assert(path.skip(lead) =~= part);
        assert(base =~= path.take(base.len() as int));
    }
}

/// Two threads keep their ledgers in two directories.
pub proof fn threads_have_separate_ledgers(home: Seq<char>, a: Seq<char>, b: Seq<char>)
    requires
        a != b,
        !(a.len() > 0 && a[0] == '/'),
        !(b.len() > 0 && b[0] == '/'),
    ensures
        ledger_dir_of(home, a) != ledger_dir_of(home, b),
{
    reveal_strlit("tasks");
    let base = path_of(home, "tasks"@);
    paths_have_one_separator(base, a);
    paths_have_one_separator(base, b);
    let x = ledger_dir_of(home, a);
    let y = ledger_dir_of(home, b);
    if x == y {
        if a.len() == b.len() {
            assert(x.skip(x.len() - a.len()) == y.skip(y.len() - b.len()));
        }
    }
}

/// A moment after the start of 1970 is its milliseconds where they fit, and the largest number else; one
/// before is zero.
pub proof fn clock_times_are_milliseconds(elapsed: u128)
    ensures
        elapsed <= 9_223_372_036_854_775_807 ==> clock_time(Some(elapsed)) == elapsed,
        elapsed > 9_223_372_036_854_775_807 ==> clock_time(Some(elapsed))
            == 9_223_372_036_854_775_807,
        clock_time(None) == 0,
{
}

/// An event that does not answer the step that an access is taking changes nothing.
pub proof fn stray_events_leave_an_access(access: AccessModel, event: AccessEvent)
    requires
        !(event is Failed) || access.doing == AccessWork::Finish,
        access.doing == AccessWork::Read || access.doing == AccessWork::ReadRoot ==> event is Changed
            || event is Done,
        access.doing == AccessWork::Change ==> !(event is Changed),
        access.doing == AccessWork::Write ==> !(event is Done),
    ensures
        access_stepped(access, event) == access,
{
}

} // verus!
