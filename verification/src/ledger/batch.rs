//! A batch of entries as a caller writes it, and what came of it.

use vstd::prelude::*;

use crate::text::maybe;
use crate::text::texts;

verus! {

/// One entry as the model wrote it, already narrowed to typed fields. `Some(None)` on a
/// clearable field means "clear it"; `None` means "leave it alone".
#[derive(Debug, PartialEq, Eq)]
pub struct Entry {
    /// Set when the wire value was not an object; refused with this message.
    pub invalid: Option<String>,
    pub id: Option<String>,
    pub title: Option<String>,
    pub status: Option<String>,
    /// Complete prerequisite set.
    pub after: Option<Option<Vec<String>>>,
    /// Complete direct-dependent set.
    pub before: Option<Option<Vec<String>>>,
    pub cancelled: Option<Option<String>>,
    pub waiting: Option<Option<String>>,
    pub owner: Option<Option<String>>,
    /// The pieces a task turned out to be. The first keeps the row, id and findings.
    pub split: Option<Vec<String>>,
    /// Tasks whose outcome this one absorbed; their findings and dependents move here.
    pub merge: Option<Vec<String>>,
    /// Replaces the task body. An explicitly empty body clears it.
    pub body: Option<String>,
    /// Appends one finding, preserving its text exactly.
    pub note: Option<String>,
}

#[derive(Debug, PartialEq, Eq)]
pub struct Outcome {
    pub task: Option<String>,
    pub created: bool,
    pub refused: bool,
    pub changed: bool,
}

#[derive(Debug, PartialEq, Eq)]
pub struct Division {
    pub task: String,
    pub from: String,
    pub into: Vec<String>,
}

#[derive(Debug, PartialEq, Eq)]
pub struct Absorption {
    pub survivor: String,
    pub absorbed: Vec<String>,
}

#[derive(Debug, PartialEq, Eq)]
pub struct Applied {
    pub errors: Vec<String>,
    /// Aligned with the entries.
    pub outcomes: Vec<Outcome>,
    pub divided: Vec<Division>,
    pub merged: Vec<Absorption>,
    pub changed: bool,
}

/// An entry, with its texts as sequences of characters.
#[verifier::ext_equal]
pub struct EntryModel {
    pub invalid: Option<Seq<char>>,
    pub id: Option<Seq<char>>,
    pub title: Option<Seq<char>>,
    pub status: Option<Seq<char>>,
    pub after: Option<Option<Seq<Seq<char>>>>,
    pub before: Option<Option<Seq<Seq<char>>>>,
    pub cancelled: Option<Option<Seq<char>>>,
    pub waiting: Option<Option<Seq<char>>>,
    pub owner: Option<Option<Seq<char>>>,
    pub split: Option<Seq<Seq<char>>>,
    pub merge: Option<Seq<Seq<char>>>,
    pub body: Option<Seq<char>>,
    pub note: Option<Seq<char>>,
}

/// What came of one entry.
#[verifier::ext_equal]
pub struct OutcomeModel {
    pub task: Option<Seq<char>>,
    pub created: bool,
    pub refused: bool,
    pub changed: bool,
}

/// One task that became several.
#[verifier::ext_equal]
pub struct DivisionModel {
    pub task: Seq<char>,
    pub from: Seq<char>,
    pub into: Seq<Seq<char>>,
}

/// Several tasks that became one.
#[verifier::ext_equal]
pub struct AbsorptionModel {
    pub survivor: Seq<char>,
    pub absorbed: Seq<Seq<char>>,
}

/// What came of a batch.
#[verifier::ext_equal]
pub struct AppliedModel {
    pub errors: Seq<Seq<char>>,
    pub outcomes: Seq<OutcomeModel>,
    pub divided: Seq<DivisionModel>,
    pub merged: Seq<AbsorptionModel>,
    pub changed: bool,
}

/// The texts an optional list holds.
pub open spec fn maybe_texts(list: Option<Vec<String>>) -> Option<Seq<Seq<char>>> {
    match list {
        Some(list) => Some(texts(list@)),
        None => None,
    }
}

/// A field that can be set, cleared or left alone.
pub open spec fn clearable(field: Option<Option<String>>) -> Option<Option<Seq<char>>> {
    match field {
        Some(field) => Some(maybe(field)),
        None => None,
    }
}

/// A list that can be set, cleared or left alone.
pub open spec fn clearable_texts(field: Option<Option<Vec<String>>>) -> Option<
    Option<Seq<Seq<char>>>,
> {
    match field {
        Some(field) => Some(maybe_texts(field)),
        None => None,
    }
}

impl View for Entry {
    type V = EntryModel;

    open spec fn view(&self) -> EntryModel {
        EntryModel {
            invalid: maybe(self.invalid),
            id: maybe(self.id),
            title: maybe(self.title),
            status: maybe(self.status),
            after: clearable_texts(self.after),
            before: clearable_texts(self.before),
            cancelled: clearable(self.cancelled),
            waiting: clearable(self.waiting),
            owner: clearable(self.owner),
            split: maybe_texts(self.split),
            merge: maybe_texts(self.merge),
            body: maybe(self.body),
            note: maybe(self.note),
        }
    }
}

/// The entries that a list stands for.
pub open spec fn entries_of(list: Seq<Entry>) -> Seq<EntryModel> {
    Seq::new(list.len(), |i: int| list[i]@)
}

impl View for Outcome {
    type V = OutcomeModel;

    open spec fn view(&self) -> OutcomeModel {
        OutcomeModel {
            task: maybe(self.task),
            created: self.created,
            refused: self.refused,
            changed: self.changed,
        }
    }
}

impl View for Division {
    type V = DivisionModel;

    open spec fn view(&self) -> DivisionModel {
        DivisionModel { task: self.task@, from: self.from@, into: texts(self.into@) }
    }
}

impl View for Absorption {
    type V = AbsorptionModel;

    open spec fn view(&self) -> AbsorptionModel {
        AbsorptionModel { survivor: self.survivor@, absorbed: texts(self.absorbed@) }
    }
}

impl View for Applied {
    type V = AppliedModel;

    open spec fn view(&self) -> AppliedModel {
        AppliedModel {
            errors: texts(self.errors@),
            outcomes: Seq::new(self.outcomes@.len(), |i: int| self.outcomes@[i]@),
            divided: Seq::new(self.divided@.len(), |i: int| self.divided@[i]@),
            merged: Seq::new(self.merged@.len(), |i: int| self.merged@[i]@),
            changed: self.changed,
        }
    }
}

/// An entry that says nothing.
pub open spec fn silent() -> EntryModel {
    EntryModel {
        invalid: None,
        id: None,
        title: None,
        status: None,
        after: None,
        before: None,
        cancelled: None,
        waiting: None,
        owner: None,
        split: None,
        merge: None,
        body: None,
        note: None,
    }
}

impl Default for Entry {
    fn default() -> (entry: Self)
        ensures
            entry@ == silent(),
    {
        Entry {
            invalid: None,
            id: None,
            title: None,
            status: None,
            after: None,
            before: None,
            cancelled: None,
            waiting: None,
            owner: None,
            split: None,
            merge: None,
            body: None,
            note: None,
        }
    }
}

/// The outcome of an entry that was not looked at.
pub open spec fn untouched() -> OutcomeModel {
    OutcomeModel { task: None, created: false, refused: false, changed: false }
}

impl Default for Outcome {
    fn default() -> (outcome: Self)
        ensures
            outcome@ == untouched(),
    {
        Outcome { task: None, created: false, refused: false, changed: false }
    }
}

/// Nothing came of `n` entries yet.
pub open spec fn nothing(n: nat) -> AppliedModel {
    AppliedModel {
        errors: Seq::empty(),
        outcomes: Seq::new(n, |i: int| untouched()),
        divided: Seq::empty(),
        merged: Seq::empty(),
        changed: false,
    }
}

impl Default for Applied {
    fn default() -> (applied: Self)
        ensures
            applied@ == nothing(0),
    {
        let applied = Applied {
            errors: Vec::new(),
            outcomes: Vec::new(),
            divided: Vec::new(),
            merged: Vec::new(),
            changed: false,
        };
        assert(applied@ =~= nothing(0));
        applied
    }
}

/// As many outcomes as there are entries, all alike.
pub(crate) fn outcomes_for(n: usize, refused: bool) -> (outcomes: Vec<Outcome>)
    ensures
        outcomes@.len() == n,
        forall|i: int|
            0 <= i < n ==> (#[trigger] outcomes@[i])@ == (OutcomeModel { refused, ..untouched() }),
{
    let mut outcomes: Vec<Outcome> = Vec::new();
    let mut i: usize = 0;
    while i < n
        invariant
            i <= n,
            outcomes@.len() == i,
            forall|j: int|
                0 <= j < i ==> (#[trigger] outcomes@[j])@ == (OutcomeModel {
                    refused,
                    ..untouched()
                }),
        decreases n - i,
    {
        outcomes.push(Outcome { task: None, created: false, refused, changed: false });
        i += 1;
    }
    outcomes
}

} // verus!
