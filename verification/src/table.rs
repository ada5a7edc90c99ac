//! A table of values under text keys, kept in the order of the keys.

use vstd::prelude::*;

use crate::text::chars_of;
use crate::text::same;

verus! {

/// A value that can be copied without changing what it stands for.
pub trait Duplicate: View + Sized {
    fn duplicate(&self) -> (copy: Self)
        ensures
            copy@ == self@,
    ;
}

/// The order of texts: by the first character in which they differ, a prefix before what extends
/// it.
pub open spec fn less(a: Seq<char>, b: Seq<char>) -> bool
    decreases a.len(),
{
    if b.len() == 0 {
        false
    } else if a.len() == 0 {
        true
    } else if a[0] != b[0] {
        a[0] < b[0]
    } else {
        less(a.skip(1), b.skip(1))
    }
}

/// The keys go up strictly, so that none occurs twice.
pub open spec fn ascending<V>(rows: Seq<(Seq<char>, V)>) -> bool {
    forall|i: int, j: int|
        0 <= i < j < rows.len() ==> less((#[trigger] rows[i]).0, (#[trigger] rows[j]).0)
}

/// How many keys come before `key`: where its row stands, or would stand.
pub open spec fn slot<V>(rows: Seq<(Seq<char>, V)>, key: Seq<char>) -> int
    decreases rows.len(),
{
    if rows.len() == 0 {
        0
    } else {
        slot(rows.drop_last(), key) + if less(rows.last().0, key) {
            1int
        } else {
            0int
        }
    }
}

/// Whether there is a row under `key`.
pub open spec fn listed<V>(rows: Seq<(Seq<char>, V)>, key: Seq<char>) -> bool {
    let at = slot(rows, key);
    0 <= at < rows.len() && rows[at].0 == key
}

/// The value under `key`.
pub open spec fn lookup<V>(rows: Seq<(Seq<char>, V)>, key: Seq<char>) -> Option<V> {
    if listed(rows, key) {
        Some(rows[slot(rows, key)].1)
    } else {
        None
    }
}

/// The rows with `value` under `key`, in place of what was there.
pub open spec fn placed<V>(rows: Seq<(Seq<char>, V)>, key: Seq<char>, value: V) -> Seq<
    (Seq<char>, V),
> {
    if listed(rows, key) {
        rows.update(slot(rows, key), (key, value))
    } else {
        rows.insert(slot(rows, key), (key, value))
    }
}

/// The rows without the one under `key`.
pub open spec fn dropped<V>(rows: Seq<(Seq<char>, V)>, key: Seq<char>) -> Seq<(Seq<char>, V)> {
    if listed(rows, key) {
        rows.remove(slot(rows, key))
    } else {
        rows
    }
}

/// The rows that come of placing some one after the other: in the order of their keys, a later one in
/// place of an earlier one.
pub open spec fn gathered<V>(rows: Seq<(Seq<char>, V)>) -> Seq<(Seq<char>, V)>
    decreases rows.len(),
{
    if rows.len() == 0 {
        Seq::empty()
    } else {
        placed(gathered(rows.drop_last()), rows.last().0, rows.last().1)
    }
}

/// No text comes before itself.
pub proof fn less_irreflexive(a: Seq<char>)
    ensures
        !less(a, a),
    decreases a.len(),
{
    if a.len() > 0 {
        less_irreflexive(a.skip(1));
    }
}

/// The order of texts is transitive.
pub proof fn less_transitive(a: Seq<char>, b: Seq<char>, c: Seq<char>)
    requires
        less(a, b),
        less(b, c),
    ensures
        less(a, c),
    decreases a.len(),
{
    if a.len() > 0 && b.len() > 0 && c.len() > 0 && a[0] == b[0] && b[0] == c[0] {
        less_transitive(a.skip(1), b.skip(1), c.skip(1));
    }
}

/// Of two different texts one comes first.
pub proof fn less_total(a: Seq<char>, b: Seq<char>)
    ensures
        less(a, b) || less(b, a) || a == b,
    decreases a.len(),
{
    if a.len() > 0 && b.len() > 0 {
        if a[0] == b[0] {
            less_total(a.skip(1), b.skip(1));
            if a.skip(1) == b.skip(1) {
                assert(a == seq![a[0]] + a.skip(1));
                assert(b == seq![b[0]] + b.skip(1));
            }
        }
    } else if a.len() == 0 && b.len() == 0 {
        assert(a == b);
    }
}

/// What comes first by its beginning stays first, whatever follows beginnings of one length.
pub proof fn less_extends(a: Seq<char>, b: Seq<char>, u: Seq<char>, v: Seq<char>)
    requires
        a.len() == b.len(),
        less(a, b),
    ensures
        less(a + u, b + v),
    decreases a.len(),
{
    assert((a + u)[0] == a[0]);
    assert((b + v)[0] == b[0]);
    if a[0] == b[0] {
        less_extends(a.skip(1), b.skip(1), u, v);
        assert((a + u).skip(1) =~= a.skip(1) + u);
        assert((b + v).skip(1) =~= b.skip(1) + v);
    }
}

/// Behind the same beginning the order is that of what follows.
pub proof fn less_behind(p: Seq<char>, u: Seq<char>, v: Seq<char>)
    requires
        less(u, v),
    ensures
        less(p + u, p + v),
    decreases p.len(),
{
    if p.len() == 0 {
        assert(p + u =~= u);
        assert(p + v =~= v);
    } else {
        less_behind(p.skip(1), u, v);
        assert((p + u).skip(1) =~= p.skip(1) + u);
        assert((p + v).skip(1) =~= p.skip(1) + v);
        assert((p + u)[0] == p[0]);
        assert((p + v)[0] == p[0]);
    }
}

/// The slot is where the keys stop coming before `key`.
proof fn slot_is<V>(rows: Seq<(Seq<char>, V)>, key: Seq<char>, at: int)
    requires
        0 <= at <= rows.len(),
        forall|i: int| 0 <= i < at ==> less((#[trigger] rows[i]).0, key),
        forall|i: int| at <= i < rows.len() ==> !less((#[trigger] rows[i]).0, key),
    ensures
        slot(rows, key) == at,
    decreases rows.len(),
{
    if rows.len() > 0 {
        let head = rows.drop_last();
        assert forall|i: int| 0 <= i < head.len() implies head[i] == rows[i] by {}
        if at == rows.len() {
            slot_is(head, key, at - 1);
        } else {
            slot_is(head, key, at);
        }
    }
}

/// In ascending rows the slot splits the keys into those before `key` and the rest.
pub proof fn slot_splits<V>(rows: Seq<(Seq<char>, V)>, key: Seq<char>)
    requires
        ascending(rows),
    ensures
        0 <= slot(rows, key) <= rows.len(),
        forall|i: int| 0 <= i < slot(rows, key) ==> less((#[trigger] rows[i]).0, key),
        forall|i: int| slot(rows, key) <= i < rows.len() ==> !less((#[trigger] rows[i]).0, key),
    decreases rows.len(),
{
    if rows.len() > 0 {
        let head = rows.drop_last();
        assert forall|i: int, j: int| 0 <= i < j < head.len() implies less(
            (#[trigger] head[i]).0,
            (#[trigger] head[j]).0,
        ) by {
            assert(head[i] == rows[i] && head[j] == rows[j]);
        }
        slot_splits(head, key);
        assert forall|i: int| 0 <= i < head.len() implies head[i] == rows[i] by {}
        if less(rows.last().0, key) {
            if slot(head, key) < head.len() {
                let i = slot(head, key);
                assert(less(rows[i].0, rows.last().0));
                less_transitive(rows[i].0, rows.last().0, key);
                assert(!less(head[i].0, key));
            }
        }
    }
}

/// In ascending rows a key is listed exactly when some row has it.
pub proof fn listed_iff<V>(rows: Seq<(Seq<char>, V)>, key: Seq<char>)
    requires
        ascending(rows),
    ensures
        listed(rows, key) == exists|i: int| 0 <= i < rows.len() && (#[trigger] rows[i]).0 == key,
        forall|i: int|
            0 <= i < rows.len() && (#[trigger] rows[i]).0 == key ==> i == slot(rows, key),
{
    slot_splits(rows, key);
    let at = slot(rows, key);
    assert forall|i: int| 0 <= i < rows.len() && (#[trigger] rows[i]).0 == key implies i == at by {
        less_irreflexive(key);
        if i > at {
            assert(less(rows[at].0, rows[i].0));
        }
    }
    if listed(rows, key) {
        assert(rows[at].0 == key);
    }
}

/// What is placed is found, and nothing else changes; the keys still go up.
pub proof fn placed_found<V>(rows: Seq<(Seq<char>, V)>, key: Seq<char>, value: V, other: Seq<char>)
    requires
        ascending(rows),
    ensures
        ascending(placed(rows, key, value)),
        lookup(placed(rows, key, value), key) == Some(value),
        other != key ==> lookup(placed(rows, key, value), other) == lookup(rows, other),
{
    let after = placed(rows, key, value);
    let at = slot(rows, key);
    slot_splits(rows, key);
    placed_ascending(rows, key, value);
    less_irreflexive(key);
    assert(after[at] == (key, value));
    listed_iff(after, key);
    listed_iff(rows, other);
    listed_iff(after, other);
    if other != key {
        if listed(rows, other) {
            let i = slot(rows, other);
            let moved = if listed(rows, key) || i < at {
                i
            } else {
                i + 1
            };
            assert(after[moved] == rows[i]);
        }
        if listed(after, other) {
            let i = slot(after, other);
            let moved = if listed(rows, key) || i < at {
                i
            } else {
                i - 1
            };
            assert(rows[moved] == after[i]);
        }
    }
}

/// Placing keeps the keys going up.
proof fn placed_ascending<V>(rows: Seq<(Seq<char>, V)>, key: Seq<char>, value: V)
    requires
        ascending(rows),
    ensures
        ascending(placed(rows, key, value)),
{
    let after = placed(rows, key, value);
    let at = slot(rows, key);
    slot_splits(rows, key);
    assert forall|i: int, j: int| 0 <= i < j < after.len() implies less(
        (#[trigger] after[i]).0,
        (#[trigger] after[j]).0,
    ) by {
        if listed(rows, key) {
            assert(after[i].0 == rows[i].0 && after[j].0 == rows[j].0);
        } else {
            if i < at {
                assert(after[i] == rows[i]);
            } else if i > at {
                assert(after[i] == rows[i - 1]);
            }
            if j < at {
                assert(after[j] == rows[j]);
            } else if j > at {
                assert(after[j] == rows[j - 1]);
                less_total(rows[j - 1].0, key);
                if rows[j - 1].0 == key {
                    if at < j - 1 {
                        assert(less(rows[at].0, rows[j - 1].0));
                    }
                    assert(false);
                }
            }
        }
    }
}

/// What is gathered is in the order of the keys, and rows in that order are gathered as they are.
pub proof fn gathered_in_order<V>(rows: Seq<(Seq<char>, V)>)
    ensures
        ascending(gathered(rows)),
        ascending(rows) ==> gathered(rows) == rows,
    decreases rows.len(),
{
    if rows.len() > 0 {
        let head = rows.drop_last();
        let (key, value) = rows.last();
        gathered_in_order(head);
        placed_ascending(gathered(head), key, value);
        if ascending(rows) {
            assert forall|i: int, j: int| 0 <= i < j < head.len() implies less(
                (#[trigger] head[i]).0,
                (#[trigger] head[j]).0,
            ) by {
                assert(head[i] == rows[i] && head[j] == rows[j]);
            }
            assert forall|i: int| 0 <= i < head.len() implies less((#[trigger] head[i]).0, key) by {
                assert(less(rows[i].0, rows[rows.len() - 1].0));
            }
            slot_is(head, key, head.len() as int);
            assert(placed(head, key, value) =~= rows);
        }
    } else {
        assert(gathered(rows) =~= rows);
    }
}

/// Dropping keeps the keys going up, takes the key away and changes nothing else.
pub proof fn dropped_gone<V>(rows: Seq<(Seq<char>, V)>, key: Seq<char>, other: Seq<char>)
    requires
        ascending(rows),
    ensures
        ascending(dropped(rows, key)),
        lookup(dropped(rows, key), key) == None::<V>,
        other != key ==> lookup(dropped(rows, key), other) == lookup(rows, other),
{
    let after = dropped(rows, key);
    let at = slot(rows, key);
    slot_splits(rows, key);
    listed_iff(rows, key);
    if listed(rows, key) {
        assert forall|i: int| 0 <= i < after.len() implies #[trigger] after[i] == rows[if i < at {
            i
        } else {
            i + 1
        }] by {}
        assert(ascending(after));
        listed_iff(after, key);
        listed_iff(rows, other);
        listed_iff(after, other);
        if other != key {
            if listed(rows, other) {
                let i = slot(rows, other);
                let moved = if i < at {
                    i
                } else {
                    i - 1
                };
                assert(after[moved] == rows[i]);
            }
        }
    }
}

/// Whether one text comes before another.
pub fn is_less(a: &str, b: &str) -> (r: bool)
    ensures
        r == less(a@, b@),
{
    let left = chars_of(a);
    let right = chars_of(b);
    let mut i: usize = 0;
    assert(left@.skip(0) == a@);
    assert(right@.skip(0) == b@);
    while i < left.len() && i < right.len()
        invariant
            i <= left@.len(),
            i <= right@.len(),
            less(a@, b@) == less(left@.skip(i as int), right@.skip(i as int)),
        decreases left@.len() - i,
    {
        assert(left@.skip(i as int).skip(1) == left@.skip(i + 1));
        assert(right@.skip(i as int).skip(1) == right@.skip(i + 1));
        if left[i] != right[i] {
            return left[i] < right[i];
        }
        i += 1;
    }
    i < right.len()
}

/// Values under text keys, in the order of the keys.
#[derive(Debug, PartialEq, Eq)]
pub struct Table<V: View> {
    rows: Vec<(String, V)>,
}

impl<V: View> View for Table<V> {
    type V = Seq<(Seq<char>, V::V)>;

    closed spec fn view(&self) -> Seq<(Seq<char>, V::V)> {
        Seq::new(self.rows@.len(), |i: int| (self.rows@[i].0@, self.rows@[i].1@))
    }
}

impl<V: View> Table<V> {
    #[verifier::type_invariant]
    spec fn sorted(self) -> bool {
        ascending(self@)
    }

    /// A table without rows.
    pub fn new() -> (table: Self)
        ensures
            table@ == Seq::<(Seq<char>, V::V)>::empty(),
    {
        Table { rows: Vec::new() }
    }

    /// The number of rows.
    pub fn len(&self) -> (n: usize)
        ensures
            n == self@.len(),
            ascending(self@),
    {
        proof {
            use_type_invariant(self);
        }
        self.rows.len()
    }

    /// Whether there are no rows.
    pub fn is_empty(&self) -> (r: bool)
        ensures
            r == (self@.len() == 0),
    {
        self.rows.len() == 0
    }

    /// The key of a row.
    pub fn key(&self, at: usize) -> (key: &String)
        requires
            at < self@.len(),
        ensures
            key@ == self@[at as int].0,
    {
        &self.rows[at].0
    }

    /// The value of a row.
    pub fn value(&self, at: usize) -> (value: &V)
        requires
            at < self@.len(),
        ensures
            value@ == self@[at as int].1,
    {
        &self.rows[at].1
    }

    /// Where the row of a key stands, or would stand.
    fn slot_of(&self, key: &str) -> (at: usize)
        ensures
            at == slot(self@, key@),
            at <= self@.len(),
    {
        proof {
            use_type_invariant(self);
            slot_splits(self@, key@);
        }
        let mut at: usize = 0;
        while at < self.rows.len() && is_less(self.rows[at].0.as_str(), key)
            invariant
                at <= self.rows@.len(),
                self@.len() == self.rows@.len(),
                ascending(self@),
                forall|i: int| 0 <= i < at ==> less((#[trigger] self@[i]).0, key@),
            decreases self.rows@.len() - at,
        {
            assert(self@[at as int].0 == self.rows@[at as int].0@);
            at += 1;
        }
        proof {
            slot_splits(self@, key@);
            let found = slot(self@, key@);
            if at < self@.len() {
                assert(self@[at as int].0 == self.rows@[at as int].0@);
            }
            if found < at {
                assert(less(self@[found].0, key@));
            }
        }
        at
    }

    /// The value under a key.
    pub fn get(&self, key: &str) -> (value: Option<&V>)
        ensures
            (match value {
                Some(value) => Some(value@),
                None => None,
            }) == lookup(self@, key@),
    {
        let at: usize = self.slot_of(key);
        if at < self.rows.len() && same(self.rows[at].0.as_str(), key) {
            assert(self@[at as int].0 == key@);
            Some(&self.rows[at].1)
        } else {
            None
        }
    }

    /// Puts a value under a key, in place of the one that is there.
    pub fn insert(&mut self, key: String, value: V) -> (before: Option<V>)
        ensures
            final(self)@ == placed(old(self)@, key@, value@),
            (match before {
                Some(before) => Some(before@),
                None => None,
            }) == lookup(old(self)@, key@),
    {
        let at: usize = self.slot_of(key.as_str());
        let taken = at < self.rows.len() && same(self.rows[at].0.as_str(), key.as_str());
        let ghost old_rows = self@;
        proof {
            use_type_invariant(&*self);
            placed_ascending(old_rows, key@, value@);
            if at < self.rows@.len() {
                assert(old_rows[at as int].0 == self.rows@[at as int].0@);
            }
        }
        let mut rows: Vec<(String, V)> = Vec::new();
        std::mem::swap(&mut rows, &mut self.rows);
        let ghost held = rows@;
        let mut before: Option<V> = None;
        if taken {
            let (_, displaced) = rows.remove(at);
            before = Some(displaced);
        }
        let ghost row = (key, value);
        rows.insert(at, (key, value));
        proof {
            let next = Seq::new(rows@.len(), |i: int| (rows@[i].0@, rows@[i].1@));
            assert(next =~= placed(old_rows, row.0@, row.1@));
        }
        self.rows = rows;
        before
    }

    /// Takes the row of a key away.
    pub fn remove(&mut self, key: &str) -> (before: Option<V>)
        ensures
            final(self)@ == dropped(old(self)@, key@),
            (match before {
                Some(before) => Some(before@),
                None => None,
            }) == lookup(old(self)@, key@),
    {
        let at: usize = self.slot_of(key);
        let taken = at < self.rows.len() && same(self.rows[at].0.as_str(), key);
        let ghost old_rows = self@;
        proof {
            use_type_invariant(&*self);
            dropped_gone(old_rows, key@, key@);
            if at < self.rows@.len() {
                assert(old_rows[at as int].0 == self.rows@[at as int].0@);
            }
        }
        if !taken {
            return None;
        }
        let mut rows: Vec<(String, V)> = Vec::new();
        std::mem::swap(&mut rows, &mut self.rows);
        let (_, displaced) = rows.remove(at);
        proof {
            let next = Seq::new(rows@.len(), |i: int| (rows@[i].0@, rows@[i].1@));
            assert(next =~= dropped(old_rows, key@));
        }
        self.rows = rows;
        Some(displaced)
    }
}

impl<V: Duplicate> Duplicate for Table<V> {
    fn duplicate(&self) -> (copy: Self) {
        let mut rows: Vec<(String, V)> = Vec::new();
        let mut i: usize = 0;
        while i < self.rows.len()
            invariant
                i <= self.rows@.len(),
                rows@.len() == i,
                forall|j: int|
                    0 <= j < i ==> (#[trigger] rows@[j]).0@ == self.rows@[j].0@ && rows@[j].1@
                        == self.rows@[j].1@,
            decreases self.rows@.len() - i,
        {
            rows.push((self.rows[i].0.clone(), self.rows[i].1.duplicate()));
            i += 1;
        }
        proof {
            use_type_invariant(self);
            let next = Seq::new(rows@.len(), |i: int| (rows@[i].0@, rows@[i].1@));
            assert(next =~= self@);
        }
        Table { rows }
    }
}

/// The order of texts is that of a dictionary: behind the same beginning the smaller character comes
/// first, and a beginning comes before what goes on from it.
pub proof fn texts_are_in_dictionary_order(
    lead: Seq<char>,
    a: char,
    b: char,
    u: Seq<char>,
    v: Seq<char>,
)
    ensures
        a != b ==> less(lead + seq![a] + u, lead + seq![b] + v) == (a < b),
        less(lead, lead + seq![a] + u),
        !less(lead + seq![a] + u, lead),
    decreases lead.len(),
{
    let x = lead + seq![a] + u;
    let y = lead + seq![b] + v;
    if lead.len() == 0 {
        assert(x[0] == a);
        assert(y[0] == b);
    } else {
        texts_are_in_dictionary_order(lead.skip(1), a, b, u, v);
        assert(x[0] == lead[0]);
        assert(y[0] == lead[0]);
        assert(x.skip(1) =~= lead.skip(1) + seq![a] + u);
        assert(y.skip(1) =~= lead.skip(1) + seq![b] + v);
    }
}

} // verus!
