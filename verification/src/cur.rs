//! Finding the directory that an encoded project name stands for.
//!
//! The name has every path separator, and every character out of a small set, replaced by `-`, so
//! each `-` may be a directory boundary or part of a name. Whether a directory exists is answered
//! by the host, one probe at a time: the search is run again from the start with every answer so
//! far, and either asks for the next one or is done.

use vstd::prelude::*;
use vstd::string::StringExecFns;

use crate::storage::path_join;
use crate::storage::path_of;
use crate::text::chars_of;
use crate::text::copy_maybe;
use crate::text::join;
use crate::text::joined;
use crate::text::maybe;
use crate::text::same;
use crate::text::split;
use crate::text::split_on;
use crate::text::text_of;
use crate::text::texts;

verus! {

/// The most directories that one search looks for.
pub const MAX_CUR_PROJECT_PATH_PROBES: usize = 128;

/// How many texts a `-` may stand for within a name.
pub const SEPARATORS: usize = 11;

/// The texts that a `-` may stand for within a name, in the order in which they are tried.
pub open spec fn separator_of(k: int) -> Seq<char> {
    if k == 0 {
        "-"@
    } else if k == 1 {
        "_"@
    } else if k == 2 {
        "."@
    } else if k == 3 {
        " "@
    } else if k == 4 {
        "--"@
    } else if k == 5 {
        ".."@
    } else if k == 6 {
        "__"@
    } else if k == 7 {
        "  "@
    } else if k == 8 {
        "+"@
    } else if k == 9 {
        "@"@
    } else {
        "&"@
    }
}

/// A text that a `-` may stand for within a name.
fn separator(k: usize) -> (text: &'static str)
    ensures
        text@ == separator_of(k as int),
{
    if k == 0 {
        "-"
    } else if k == 1 {
        "_"
    } else if k == 2 {
        "."
    } else if k == 3 {
        " "
    } else if k == 4 {
        "--"
    } else if k == 5 {
        ".."
    } else if k == 6 {
        "__"
    } else if k == 7 {
        "  "
    } else if k == 8 {
        "+"
    } else if k == 9 {
        "@"
    } else {
        "&"
    }
}

/// Why a search does not go on.
#[derive(Debug, PartialEq, Eq)]
pub enum Halt {
    /// It has to know whether a directory exists.
    Ask(String),
    /// Two different directories match, or the probes are spent.
    GiveUp,
}

/// Why a search does not go on, with its text as a sequence of characters.
pub enum HaltModel {
    Ask(Seq<char>),
    GiveUp,
}

/// A search on its way: the directories it looked for, in order, and the one that matches.
#[derive(Debug, PartialEq, Eq)]
pub struct Hunt {
    asked: Vec<String>,
    matched: Option<String>,
    halt: Option<Halt>,
}

/// A search on its way, with its texts as sequences of characters.
#[verifier::ext_equal]
pub struct HuntModel {
    pub asked: Seq<Seq<char>>,
    pub matched: Option<Seq<char>>,
    pub halt: Option<HaltModel>,
}

/// What an optional reason to halt stands for.
pub open spec fn halted(halt: Option<Halt>) -> Option<HaltModel> {
    match halt {
        Some(Halt::Ask(path)) => Some(HaltModel::Ask(path@)),
        Some(Halt::GiveUp) => Some(HaltModel::GiveUp),
        None => None,
    }
}

impl View for Hunt {
    type V = HuntModel;

    closed spec fn view(&self) -> HuntModel {
        HuntModel {
            asked: texts(self.asked@),
            matched: maybe(self.matched),
            halt: halted(self.halt),
        }
    }
}

/// A search that has not looked for anything.
pub open spec fn fresh() -> HuntModel {
    HuntModel { asked: Seq::empty(), matched: None, halt: None }
}

/// The search gives up.
pub open spec fn given_up(hunt: HuntModel) -> HuntModel {
    HuntModel { halt: Some(HaltModel::GiveUp), ..hunt }
}

/// The search looks for a directory: it spends one probe, gives up where none is left, and asks
/// where the answer is not there yet.
pub open spec fn probed(hunt: HuntModel, path: Seq<char>, answers: Seq<bool>) -> HuntModel {
    if hunt.halt is Some {
        hunt
    } else if hunt.asked.len() >= MAX_CUR_PROJECT_PATH_PROBES {
        given_up(hunt)
    } else if hunt.asked.len() >= answers.len() {
        HuntModel { halt: Some(HaltModel::Ask(path)), ..hunt }
    } else {
        HuntModel { asked: hunt.asked.push(path), ..hunt }
    }
}

/// What was answered to the last probe.
pub open spec fn exists_there(hunt: HuntModel, answers: Seq<bool>) -> bool {
    hunt.asked.len() > 0 && answers[hunt.asked.len() - 1]
}

/// The search settles on a directory that exists, unless it settled on another one.
pub open spec fn settled(hunt: HuntModel, candidate: Seq<char>) -> HuntModel {
    if hunt.matched is Some && hunt.matched != Some(candidate) {
        given_up(hunt)
    } else {
        HuntModel { matched: Some(candidate), ..hunt }
    }
}

/// The search looks for a candidate and settles on it where it exists.
pub open spec fn tried(hunt: HuntModel, candidate: Seq<char>, answers: Seq<bool>) -> HuntModel {
    let next = probed(hunt, candidate, answers);
    if next.halt is None && exists_there(next, answers) {
        settled(next, candidate)
    } else {
        next
    }
}

/// The path of components below a base.
pub open spec fn below(base: Seq<char>, components: Seq<Seq<char>>) -> Seq<char>
    decreases components.len(),
{
    if components.len() == 0 {
        base
    } else {
        path_of(below(base, components.drop_last()), components.last())
    }
}

/// The search tries the name that the components make below a directory, with each text from the
/// `k`th on in place of `-`.
pub open spec fn named_below(
    hunt: HuntModel,
    parent: Seq<char>,
    suffix: Seq<Seq<char>>,
    k: int,
    answers: Seq<bool>,
) -> HuntModel
    decreases SEPARATORS - k,
{
    if k < 0 || k >= SEPARATORS {
        hunt
    } else {
        named_below(
            tried(hunt, path_of(parent, joined(suffix, separator_of(k))), answers),
            parent,
            suffix,
            k + 1,
            answers,
        )
    }
}

/// The search takes the last components, from `length` of them up to four, as one name.
pub open spec fn tails_tried(
    hunt: HuntModel,
    base: Seq<char>,
    components: Seq<Seq<char>>,
    length: int,
    answers: Seq<bool>,
) -> HuntModel
    decreases 5 - length,
{
    if length < 2 || length > 4 || length > components.len() {
        hunt
    } else {
        let at = components.len() - length;
        let parent = below(base, components.take(at));
        let next = probed(hunt, parent, answers);
        let after = if next.halt is None && exists_there(next, answers) {
            named_below(next, parent, components.skip(at), 0, answers)
        } else {
            next
        };
        tails_tried(after, base, components, length + 1, answers)
    }
}

/// The search takes two neighbours, the second at `right`, as one directory name, with each text
/// from the `k`th on in place of `-`, and looks for the remaining components below it.
pub open spec fn pair_merged(
    hunt: HuntModel,
    prefix: Seq<char>,
    components: Seq<Seq<char>>,
    right: int,
    k: int,
    answers: Seq<bool>,
) -> HuntModel
    decreases components.len(), 1int, SEPARATORS - k,
{
    if k < 0 || k >= SEPARATORS || right < 1 || right >= components.len() {
        hunt
    } else {
        let merged = path_of(
            prefix,
            components[right - 1] + separator_of(k) + components[right],
        );
        let next = probed(hunt, merged, answers);
        let after = if next.halt is None && exists_there(next, answers) {
            after_merge(next, merged, components.skip(right + 1), answers)
        } else {
            next
        };
        pair_merged(after, prefix, components, right, k + 1, answers)
    }
}

/// Where a search stands after it looked below a merged name. That nothing matches there leaves what
/// was found elsewhere as it is.
pub open spec fn after_merge(
    next: HuntModel,
    merged: Seq<char>,
    rest: Seq<Seq<char>>,
    answers: Seq<bool>,
) -> HuntModel
    decreases rest.len(), 4int, 0int,
{
    let inner = searched(HuntModel { matched: None, ..next }, merged, rest, answers);
    let back = HuntModel { matched: next.matched, ..inner };
    match inner.matched {
        _ if inner.halt is Some => back,
        Some(candidate) => settled(back, candidate),
        None => back,
    }
}

/// The search merges neighbours into one directory name, from the pair that ends at `right` back to
/// the first.
pub open spec fn pairs_merged(
    hunt: HuntModel,
    base: Seq<char>,
    components: Seq<Seq<char>>,
    right: int,
    answers: Seq<bool>,
) -> HuntModel
    decreases components.len(), 2int, right,
{
    if right < 1 || right >= components.len() {
        hunt
    } else {
        let prefix = below(base, components.take(right - 1));
        let next = probed(hunt, prefix, answers);
        let after = if next.halt is None && exists_there(next, answers) {
            pair_merged(next, prefix, components, right, 0, answers)
        } else {
            next
        };
        pairs_merged(after, base, components, right - 1, answers)
    }
}

/// The whole search below a base: the literal path, merged trailing names, merged neighbours.
pub open spec fn searched(
    hunt: HuntModel,
    base: Seq<char>,
    components: Seq<Seq<char>>,
    answers: Seq<bool>,
) -> HuntModel
    decreases components.len(), 3int, 0int,
{
    let literal = tried(hunt, below(base, components), answers);
    let tails = tails_tried(literal, base, components, 2, answers);
    pairs_merged(tails, base, components, components.len() - 2, answers)
}

impl Hunt {
    /// The search looks for a directory. Says whether it goes on and the directory exists.
    fn probe(&mut self, path: &str, answers: &Vec<bool>) -> (exists: bool)
        ensures
            final(self)@ == probed(old(self)@, path@, answers@),
            exists == (final(self)@.halt is None && exists_there(final(self)@, answers@)),
    {
        if self.halt.is_some() {
            return false;
        }
        let spent: usize = self.asked.len();
        if spent >= MAX_CUR_PROJECT_PATH_PROBES {
            self.halt = Some(Halt::GiveUp);
            return false;
        }
        if spent >= answers.len() {
            self.halt = Some(Halt::Ask(path.to_string()));
            return false;
        }
        self.asked.push(path.to_string());
        assert(self@.asked =~= old(self)@.asked.push(path@));
        answers[spent]
    }

    /// The search settles on a directory that exists, unless it settled on another one.
    fn settle(&mut self, candidate: String)
        ensures
            final(self)@ == settled(old(self)@, candidate@),
    {
        if let Some(matched) = &self.matched {
            if !same(matched.as_str(), candidate.as_str()) {
                self.halt = Some(Halt::GiveUp);
                return;
            }
        }
        self.matched = Some(candidate);
    }

    /// The search looks for a candidate and settles on it where it exists.
    fn attempt(&mut self, candidate: String, answers: &Vec<bool>)
        ensures
            final(self)@ == tried(old(self)@, candidate@, answers@),
    {
        if self.probe(candidate.as_str(), answers) {
            self.settle(candidate);
        }
    }

    /// The search tries the name that the components make below a directory.
    fn name_below(&mut self, parent: &str, suffix: &Vec<String>, answers: &Vec<bool>)
        ensures
            final(self)@ == named_below(old(self)@, parent@, texts(suffix@), 0, answers@),
    {
        let mut k: usize = 0;
        while k < SEPARATORS
            invariant
                k <= SEPARATORS,
                named_below(self@, parent@, texts(suffix@), k as int, answers@) == named_below(
                    old(self)@,
                    parent@,
                    texts(suffix@),
                    0,
                    answers@,
                ),
            decreases SEPARATORS - k,
        {
            let name = join(suffix, separator(k));
            self.attempt(path_join(parent, name.as_str()), answers);
            k += 1;
        }
    }

    /// The search takes the last components, two to four of them, as one name.
    fn try_tails(&mut self, base: &str, components: &Vec<String>, answers: &Vec<bool>)
        ensures
            final(self)@ == tails_tried(old(self)@, base@, texts(components@), 2, answers@),
    {
        let mut length: usize = 2;
        while length <= 4 && length <= components.len()
            invariant
                2 <= length <= 5,
                tails_tried(self@, base@, texts(components@), length as int, answers@)
                    == tails_tried(old(self)@, base@, texts(components@), 2, answers@),
            decreases 5 - length,
        {
            let at: usize = components.len() - length;
            let parent = path_below(base, components, at);
            if self.probe(parent.as_str(), answers) {
                let suffix = part(components, at, components.len());
                assert(texts(suffix@) == texts(components@).skip(at as int));
                self.name_below(parent.as_str(), &suffix, answers);
            }
            length += 1;
        }
    }

    /// The search takes two neighbours as one directory name.
    fn merge_pair(
        &mut self,
        prefix: &str,
        components: &Vec<String>,
        right: usize,
        answers: &Vec<bool>,
    )
        requires
            1 <= right < components@.len(),
        ensures
            final(self)@ == pair_merged(
                old(self)@,
                prefix@,
                texts(components@),
                right as int,
                0,
                answers@,
            ),
        decreases components@.len(), 1int,
    {
        let total: usize = components.len();
        let rest = part(components, right + 1, total);
        assert(texts(rest@) == texts(components@).skip(right + 1));
        let mut k: usize = 0;
        while k < SEPARATORS
            invariant
                k <= SEPARATORS,
                1 <= right < components@.len(),
                rest@.len() < components@.len(),
                texts(rest@) == texts(components@).skip(right + 1),
                pair_merged(self@, prefix@, texts(components@), right as int, k as int, answers@)
                    == pair_merged(
                    old(self)@,
                    prefix@,
                    texts(components@),
                    right as int,
                    0,
                    answers@,
                ),
            decreases SEPARATORS - k,
        {
            let mut name = components[right - 1].clone();
            name.append(separator(k));
            name.append(components[right].as_str());
            let merged = path_join(prefix, name.as_str());
            if self.probe(merged.as_str(), answers) {
                let ghost next = self@;
                let before = copy_maybe(&self.matched);
                self.matched = None;
                assert(self@ =~= HuntModel { matched: None, ..next });
                self.search(merged.as_str(), &rest, answers);
                let found = copy_maybe(&self.matched);
                self.matched = before;
                if self.halt.is_none() {
                    if let Some(candidate) = found {
                        self.settle(candidate);
                    }
                }
                assert(self@ =~= after_merge(next, merged@, texts(rest@), answers@));
            }
            k += 1;
        }
    }

    /// The search merges neighbours into one directory name, from the last pair before the last
    /// component back to the first.
    fn merge_pairs(&mut self, base: &str, components: &Vec<String>, answers: &Vec<bool>)
        ensures
            final(self)@ == pairs_merged(
                old(self)@,
                base@,
                texts(components@),
                components@.len() - 2,
                answers@,
            ),
        decreases components@.len(), 2int,
    {
        let mut right: usize = components.len().saturating_sub(2);
        assert(components@.len() < 2 ==> pairs_merged(
            self@,
            base@,
            texts(components@),
            components@.len() - 2,
            answers@,
        ) == self@);
        while right >= 1
            invariant
                right == 0 || right <= components@.len() - 2,
                pairs_merged(self@, base@, texts(components@), right as int, answers@)
                    == pairs_merged(
                    old(self)@,
                    base@,
                    texts(components@),
                    components@.len() - 2,
                    answers@,
                ),
            decreases right,
        {
            let prefix = path_below(base, components, right - 1);
            if self.probe(prefix.as_str(), answers) {
                self.merge_pair(prefix.as_str(), components, right, answers);
            }
            right -= 1;
        }
    }

    /// The whole search below a base.
    fn search(&mut self, base: &str, components: &Vec<String>, answers: &Vec<bool>)
        ensures
            final(self)@ == searched(old(self)@, base@, texts(components@), answers@),
        decreases components@.len(), 3int,
    {
        let literal = path_below(base, components, components.len());
        assert(texts(components@).take(components@.len() as int) == texts(components@));
        self.attempt(literal, answers);
        self.try_tails(base, components, answers);
        self.merge_pairs(base, components, answers);
    }
}

/// The path of the first `n` components below a base.
fn path_below(base: &str, components: &Vec<String>, n: usize) -> (path: String)
    requires
        n <= components@.len(),
    ensures
        path@ == below(base@, texts(components@).take(n as int)),
{
    let mut path = base.to_string();
    let mut i: usize = 0;
    while i < n
        invariant
            i <= n <= components@.len(),
            path@ == below(base@, texts(components@).take(i as int)),
        decreases n - i,
    {
        path = path_join(path.as_str(), components[i].as_str());
        assert(texts(components@).take(i + 1).drop_last() == texts(components@).take(i as int));
        i += 1;
    }
    path
}

/// The texts of a list from `from` up to `to`.
fn part(list: &Vec<String>, from: usize, to: usize) -> (r: Vec<String>)
    requires
        from <= to <= list@.len(),
    ensures
        texts(r@) == texts(list@).subrange(from as int, to as int),
        r@.len() == to - from,
{
    let mut out: Vec<String> = Vec::new();
    let mut i: usize = from;
    while i < to
        invariant
            from <= i <= to <= list@.len(),
            out@.len() == i - from,
            forall|j: int| 0 <= j < out@.len() ==> (#[trigger] out@[j])@ == list@[from + j]@,
        decreases to - i,
    {
        out.push(list[i].clone());
        i += 1;
    }
    assert(texts(out@) =~= texts(list@).subrange(from as int, to as int));
    out
}

/// The part can be no name in a path.
pub open spec fn unusable(component: Seq<char>) -> bool {
    ||| component.len() == 0
    ||| component == "."@
    ||| component == ".."@
    ||| exists|i: int|
        0 <= i < component.len() && (#[trigger] component[i] == '/' || component[i] == '\\'
            || component[i] == ':')
}

/// Whether a part can be no name in a path.
fn is_unusable(component: &str) -> (r: bool)
    ensures
        r == unusable(component@),
{
    let chars = chars_of(component);
    if chars.len() == 0 || same(component, ".") || same(component, "..") {
        return true;
    }
    let mut i: usize = 0;
    while i < chars.len()
        invariant
            i <= chars@.len(),
            chars@ == component@,
            forall|j: int|
                0 <= j < i ==> !(#[trigger] component@[j] == '/' || component@[j] == '\\'
                    || component@[j] == ':'),
        decreases chars@.len() - i,
    {
        let c = chars[i];
        if c == '/' || c == '\\' || c == ':' {
            assert(component@[i as int] == c);
            return true;
        }
        i += 1;
    }
    false
}

/// A part is no name.
pub open spec fn any_unusable(components: Seq<Seq<char>>) -> bool {
    exists|i: int| 0 <= i < components.len() && unusable(#[trigger] components[i])
}

/// Whether a part is no name.
fn is_any_unusable(components: &Vec<String>) -> (r: bool)
    ensures
        r == any_unusable(texts(components@)),
{
    let mut i: usize = 0;
    while i < components.len()
        invariant
            i <= components@.len(),
            forall|j: int| 0 <= j < i ==> !unusable(#[trigger] texts(components@)[j]),
        decreases components@.len() - i,
    {
        assert(texts(components@)[i as int] == components@[i as int]@);
        if is_unusable(components[i].as_str()) {
            return true;
        }
        i += 1;
    }
    false
}

/// What an encoded name says, without the dash that it may start with.
pub open spec fn undashed(encoded: Seq<char>) -> Seq<char> {
    if encoded.len() > 0 && encoded[0] == '-' {
        encoded.skip(1)
    } else {
        encoded
    }
}

/// What a search says so far.
#[derive(Debug, PartialEq, Eq)]
pub enum Decoding {
    /// It has to know whether this directory exists.
    Ask(String),
    /// The one directory that the name stands for, or none.
    Done(Option<String>),
}

/// What a search says so far, with its text as a sequence of characters.
pub enum DecodingModel {
    Ask(Seq<char>),
    Done(Option<Seq<char>>),
}

impl View for Decoding {
    type V = DecodingModel;

    open spec fn view(&self) -> DecodingModel {
        match *self {
            Decoding::Ask(path) => DecodingModel::Ask(path@),
            Decoding::Done(path) => DecodingModel::Done(maybe(path)),
        }
    }
}

/// What a search that ended as it did says.
pub open spec fn outcome(hunt: HuntModel) -> DecodingModel {
    match hunt.halt {
        Some(HaltModel::Ask(path)) => DecodingModel::Ask(path),
        Some(HaltModel::GiveUp) => DecodingModel::Done(None),
        None => DecodingModel::Done(hunt.matched),
    }
}

/// What the search for an encoded name says, below a root and with the answers so far.
pub open spec fn decoding_of(encoded: Seq<char>, root: Seq<char>, answers: Seq<bool>) -> DecodingModel {
    let components = split_on(undashed(encoded), '-');
    if any_unusable(components) {
        DecodingModel::Done(None)
    } else {
        outcome(searched(fresh(), root, components, answers))
    }
}

/// Searches below a root for the directory that an encoded name stands for, with the answers so
/// far. Two different directories with the same encoding, or a search that spends all its probes,
/// decode to nothing, as does a name that no directory goes by.
pub fn decode_cur_project_path(encoded: &str, root: &str, answers: &Vec<bool>) -> (r: Decoding)
    ensures
        r@ == decoding_of(encoded@, root@, answers@),
{
    let chars = chars_of(encoded);
    let start: usize = if chars.len() > 0 && chars[0] == '-' {
        1
    } else {
        0
    };
    let rest = text_of(&chars, start, chars.len());
    assert(rest@ == undashed(encoded@));
    let components = split(rest.as_str(), '-');
    if is_any_unusable(&components) {
        return Decoding::Done(None);
    }
    let mut hunt = Hunt { asked: Vec::new(), matched: None, halt: None };
    assert(hunt@ =~= fresh());
    hunt.search(root, &components, answers);
    match hunt.halt {
        Some(Halt::Ask(path)) => Decoding::Ask(path),
        Some(Halt::GiveUp) => Decoding::Done(None),
        None => Decoding::Done(hunt.matched),
    }
}

/// The name under which chats without a project are kept.
pub const PROJECTLESS: &'static str = "empty-window";

/// What the search for a project's directory says: chats without a project belong beside the
/// agent's home, and any other name is decoded.
pub open spec fn project_decoding(
    encoded: Seq<char>,
    beside_home: Option<Seq<char>>,
    root: Seq<char>,
    answers: Seq<bool>,
) -> DecodingModel {
    if encoded == "empty-window"@ {
        DecodingModel::Done(beside_home)
    } else {
        decoding_of(encoded, root, answers)
    }
}

/// The directory of a project by the name of its storage, with the answers so far. `beside_home` is
/// the directory that holds the agent's home, where that is known.
pub fn cur_project_cwd(
    encoded: &str,
    beside_home: &Option<String>,
    root: &str,
    answers: &Vec<bool>,
) -> (r: Decoding)
    ensures
        r@ == project_decoding(encoded@, maybe(*beside_home), root@, answers@),
{
    if same(encoded, PROJECTLESS) {
        return Decoding::Done(copy_maybe(beside_home));
    }
    decode_cur_project_path(encoded, root, answers)
}

/// A letter of ASCII.
pub open spec fn letter(c: char) -> bool {
    'a' <= c <= 'z' || 'A' <= c <= 'Z'
}

/// The drive that an encoded name starts with, and what follows: a letter and a dash.
pub open spec fn drive_of(encoded: Seq<char>) -> Option<(char, Seq<char>)> {
    if encoded.len() >= 2 && letter(encoded[0]) && encoded[1] == '-' {
        Some((encoded[0], encoded.skip(2)))
    } else {
        None
    }
}

/// The drive that an encoded name starts with, and what follows.
pub fn decode_cur_windows_project_drive(encoded: &str) -> (r: Option<(char, String)>)
    ensures
        (match r {
            Some((drive, rest)) => Some((drive, rest@)),
            None => None,
        }) == drive_of(encoded@),
{
    let chars = chars_of(encoded);
    if chars.len() < 2 {
        return None;
    }
    let c = chars[0];
    if !(('a' <= c && c <= 'z') || ('A' <= c && c <= 'Z')) || chars[1] != '-' {
        return None;
    }
    let rest = text_of(&chars, 2, chars.len());
    assert(rest@ == encoded@.skip(2));
    Some((c, rest))
}

/// What a search settled on was answered to exist.
pub open spec fn evident(hunt: HuntModel, answers: Seq<bool>) -> bool {
    hunt.matched matches Some(path) ==> exists|i: int|
        0 <= i < hunt.asked.len() && #[trigger] hunt.asked[i] == path && answers[i]
}

/// A search goes on from where it stood: it looked for more, within the answers and the probes, it
/// settles on what exists, and it does not go on once it halted.
pub open spec fn goes_on(hunt: HuntModel, later: HuntModel, answers: Seq<bool>) -> bool {
    &&& hunt.asked.is_prefix_of(later.asked)
    &&& hunt.halt is Some ==> later == hunt
    &&& hunt.asked.len() <= answers.len() ==> later.asked.len() <= answers.len()
    &&& hunt.asked.len() <= MAX_CUR_PROJECT_PATH_PROBES ==> later.asked.len()
        <= MAX_CUR_PROJECT_PATH_PROBES
    &&& evident(hunt, answers) ==> evident(later, answers)
    &&& hunt.asked.len() <= answers.len() && hunt.halt is None && later.halt is Some
        && later.halt->0 is Ask ==> later.asked.len() == answers.len()
}

/// Going on twice is going on.
proof fn goes_on_twice(a: HuntModel, b: HuntModel, c: HuntModel, answers: Seq<bool>)
    requires
        goes_on(a, b, answers),
        goes_on(b, c, answers),
    ensures
        goes_on(a, c, answers),
{
    assert(a.asked =~= c.asked.take(a.asked.len() as int)) by {
        assert(a.asked =~= b.asked.take(a.asked.len() as int));
        assert(b.asked =~= c.asked.take(b.asked.len() as int));
    }
}

/// Looking for a directory goes on.
proof fn probed_goes_on(hunt: HuntModel, path: Seq<char>, answers: Seq<bool>)
    ensures
        goes_on(hunt, probed(hunt, path, answers), answers),
{
    let later = probed(hunt, path, answers);
    if evident(hunt, answers) && hunt.matched is Some {
        let i = choose|i: int|
            0 <= i < hunt.asked.len() && #[trigger] hunt.asked[i] == hunt.matched->0 && answers[i];
        assert(later.asked[i] == hunt.matched->0);
    }
}

/// Looking for a candidate goes on.
proof fn tried_goes_on(hunt: HuntModel, candidate: Seq<char>, answers: Seq<bool>)
    ensures
        goes_on(hunt, tried(hunt, candidate, answers), answers),
{
    probed_goes_on(hunt, candidate, answers);
    let next = probed(hunt, candidate, answers);
    if next.halt is None && exists_there(next, answers) {
        assert(next.asked[next.asked.len() - 1] == candidate);
    }
}

/// Trying a name goes on.
proof fn named_below_goes_on(
    hunt: HuntModel,
    parent: Seq<char>,
    suffix: Seq<Seq<char>>,
    k: int,
    answers: Seq<bool>,
)
    ensures
        goes_on(hunt, named_below(hunt, parent, suffix, k, answers), answers),
    decreases SEPARATORS - k,
{
    if 0 <= k < SEPARATORS {
        let candidate = path_of(parent, joined(suffix, separator_of(k)));
        let next = tried(hunt, candidate, answers);
        tried_goes_on(hunt, candidate, answers);
        named_below_goes_on(next, parent, suffix, k + 1, answers);
        goes_on_twice(hunt, next, named_below(next, parent, suffix, k + 1, answers), answers);
    }
}

/// Trying the last components as one name goes on.
proof fn tails_go_on(
    hunt: HuntModel,
    base: Seq<char>,
    components: Seq<Seq<char>>,
    length: int,
    answers: Seq<bool>,
)
    ensures
        goes_on(hunt, tails_tried(hunt, base, components, length, answers), answers),
    decreases 5 - length,
{
    if 2 <= length <= 4 && length <= components.len() {
        let at = components.len() - length;
        let parent = below(base, components.take(at));
        let next = probed(hunt, parent, answers);
        probed_goes_on(hunt, parent, answers);
        let after = if next.halt is None && exists_there(next, answers) {
            named_below(next, parent, components.skip(at), 0, answers)
        } else {
            next
        };
        if next.halt is None && exists_there(next, answers) {
            named_below_goes_on(next, parent, components.skip(at), 0, answers);
            goes_on_twice(hunt, next, after, answers);
        }
        tails_go_on(after, base, components, length + 1, answers);
        goes_on_twice(
            hunt,
            after,
            tails_tried(after, base, components, length + 1, answers),
            answers,
        );
    }
}

/// Looking below a merged name goes on.
proof fn after_merge_goes_on(
    next: HuntModel,
    merged: Seq<char>,
    rest: Seq<Seq<char>>,
    answers: Seq<bool>,
)
    requires
        next.halt is None,
    ensures
        goes_on(next, after_merge(next, merged, rest, answers), answers),
    decreases rest.len(), 4int, 0int,
{
    let start = HuntModel { matched: None, ..next };
    let inner = searched(start, merged, rest, answers);
    search_goes_on(start, merged, rest, answers);
    let later = after_merge(next, merged, rest, answers);
    assert(evident(inner, answers));
    if evident(next, answers) && next.matched is Some && later.matched == next.matched {
        let i = choose|i: int|
            0 <= i < next.asked.len() && #[trigger] next.asked[i] == next.matched->0 && answers[i];
        assert(later.asked[i] == next.matched->0);
    }
}

/// Merging a pair goes on.
proof fn pair_goes_on(
    hunt: HuntModel,
    prefix: Seq<char>,
    components: Seq<Seq<char>>,
    right: int,
    k: int,
    answers: Seq<bool>,
)
    ensures
        goes_on(hunt, pair_merged(hunt, prefix, components, right, k, answers), answers),
    decreases components.len(), 1int, SEPARATORS - k,
{
    if 0 <= k < SEPARATORS && 1 <= right < components.len() {
        let merged = path_of(prefix, components[right - 1] + separator_of(k) + components[right]);
        let next = probed(hunt, merged, answers);
        probed_goes_on(hunt, merged, answers);
        let after = if next.halt is None && exists_there(next, answers) {
            after_merge(next, merged, components.skip(right + 1), answers)
        } else {
            next
        };
        if next.halt is None && exists_there(next, answers) {
            after_merge_goes_on(next, merged, components.skip(right + 1), answers);
            goes_on_twice(hunt, next, after, answers);
        }
        pair_goes_on(after, prefix, components, right, k + 1, answers);
        goes_on_twice(
            hunt,
            after,
            pair_merged(after, prefix, components, right, k + 1, answers),
            answers,
        );
    }
}

/// Merging pairs goes on.
proof fn pairs_go_on(
    hunt: HuntModel,
    base: Seq<char>,
    components: Seq<Seq<char>>,
    right: int,
    answers: Seq<bool>,
)
    ensures
        goes_on(hunt, pairs_merged(hunt, base, components, right, answers), answers),
    decreases components.len(), 2int, right,
{
    if 1 <= right < components.len() {
        let prefix = below(base, components.take(right - 1));
        let next = probed(hunt, prefix, answers);
        probed_goes_on(hunt, prefix, answers);
        let after = if next.halt is None && exists_there(next, answers) {
            pair_merged(next, prefix, components, right, 0, answers)
        } else {
            next
        };
        if next.halt is None && exists_there(next, answers) {
            pair_goes_on(next, prefix, components, right, 0, answers);
            goes_on_twice(hunt, next, after, answers);
        }
        pairs_go_on(after, base, components, right - 1, answers);
        goes_on_twice(
            hunt,
            after,
            pairs_merged(after, base, components, right - 1, answers),
            answers,
        );
    }
}

/// The whole search goes on.
proof fn search_goes_on(
    hunt: HuntModel,
    base: Seq<char>,
    components: Seq<Seq<char>>,
    answers: Seq<bool>,
)
    ensures
        goes_on(hunt, searched(hunt, base, components, answers), answers),
    decreases components.len(), 3int, 0int,
{
    let literal = tried(hunt, below(base, components), answers);
    let tails = tails_tried(literal, base, components, 2, answers);
    tried_goes_on(hunt, below(base, components), answers);
    tails_go_on(literal, base, components, 2, answers);
    goes_on_twice(hunt, literal, tails, answers);
    pairs_go_on(tails, base, components, components.len() - 2, answers);
    goes_on_twice(
        hunt,
        tails,
        pairs_merged(tails, base, components, components.len() - 2, answers),
        answers,
    );
}

/// A search looks for no more directories than it may, and only for as many as it has answers; what
/// it finds was answered to exist.
pub proof fn search_is_bounded_and_evident(
    encoded: Seq<char>,
    root: Seq<char>,
    answers: Seq<bool>,
)
    ensures
        ({
            let hunt = searched(fresh(), root, split_on(undashed(encoded), '-'), answers);
            &&& hunt.asked.len() <= MAX_CUR_PROJECT_PATH_PROBES
            &&& hunt.asked.len() <= answers.len()
            &&& decoding_of(encoded, root, answers) matches DecodingModel::Done(Some(path))
                ==> exists|i: int|
                0 <= i < hunt.asked.len() && #[trigger] hunt.asked[i] == path && answers[i]
        }),
{
    search_goes_on(fresh(), root, split_on(undashed(encoded), '-'), answers);
}

/// With more answers a search does the same, or, where it had to ask, looks for what it asked for
/// next.
pub open spec fn agrees(first: HuntModel, more: HuntModel) -> bool {
    match first.halt {
        Some(HaltModel::Ask(path)) => more == first || (first.asked.is_prefix_of(more.asked)
            && first.asked.len() < more.asked.len() && more.asked[first.asked.len() as int]
            == path),
        _ => more == first,
    }
}

/// What goes on from a search that agrees still agrees, where the first one stopped to ask.
proof fn agrees_later(first: HuntModel, more: HuntModel, later: HuntModel, answers: Seq<bool>)
    requires
        agrees(first, more),
        goes_on(more, later, answers),
        first.halt matches Some(HaltModel::Ask(_)),
    ensures
        agrees(first, later),
{
    if more != first {
        assert(first.asked =~= later.asked.take(first.asked.len() as int)) by {
            assert(first.asked =~= more.asked.take(first.asked.len() as int));
            assert(more.asked =~= later.asked.take(more.asked.len() as int));
        }
        assert(later.asked[first.asked.len() as int] == more.asked[first.asked.len() as int]);
    }
}

/// Looking for a directory agrees.
proof fn probed_agrees(hunt: HuntModel, path: Seq<char>, few: Seq<bool>, many: Seq<bool>)
    requires
        few.is_prefix_of(many),
        hunt.asked.len() <= few.len(),
    ensures
        agrees(probed(hunt, path, few), probed(hunt, path, many)),
{
}

/// Looking for a candidate agrees.
proof fn tried_agrees(hunt: HuntModel, candidate: Seq<char>, few: Seq<bool>, many: Seq<bool>)
    requires
        few.is_prefix_of(many),
        hunt.asked.len() <= few.len(),
    ensures
        agrees(tried(hunt, candidate, few), tried(hunt, candidate, many)),
{
    probed_agrees(hunt, candidate, few, many);
    tried_goes_on(hunt, candidate, many);
}

/// Trying a name agrees.
proof fn named_below_agrees(
    hunt: HuntModel,
    parent: Seq<char>,
    suffix: Seq<Seq<char>>,
    k: int,
    few: Seq<bool>,
    many: Seq<bool>,
)
    requires
        few.is_prefix_of(many),
        hunt.asked.len() <= few.len(),
    ensures
        agrees(
            named_below(hunt, parent, suffix, k, few),
            named_below(hunt, parent, suffix, k, many),
        ),
    decreases SEPARATORS - k,
{
    if 0 <= k < SEPARATORS {
        let candidate = path_of(parent, joined(suffix, separator_of(k)));
        let a = tried(hunt, candidate, few);
        let b = tried(hunt, candidate, many);
        tried_agrees(hunt, candidate, few, many);
        tried_goes_on(hunt, candidate, few);
        named_below_goes_on(a, parent, suffix, k + 1, few);
        named_below_goes_on(b, parent, suffix, k + 1, many);
        if a.halt is Some && a.halt->0 is Ask {
            agrees_later(a, b, named_below(b, parent, suffix, k + 1, many), many);
        } else {
            named_below_agrees(a, parent, suffix, k + 1, few, many);
        }
    }
}

/// Trying the last components as one name agrees.
proof fn tails_agree(
    hunt: HuntModel,
    base: Seq<char>,
    components: Seq<Seq<char>>,
    length: int,
    few: Seq<bool>,
    many: Seq<bool>,
)
    requires
        few.is_prefix_of(many),
        hunt.asked.len() <= few.len(),
    ensures
        agrees(
            tails_tried(hunt, base, components, length, few),
            tails_tried(hunt, base, components, length, many),
        ),
    decreases 5 - length,
{
    if 2 <= length <= 4 && length <= components.len() {
        let at = components.len() - length;
        let parent = below(base, components.take(at));
        let suffix = components.skip(at);
        let a = probed(hunt, parent, few);
        let b = probed(hunt, parent, many);
        probed_agrees(hunt, parent, few, many);
        probed_goes_on(hunt, parent, few);
        let x = if a.halt is None && exists_there(a, few) {
            named_below(a, parent, suffix, 0, few)
        } else {
            a
        };
        let y = if b.halt is None && exists_there(b, many) {
            named_below(b, parent, suffix, 0, many)
        } else {
            b
        };
        named_below_goes_on(a, parent, suffix, 0, few);
        named_below_goes_on(b, parent, suffix, 0, many);
        if a.halt is Some && a.halt->0 is Ask {
            assert(goes_on(b, b, many));
            agrees_later(a, b, y, many);
        } else {
            named_below_agrees(a, parent, suffix, 0, few, many);
        }
        assert(agrees(x, y));
        assert(x.asked.len() <= few.len());
        tails_go_on(x, base, components, length + 1, few);
        tails_go_on(y, base, components, length + 1, many);
        if x.halt is Some && x.halt->0 is Ask {
            agrees_later(x, y, tails_tried(y, base, components, length + 1, many), many);
        } else {
            tails_agree(x, base, components, length + 1, few, many);
        }
    }
}

/// Looking below a merged name agrees.
proof fn after_merge_agrees(
    next: HuntModel,
    merged: Seq<char>,
    rest: Seq<Seq<char>>,
    few: Seq<bool>,
    many: Seq<bool>,
)
    requires
        next.halt is None,
        few.is_prefix_of(many),
        next.asked.len() <= few.len(),
    ensures
        agrees(after_merge(next, merged, rest, few), after_merge(next, merged, rest, many)),
    decreases rest.len(), 4int, 0int,
{
    let start = HuntModel { matched: None, ..next };
    search_agrees(start, merged, rest, few, many);
    after_merge_goes_on(next, merged, rest, few);
    after_merge_goes_on(next, merged, rest, many);
}

/// Merging a pair agrees.
proof fn pair_agrees(
    hunt: HuntModel,
    prefix: Seq<char>,
    components: Seq<Seq<char>>,
    right: int,
    k: int,
    few: Seq<bool>,
    many: Seq<bool>,
)
    requires
        few.is_prefix_of(many),
        hunt.asked.len() <= few.len(),
    ensures
        agrees(
            pair_merged(hunt, prefix, components, right, k, few),
            pair_merged(hunt, prefix, components, right, k, many),
        ),
    decreases components.len(), 1int, SEPARATORS - k,
{
    if 0 <= k < SEPARATORS && 1 <= right < components.len() {
        let merged = path_of(prefix, components[right - 1] + separator_of(k) + components[right]);
        let rest = components.skip(right + 1);
        let a = probed(hunt, merged, few);
        let b = probed(hunt, merged, many);
        probed_agrees(hunt, merged, few, many);
        probed_goes_on(hunt, merged, few);
        let x = if a.halt is None && exists_there(a, few) {
            after_merge(a, merged, rest, few)
        } else {
            a
        };
        let y = if b.halt is None && exists_there(b, many) {
            after_merge(b, merged, rest, many)
        } else {
            b
        };
        if a.halt is None {
            after_merge_goes_on(a, merged, rest, few);
        }
        if b.halt is None {
            after_merge_goes_on(b, merged, rest, many);
        }
        if a.halt is Some && a.halt->0 is Ask {
            assert(goes_on(b, b, many));
            agrees_later(a, b, y, many);
        } else if a.halt is None {
            after_merge_agrees(a, merged, rest, few, many);
        }
        assert(agrees(x, y));
        pair_goes_on(x, prefix, components, right, k + 1, few);
        pair_goes_on(y, prefix, components, right, k + 1, many);
        if x.halt is Some && x.halt->0 is Ask {
            agrees_later(x, y, pair_merged(y, prefix, components, right, k + 1, many), many);
        } else {
            pair_agrees(x, prefix, components, right, k + 1, few, many);
        }
    }
}

/// Merging pairs agrees.
proof fn pairs_agree(
    hunt: HuntModel,
    base: Seq<char>,
    components: Seq<Seq<char>>,
    right: int,
    few: Seq<bool>,
    many: Seq<bool>,
)
    requires
        few.is_prefix_of(many),
        hunt.asked.len() <= few.len(),
    ensures
        agrees(
            pairs_merged(hunt, base, components, right, few),
            pairs_merged(hunt, base, components, right, many),
        ),
    decreases components.len(), 2int, right,
{
    if 1 <= right < components.len() {
        let prefix = below(base, components.take(right - 1));
        let a = probed(hunt, prefix, few);
        let b = probed(hunt, prefix, many);
        probed_agrees(hunt, prefix, few, many);
        probed_goes_on(hunt, prefix, few);
        let x = if a.halt is None && exists_there(a, few) {
            pair_merged(a, prefix, components, right, 0, few)
        } else {
            a
        };
        let y = if b.halt is None && exists_there(b, many) {
            pair_merged(b, prefix, components, right, 0, many)
        } else {
            b
        };
        pair_goes_on(a, prefix, components, right, 0, few);
        pair_goes_on(b, prefix, components, right, 0, many);
        if a.halt is Some && a.halt->0 is Ask {
            assert(goes_on(b, b, many));
            agrees_later(a, b, y, many);
        } else {
            pair_agrees(a, prefix, components, right, 0, few, many);
        }
        assert(agrees(x, y));
        pairs_go_on(x, base, components, right - 1, few);
        pairs_go_on(y, base, components, right - 1, many);
        if x.halt is Some && x.halt->0 is Ask {
            agrees_later(x, y, pairs_merged(y, base, components, right - 1, many), many);
        } else {
            pairs_agree(x, base, components, right - 1, few, many);
        }
    }
}

/// The whole search agrees.
proof fn search_agrees(
    hunt: HuntModel,
    base: Seq<char>,
    components: Seq<Seq<char>>,
    few: Seq<bool>,
    many: Seq<bool>,
)
    requires
        few.is_prefix_of(many),
        hunt.asked.len() <= few.len(),
    ensures
        agrees(searched(hunt, base, components, few), searched(hunt, base, components, many)),
    decreases components.len(), 3int, 0int,
{
    let candidate = below(base, components);
    let last = components.len() - 2;
    let a = tried(hunt, candidate, few);
    let b = tried(hunt, candidate, many);
    tried_agrees(hunt, candidate, few, many);
    tried_goes_on(hunt, candidate, few);
    let x = tails_tried(a, base, components, 2, few);
    let y = tails_tried(b, base, components, 2, many);
    tails_go_on(a, base, components, 2, few);
    tails_go_on(b, base, components, 2, many);
    if a.halt is Some && a.halt->0 is Ask {
        agrees_later(a, b, y, many);
    } else {
        tails_agree(a, base, components, 2, few, many);
    }
    assert(agrees(x, y));
    pairs_go_on(x, base, components, last, few);
    pairs_go_on(y, base, components, last, many);
    if x.halt is Some && x.halt->0 is Ask {
        agrees_later(x, y, pairs_merged(y, base, components, last, many), many);
    } else {
        pairs_agree(x, base, components, last, few, many);
    }
}

/// Running a search again with one more answer is sound: a search that is done says the same
/// whatever is answered further, and the answer that follows those it had belongs to the directory
/// it asked for.
pub proof fn answers_belong_to_what_was_asked(
    encoded: Seq<char>,
    root: Seq<char>,
    answers: Seq<bool>,
    more: Seq<bool>,
)
    requires
        answers.is_prefix_of(more),
    ensures
        match decoding_of(encoded, root, answers) {
            DecodingModel::Done(path) => decoding_of(encoded, root, more)
                == DecodingModel::Done(path),
            DecodingModel::Ask(path) => {
                let hunt = searched(fresh(), root, split_on(undashed(encoded), '-'), more);
                answers.len() < more.len() ==> answers.len() < hunt.asked.len()
                    && hunt.asked[answers.len() as int] == path
            },
        },
{
    let components = split_on(undashed(encoded), '-');
    search_agrees(fresh(), root, components, answers, more);
    search_goes_on(fresh(), root, components, answers);
    search_goes_on(fresh(), root, components, more);
}

/// The last components, `length` of them, name a directory that is there, with the `k`th text in place
/// of `-`, below one that is there.
pub open spec fn tail_candidate(
    base: Seq<char>,
    components: Seq<Seq<char>>,
    length: int,
    k: int,
    there: spec_fn(Seq<char>) -> bool,
    path: Seq<char>,
) -> bool {
    let at = components.len() - length;
    let parent = below(base, components.take(at));
    &&& 2 <= length <= 4
    &&& length <= components.len()
    &&& 0 <= k < SEPARATORS
    &&& there(parent)
    &&& path == path_of(parent, joined(components.skip(at), separator_of(k)))
    &&& there(path)
}

/// The name that two neighbours make, the second at `right`, with the `k`th text in place of `-`.
pub open spec fn merged_name(
    base: Seq<char>,
    components: Seq<Seq<char>>,
    right: int,
    k: int,
) -> Seq<char> {
    path_of(
        below(base, components.take(right - 1)),
        components[right - 1] + separator_of(k) + components[right],
    )
}

/// Two neighbours, the second at `right`, name a directory that is there, with the `k`th text in place
/// of `-`, below one that is there.
pub open spec fn pair_leads(
    base: Seq<char>,
    components: Seq<Seq<char>>,
    right: int,
    k: int,
    there: spec_fn(Seq<char>) -> bool,
) -> bool {
    &&& 1 <= right < components.len() - 1
    &&& 0 <= k < SEPARATORS
    &&& there(below(base, components.take(right - 1)))
    &&& there(merged_name(base, components, right, k))
}

/// The components name a directory that is there: as a literal path, with merged trailing names, or
/// below merged neighbours.
pub open spec fn candidate(
    base: Seq<char>,
    components: Seq<Seq<char>>,
    there: spec_fn(Seq<char>) -> bool,
    path: Seq<char>,
) -> bool
    decreases components.len(),
{
    ||| path == below(base, components) && there(path)
    ||| exists|length: int, k: int|
        #[trigger] tail_candidate(base, components, length, k, there, path)
    ||| exists|right: int, k: int|
        #[trigger] pair_leads(base, components, right, k, there) && candidate(
            merged_name(base, components, right, k),
            components.skip(right + 1),
            there,
            path,
        )
}

/// The components behind two neighbours name the path below them.
spec fn pair_candidate(
    base: Seq<char>,
    components: Seq<Seq<char>>,
    right: int,
    k: int,
    there: spec_fn(Seq<char>) -> bool,
    path: Seq<char>,
) -> bool {
    pair_leads(base, components, right, k, there) && candidate(
        merged_name(base, components, right, k),
        components.skip(right + 1),
        there,
        path,
    )
}

/// The answers say which directories are there.
pub open spec fn truthful(
    hunt: HuntModel,
    answers: Seq<bool>,
    there: spec_fn(Seq<char>) -> bool,
) -> bool {
    hunt.asked.len() <= answers.len() && forall|i: int|
        0 <= i < hunt.asked.len() ==> answers[i] == there(#[trigger] hunt.asked[i])
}

/// A search that had these candidates before it: where it goes on, it settled on the only one there
/// is, and where it gave up, there are two or its probes are spent.
spec fn weighs(
    hunt: HuntModel,
    later: HuntModel,
    candidates: spec_fn(Seq<char>) -> bool,
) -> bool {
    let known = |path: Seq<char>| hunt.matched == Some(path) || candidates(path);
    &&& later.halt is None ==> {
        &&& later.matched matches Some(path) ==> known(path)
        &&& forall|path: Seq<char>| #[trigger] known(path) ==> later.matched == Some(path)
    }
    &&& hunt.halt is None && later.halt == Some(HaltModel::GiveUp) ==> {
        ||| later.asked.len() >= MAX_CUR_PROJECT_PATH_PROBES
        ||| exists|p: Seq<char>, q: Seq<char>|
            #[trigger] known(p) && #[trigger] known(q) && p != q
    }
}

/// Of a search that goes on, the answers before were truthful too.
proof fn truthful_before(
    hunt: HuntModel,
    later: HuntModel,
    answers: Seq<bool>,
    there: spec_fn(Seq<char>) -> bool,
)
    requires
        goes_on(hunt, later, answers),
        truthful(later, answers, there),
    ensures
        truthful(hunt, answers, there),
{
    assert forall|i: int| 0 <= i < hunt.asked.len() implies answers[i] == there(
        #[trigger] hunt.asked[i],
    ) by {
        assert(later.asked[i] == hunt.asked[i]);
    }
}

/// Weighing some candidates and then others is weighing all of them.
proof fn weighs_both(
    a: HuntModel,
    b: HuntModel,
    c: HuntModel,
    answers: Seq<bool>,
    first: spec_fn(Seq<char>) -> bool,
    second: spec_fn(Seq<char>) -> bool,
    all: spec_fn(Seq<char>) -> bool,
)
    requires
        goes_on(b, c, answers),
        weighs(a, b, first),
        weighs(b, c, second),
        forall|path: Seq<char>| #[trigger] all(path) == (first(path) || second(path)),
    ensures
        weighs(a, c, all),
{
    let before = |path: Seq<char>| a.matched == Some(path) || first(path);
    let then = |path: Seq<char>| b.matched == Some(path) || second(path);
    let known = |path: Seq<char>| a.matched == Some(path) || all(path);
    if c.halt is None {
        assert(b.halt is None);
        assert forall|path: Seq<char>| #[trigger] known(path) implies c.matched == Some(path) by {
            assert(all(path) == (first(path) || second(path)));
            if before(path) {
                assert(b.matched == Some(path));
            }
            assert(then(path));
        }
        if c.matched is Some {
            let path = c.matched->0;
            assert(then(path));
            assert(all(path) == (first(path) || second(path)));
            if b.matched == Some(path) {
                assert(before(path));
            }
        }
    }
    if a.halt is None && c.halt == Some(HaltModel::GiveUp) && c.asked.len()
        < MAX_CUR_PROJECT_PATH_PROBES {
        if b.halt is None {
            let (p, q) = choose|p: Seq<char>, q: Seq<char>|
                #[trigger] then(p) && #[trigger] then(q) && p != q;
            assert(all(p) == (first(p) || second(p)));
            assert(all(q) == (first(q) || second(q)));
            if b.matched == Some(p) {
                assert(before(p));
            }
            if b.matched == Some(q) {
                assert(before(q));
            }
            assert(known(p) && known(q));
        } else {
            assert(c == b);
            let (p, q) = choose|p: Seq<char>, q: Seq<char>|
                #[trigger] before(p) && #[trigger] before(q) && p != q;
            assert(all(p) == (first(p) || second(p)));
            assert(all(q) == (first(q) || second(q)));
            assert(known(p) && known(q));
        }
    }
}

/// Looking for a directory weighs nothing.
proof fn probed_weighs(hunt: HuntModel, path: Seq<char>, answers: Seq<bool>)
    ensures
        weighs(hunt, probed(hunt, path, answers), |path: Seq<char>| false),
{
    let known = |path: Seq<char>| hunt.matched == Some(path) || (|path: Seq<char>| false)(path);
    if hunt.matched is Some {
        assert(known(hunt.matched->0));
    }
}

/// Looking for a candidate weighs it.
proof fn tried_weighs(
    hunt: HuntModel,
    path: Seq<char>,
    answers: Seq<bool>,
    there: spec_fn(Seq<char>) -> bool,
)
    requires
        truthful(tried(hunt, path, answers), answers, there),
    ensures
        weighs(hunt, tried(hunt, path, answers), |p: Seq<char>| p == path && there(p)),
{
    let next = probed(hunt, path, answers);
    let only = |p: Seq<char>| p == path && there(p);
    let known = |p: Seq<char>| hunt.matched == Some(p) || only(p);
    if hunt.matched is Some {
        assert(known(hunt.matched->0));
    }
    if next.halt is None {
        assert(next.asked.last() == path);
        assert(tried(hunt, path, answers).asked == next.asked);
        assert(answers[next.asked.len() - 1] == there(next.asked[next.asked.len() - 1]));
        if there(path) {
            assert(known(path));
        }
    }
}

/// Where there is no candidate, or the search halted, staying put weighs them.
proof fn staying_weighs(hunt: HuntModel, candidates: spec_fn(Seq<char>) -> bool)
    requires
        hunt.halt is Some || forall|path: Seq<char>| !#[trigger] candidates(path),
    ensures
        weighs(hunt, hunt, candidates),
{
    let known = |path: Seq<char>| hunt.matched == Some(path) || candidates(path);
    if hunt.matched is Some {
        assert(known(hunt.matched->0));
    }
}

/// The candidates among the last components, `length` of them, from the `k`th text on.
spec fn tails_at(
    base: Seq<char>,
    components: Seq<Seq<char>>,
    length: int,
    k: int,
    there: spec_fn(Seq<char>) -> bool,
) -> spec_fn(Seq<char>) -> bool {
    |path: Seq<char>|
        exists|j: int| k <= j && #[trigger] tail_candidate(base, components, length, j, there, path)
}

/// The candidates among the last components, from `length` of them on.
spec fn tails_from(
    base: Seq<char>,
    components: Seq<Seq<char>>,
    length: int,
    there: spec_fn(Seq<char>) -> bool,
) -> spec_fn(Seq<char>) -> bool {
    |path: Seq<char>|
        exists|n: int, k: int|
            length <= n && #[trigger] tail_candidate(base, components, n, k, there, path)
}

/// The candidates below the neighbours that end at `right`, from the `k`th text on.
spec fn pair_at(
    base: Seq<char>,
    components: Seq<Seq<char>>,
    right: int,
    k: int,
    there: spec_fn(Seq<char>) -> bool,
) -> spec_fn(Seq<char>) -> bool {
    |path: Seq<char>|
        exists|j: int| k <= j && #[trigger] pair_candidate(base, components, right, j, there, path)
}

/// The candidates below the neighbours that end at `right` or before.
spec fn pairs_to(
    base: Seq<char>,
    components: Seq<Seq<char>>,
    right: int,
    there: spec_fn(Seq<char>) -> bool,
) -> spec_fn(Seq<char>) -> bool {
    |path: Seq<char>|
        exists|n: int, k: int|
            n <= right && #[trigger] pair_candidate(base, components, n, k, there, path)
}

/// Trying a name weighs the candidates that it makes.
proof fn named_below_weighs(
    hunt: HuntModel,
    base: Seq<char>,
    components: Seq<Seq<char>>,
    length: int,
    k: int,
    answers: Seq<bool>,
    there: spec_fn(Seq<char>) -> bool,
)
    requires
        2 <= length <= 4,
        length <= components.len(),
        0 <= k,
        there(below(base, components.take(components.len() - length))),
        truthful(
            named_below(
                hunt,
                below(base, components.take(components.len() - length)),
                components.skip(components.len() - length),
                k,
                answers,
            ),
            answers,
            there,
        ),
    ensures
        weighs(
            hunt,
            named_below(
                hunt,
                below(base, components.take(components.len() - length)),
                components.skip(components.len() - length),
                k,
                answers,
            ),
            tails_at(base, components, length, k, there),
        ),
    decreases SEPARATORS - k,
{
    let at = components.len() - length;
    let parent = below(base, components.take(at));
    let suffix = components.skip(at);
    let all = tails_at(base, components, length, k, there);
    if k < SEPARATORS {
        let path = path_of(parent, joined(suffix, separator_of(k)));
        let next = tried(hunt, path, answers);
        let later = named_below(next, parent, suffix, k + 1, answers);
        let one = |p: Seq<char>| p == path && there(p);
        let rest = tails_at(base, components, length, k + 1, there);
        tried_goes_on(hunt, path, answers);
        named_below_goes_on(next, parent, suffix, k + 1, answers);
        truthful_before(next, later, answers, there);
        tried_weighs(hunt, path, answers, there);
        named_below_weighs(next, base, components, length, k + 1, answers, there);
        assert forall|p: Seq<char>| #[trigger] all(p) == (one(p) || rest(p)) by {
            assert(one(p) == tail_candidate(base, components, length, k, there, p));
            if all(p) {
                let j = choose|j: int|
                    k <= j && #[trigger] tail_candidate(base, components, length, j, there, p);
                assert(j == k || k + 1 <= j);
            }
        }
        weighs_both(hunt, next, later, answers, one, rest, all);
    } else {
        staying_weighs(hunt, all);
    }
}

/// Trying the last components as one name weighs the candidates that they make.
proof fn tails_weigh(
    hunt: HuntModel,
    base: Seq<char>,
    components: Seq<Seq<char>>,
    length: int,
    answers: Seq<bool>,
    there: spec_fn(Seq<char>) -> bool,
)
    requires
        2 <= length,
        truthful(tails_tried(hunt, base, components, length, answers), answers, there),
    ensures
        weighs(
            hunt,
            tails_tried(hunt, base, components, length, answers),
            tails_from(base, components, length, there),
        ),
    decreases 5 - length,
{
    let all = tails_from(base, components, length, there);
    if length <= 4 && length <= components.len() {
        let at = components.len() - length;
        let parent = below(base, components.take(at));
        let suffix = components.skip(at);
        let next = probed(hunt, parent, answers);
        let found = next.halt is None && exists_there(next, answers);
        let after = if found {
            named_below(next, parent, suffix, 0, answers)
        } else {
            next
        };
        let later = tails_tried(after, base, components, length + 1, answers);
        let none = |p: Seq<char>| false;
        let here = tails_at(base, components, length, 0, there);
        let rest = tails_from(base, components, length + 1, there);
        probed_goes_on(hunt, parent, answers);
        named_below_goes_on(next, parent, suffix, 0, answers);
        tails_go_on(after, base, components, length + 1, answers);
        truthful_before(after, later, answers, there);
        truthful_before(next, after, answers, there);
        probed_weighs(hunt, parent, answers);
        if next.halt is None {
            assert(next.asked[next.asked.len() - 1] == parent);
            assert(exists_there(next, answers) == there(parent));
        }
        if found {
            named_below_weighs(next, base, components, length, 0, answers, there);
        } else {
            staying_weighs(next, here);
        }
        weighs_both(hunt, next, after, answers, none, here, here);
        tails_weigh(after, base, components, length + 1, answers, there);
        assert forall|p: Seq<char>| #[trigger] all(p) == (here(p) || rest(p)) by {
            if all(p) {
                let (n, k) = choose|n: int, k: int|
                    length <= n && #[trigger] tail_candidate(base, components, n, k, there, p);
                assert(n == length || length + 1 <= n);
            }
        }
        weighs_both(hunt, after, later, answers, here, rest, all);
    } else {
        staying_weighs(hunt, all);
    }
}

/// Looking below a merged name weighs the candidates there.
proof fn after_merge_weighs(
    next: HuntModel,
    merged: Seq<char>,
    rest: Seq<Seq<char>>,
    answers: Seq<bool>,
    there: spec_fn(Seq<char>) -> bool,
)
    requires
        next.halt is None,
        truthful(after_merge(next, merged, rest, answers), answers, there),
    ensures
        weighs(
            next,
            after_merge(next, merged, rest, answers),
            |p: Seq<char>| candidate(merged, rest, there, p),
        ),
    decreases rest.len(), 4int, 0int,
{
    let start = HuntModel { matched: None, ..next };
    let inner = searched(start, merged, rest, answers);
    let later = after_merge(next, merged, rest, answers);
    let all = |p: Seq<char>| candidate(merged, rest, there, p);
    search_weighs(start, merged, rest, answers, there);
    let within = |p: Seq<char>| start.matched == Some(p) || all(p);
    let known = |p: Seq<char>| next.matched == Some(p) || all(p);
    if inner.halt is None {
        if next.matched is Some {
            assert(known(next.matched->0));
        }
        if inner.matched is Some {
            assert(within(inner.matched->0));
            assert(known(inner.matched->0));
        }
        assert forall|p: Seq<char>| #[trigger] known(p) && later.halt is None implies later.matched
            == Some(p) by {
            if all(p) {
                assert(within(p));
            }
        }
    } else if inner.halt == Some(HaltModel::GiveUp) && inner.asked.len()
        < MAX_CUR_PROJECT_PATH_PROBES {
        let (p, q) = choose|p: Seq<char>, q: Seq<char>|
            #[trigger] within(p) && #[trigger] within(q) && p != q;
        assert(known(p) && known(q));
    }
}

/// Merging a pair weighs the candidates below it.
proof fn pair_weighs(
    hunt: HuntModel,
    base: Seq<char>,
    components: Seq<Seq<char>>,
    right: int,
    k: int,
    answers: Seq<bool>,
    there: spec_fn(Seq<char>) -> bool,
)
    requires
        1 <= right < components.len() - 1,
        0 <= k,
        there(below(base, components.take(right - 1))),
        truthful(
            pair_merged(
                hunt,
                below(base, components.take(right - 1)),
                components,
                right,
                k,
                answers,
            ),
            answers,
            there,
        ),
    ensures
        weighs(
            hunt,
            pair_merged(
                hunt,
                below(base, components.take(right - 1)),
                components,
                right,
                k,
                answers,
            ),
            pair_at(base, components, right, k, there),
        ),
    decreases components.len(), 1int, SEPARATORS - k,
{
    let prefix = below(base, components.take(right - 1));
    let all = pair_at(base, components, right, k, there);
    if k < SEPARATORS {
        let merged = path_of(prefix, components[right - 1] + separator_of(k) + components[right]);
        let behind = components.skip(right + 1);
        let next = probed(hunt, merged, answers);
        let found = next.halt is None && exists_there(next, answers);
        let after = if found {
            after_merge(next, merged, behind, answers)
        } else {
            next
        };
        let later = pair_merged(after, prefix, components, right, k + 1, answers);
        let none = |p: Seq<char>| false;
        let here = |p: Seq<char>| pair_candidate(base, components, right, k, there, p);
        let rest = pair_at(base, components, right, k + 1, there);
        probed_goes_on(hunt, merged, answers);
        if found {
            after_merge_goes_on(next, merged, behind, answers);
        }
        pair_goes_on(after, prefix, components, right, k + 1, answers);
        truthful_before(after, later, answers, there);
        if found {
            truthful_before(next, after, answers, there);
        }
        probed_weighs(hunt, merged, answers);
        if next.halt is None {
            assert(next.asked[next.asked.len() - 1] == merged);
            assert(exists_there(next, answers) == there(merged));
        }
        if found {
            let deep = |p: Seq<char>| candidate(merged, behind, there, p);
            after_merge_weighs(next, merged, behind, answers, there);
            assert forall|p: Seq<char>| #[trigger] here(p) == (none(p) || deep(p)) by {}
            weighs_both(hunt, next, after, answers, none, deep, here);
        } else {
            staying_weighs(next, here);
            weighs_both(hunt, next, after, answers, none, here, here);
        }
        pair_weighs(after, base, components, right, k + 1, answers, there);
        assert forall|p: Seq<char>| #[trigger] all(p) == (here(p) || rest(p)) by {
            if all(p) {
                let j = choose|j: int|
                    k <= j && #[trigger] pair_candidate(base, components, right, j, there, p);
                assert(j == k || k + 1 <= j);
            }
        }
        weighs_both(hunt, after, later, answers, here, rest, all);
    } else {
        staying_weighs(hunt, all);
    }
}

/// Merging pairs weighs the candidates below them.
proof fn pairs_weigh(
    hunt: HuntModel,
    base: Seq<char>,
    components: Seq<Seq<char>>,
    right: int,
    answers: Seq<bool>,
    there: spec_fn(Seq<char>) -> bool,
)
    requires
        right < components.len() - 1,
        truthful(pairs_merged(hunt, base, components, right, answers), answers, there),
    ensures
        weighs(
            hunt,
            pairs_merged(hunt, base, components, right, answers),
            pairs_to(base, components, right, there),
        ),
    decreases components.len(), 2int, right,
{
    let all = pairs_to(base, components, right, there);
    if right >= 1 {
        let prefix = below(base, components.take(right - 1));
        let next = probed(hunt, prefix, answers);
        let found = next.halt is None && exists_there(next, answers);
        let after = if found {
            pair_merged(next, prefix, components, right, 0, answers)
        } else {
            next
        };
        let later = pairs_merged(after, base, components, right - 1, answers);
        let none = |p: Seq<char>| false;
        let here = pair_at(base, components, right, 0, there);
        let rest = pairs_to(base, components, right - 1, there);
        probed_goes_on(hunt, prefix, answers);
        pair_goes_on(next, prefix, components, right, 0, answers);
        pairs_go_on(after, base, components, right - 1, answers);
        truthful_before(after, later, answers, there);
        truthful_before(next, after, answers, there);
        probed_weighs(hunt, prefix, answers);
        if next.halt is None {
            assert(next.asked[next.asked.len() - 1] == prefix);
            assert(exists_there(next, answers) == there(prefix));
        }
        if found {
            pair_weighs(next, base, components, right, 0, answers, there);
        } else {
            staying_weighs(next, here);
        }
        weighs_both(hunt, next, after, answers, none, here, here);
        pairs_weigh(after, base, components, right - 1, answers, there);
        assert forall|p: Seq<char>| #[trigger] all(p) == (here(p) || rest(p)) by {
            if all(p) {
                let (n, k) = choose|n: int, k: int|
                    n <= right && #[trigger] pair_candidate(base, components, n, k, there, p);
                assert(n == right || n <= right - 1);
            }
        }
        weighs_both(hunt, after, later, answers, here, rest, all);
    } else {
        staying_weighs(hunt, all);
    }
}

/// The whole search weighs all candidates.
proof fn search_weighs(
    hunt: HuntModel,
    base: Seq<char>,
    components: Seq<Seq<char>>,
    answers: Seq<bool>,
    there: spec_fn(Seq<char>) -> bool,
)
    requires
        truthful(searched(hunt, base, components, answers), answers, there),
    ensures
        weighs(
            hunt,
            searched(hunt, base, components, answers),
            |p: Seq<char>| candidate(base, components, there, p),
        ),
    decreases components.len(), 3int, 0int,
{
    let last = components.len() - 2;
    let path = below(base, components);
    let literal = tried(hunt, path, answers);
    let tails = tails_tried(literal, base, components, 2, answers);
    let later = pairs_merged(tails, base, components, last, answers);
    tried_goes_on(hunt, path, answers);
    tails_go_on(literal, base, components, 2, answers);
    pairs_go_on(tails, base, components, last, answers);
    truthful_before(tails, later, answers, there);
    truthful_before(literal, tails, answers, there);
    let one = |p: Seq<char>| p == path && there(p);
    let named = tails_from(base, components, 2, there);
    let both = |p: Seq<char>| one(p) || named(p);
    let merged = pairs_to(base, components, last, there);
    let all = |p: Seq<char>| candidate(base, components, there, p);
    tried_weighs(hunt, path, answers, there);
    tails_weigh(literal, base, components, 2, answers, there);
    weighs_both(hunt, literal, tails, answers, one, named, both);
    pairs_weigh(tails, base, components, last, answers, there);
    assert forall|p: Seq<char>| #[trigger] all(p) == (both(p) || merged(p)) by {
        if exists|length: int, k: int|
            #[trigger] tail_candidate(base, components, length, k, there, p) {
            let (length, k) = choose|length: int, k: int|
                #[trigger] tail_candidate(base, components, length, k, there, p);
            assert(2 <= length);
            assert(named(p));
        }
        if exists|right: int, k: int|
            #[trigger] pair_leads(base, components, right, k, there) && candidate(
                merged_name(base, components, right, k),
                components.skip(right + 1),
                there,
                p,
            ) {
            let (right, k) = choose|right: int, k: int|
                #[trigger] pair_leads(base, components, right, k, there) && candidate(
                    merged_name(base, components, right, k),
                    components.skip(right + 1),
                    there,
                    p,
                );
            assert(right <= last);
            assert(pair_candidate(base, components, right, k, there, p));
            assert(merged(p));
        }
        if merged(p) {
            let (right, k) = choose|right: int, k: int|
                right <= last && #[trigger] pair_candidate(base, components, right, k, there, p);
            assert(pair_leads(base, components, right, k, there));
        }
    }
    weighs_both(hunt, tails, later, answers, both, merged, all);
}

/// A name decodes to the one directory that it can stand for. It decodes to nothing only where there
/// is no such directory, where there are two, or where the search gave up with its probes spent.
pub proof fn the_only_directory_is_found(
    encoded: Seq<char>,
    root: Seq<char>,
    answers: Seq<bool>,
    there: spec_fn(Seq<char>) -> bool,
)
    requires
        !any_unusable(split_on(undashed(encoded), '-')),
        truthful(
            searched(fresh(), root, split_on(undashed(encoded), '-'), answers),
            answers,
            there,
        ),
    ensures
        ({
            let components = split_on(undashed(encoded), '-');
            let hunt = searched(fresh(), root, components, answers);
            match decoding_of(encoded, root, answers) {
                DecodingModel::Ask(_) => true,
                DecodingModel::Done(Some(path)) => candidate(root, components, there, path)
                    && forall|other: Seq<char>| #[trigger]
                    candidate(root, components, there, other) ==> other == path,
                DecodingModel::Done(None) => {
                    ||| hunt.halt is None && forall|path: Seq<char>| !#[trigger]
                        candidate(root, components, there, path)
                    ||| exists|p: Seq<char>, q: Seq<char>| #[trigger]
                        candidate(root, components, there, p) && #[trigger] candidate(
                            root,
                            components,
                            there,
                            q,
                        ) && p != q
                    ||| hunt.halt == Some(HaltModel::GiveUp) && hunt.asked.len()
                        >= MAX_CUR_PROJECT_PATH_PROBES
                },
            }
        }),
{
    let components = split_on(undashed(encoded), '-');
    let hunt = searched(fresh(), root, components, answers);
    let all = |p: Seq<char>| candidate(root, components, there, p);
    let known = |p: Seq<char>| fresh().matched == Some(p) || all(p);
    search_weighs(fresh(), root, components, answers, there);
    if hunt.halt is None {
        if hunt.matched is Some {
            assert(known(hunt.matched->0));
        }
        assert forall|p: Seq<char>| #[trigger]
            candidate(root, components, there, p) implies hunt.matched == Some(p) by {
            assert(known(p));
        }
    } else if hunt.halt == Some(HaltModel::GiveUp) && hunt.asked.len()
        < MAX_CUR_PROJECT_PATH_PROBES {
        let (p, q) = choose|p: Seq<char>, q: Seq<char>|
            #[trigger] known(p) && #[trigger] known(q) && p != q;
        assert(candidate(root, components, there, p) && candidate(root, components, there, q));
    }
}

} // verus!
