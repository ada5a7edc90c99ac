//! The transcripts below a directory, in order, and the sessions they may be imported as.

use vstd::prelude::*;

use crate::storage::path_join;
use crate::storage::path_of;
use crate::table::is_less;
use crate::table::less;
use crate::table::less_irreflexive;
use crate::table::less_total;
use crate::table::less_transitive;
use crate::text::chars_of;
use crate::text::copy_maybe;
use crate::text::maybe;
use crate::text::same;
use crate::text::split;
use crate::text::split_on;
use crate::text::text_of;
use crate::text::texts;

verus! {

/// What an entry of a directory is.
#[derive(Clone, Copy, Debug, PartialEq, Eq, Structural)]
pub enum EntryKind {
    Directory,
    File,
    Other,
}

/// An entry of a directory.
#[derive(Debug, PartialEq, Eq)]
pub struct DirectoryEntry {
    pub name: String,
    pub kind: EntryKind,
}

/// The directories still to be listed, the last one next, and the transcripts found so far.
#[derive(Debug, PartialEq, Eq)]
pub struct Walk {
    pending: Vec<String>,
    files: Vec<String>,
}

/// The directories still to be listed and the transcripts found so far, as sequences of characters.
#[verifier::ext_equal]
pub struct WalkModel {
    pub pending: Seq<Seq<char>>,
    pub files: Seq<Seq<char>>,
}

impl View for Walk {
    type V = WalkModel;

    closed spec fn view(&self) -> WalkModel {
        WalkModel { pending: texts(self.pending@), files: texts(self.files@) }
    }
}

/// The file is a transcript: its name has something before the ending.
pub open spec fn transcript_name(name: Seq<char>) -> bool {
    name.len() > 6 && name.skip(name.len() - 6) == ".jsonl"@
}

/// Whether a file is a transcript.
fn is_transcript_name(name: &str) -> (r: bool)
    ensures
        r == transcript_name(name@),
{
    let chars = chars_of(name);
    if chars.len() <= 6 {
        return false;
    }
    let ending = text_of(&chars, chars.len() - 6, chars.len());
    assert(ending@ == name@.skip(name@.len() - 6));
    same(ending.as_str(), ".jsonl")
}

/// What the first `n` entries of a directory add to a walk: the directories in it, but for those of
/// subagents, and its transcripts.
pub open spec fn listed(
    walk: WalkModel,
    directory: Seq<char>,
    entries: Seq<DirectoryEntry>,
    n: nat,
) -> WalkModel
    decreases n,
{
    if n == 0 || n > entries.len() {
        walk
    } else {
        let before = listed(walk, directory, entries, (n - 1) as nat);
        let entry = entries[n - 1];
        let path = path_of(directory, entry.name@);
        if entry.kind == EntryKind::Directory {
            if entry.name@ == "subagents"@ {
                before
            } else {
                WalkModel { pending: before.pending.push(path), ..before }
            }
        } else if entry.kind == EntryKind::File && transcript_name(entry.name@) {
            WalkModel { files: before.files.push(path), ..before }
        } else {
            before
        }
    }
}

/// The list of names comes first: by the first name in which they differ, a beginning before what
/// extends it.
pub open spec fn names_less(a: Seq<Seq<char>>, b: Seq<Seq<char>>) -> bool
    decreases a.len(),
{
    if b.len() == 0 {
        false
    } else if a.len() == 0 {
        true
    } else if a[0] != b[0] {
        less(a[0], b[0])
    } else {
        names_less(a.skip(1), b.skip(1))
    }
}

/// The path comes first, name by name.
pub open spec fn path_less(a: Seq<char>, b: Seq<char>) -> bool {
    names_less(split_on(a, '/'), split_on(b, '/'))
}

/// The order of names is transitive.
proof fn names_transitive(a: Seq<Seq<char>>, b: Seq<Seq<char>>, c: Seq<Seq<char>>)
    requires
        names_less(a, b),
        names_less(b, c),
    ensures
        names_less(a, c),
    decreases a.len(),
{
    if a.len() > 0 && b.len() > 0 && c.len() > 0 {
        if a[0] == b[0] && b[0] == c[0] {
            names_transitive(a.skip(1), b.skip(1), c.skip(1));
        } else if a[0] != b[0] && b[0] != c[0] {
            less_transitive(a[0], b[0], c[0]);
            if a[0] == c[0] {
                less_irreflexive(a[0]);
            }
        }
    }
}

/// Of two different lists of names one comes first.
proof fn names_total(a: Seq<Seq<char>>, b: Seq<Seq<char>>)
    ensures
        names_less(a, b) || names_less(b, a) || a == b,
        !(names_less(a, b) && names_less(b, a)),
    decreases a.len(),
{
    if a.len() > 0 && b.len() > 0 {
        if a[0] == b[0] {
            names_total(a.skip(1), b.skip(1));
            if a.skip(1) == b.skip(1) {
                assert(a == seq![a[0]] + a.skip(1));
                assert(b == seq![b[0]] + b.skip(1));
            }
        } else {
            less_total(a[0], b[0]);
            if less(a[0], b[0]) && less(b[0], a[0]) {
                less_transitive(a[0], b[0], a[0]);
                less_irreflexive(a[0]);
            }
        }
    } else if a.len() == 0 && b.len() == 0 {
        assert(a == b);
    }
}

/// Whether one path comes before another.
fn is_path_less(a: &str, b: &str) -> (r: bool)
    ensures
        r == path_less(a@, b@),
{
    let left = split(a, '/');
    let right = split(b, '/');
    let ghost x = texts(left@);
    let ghost y = texts(right@);
    let mut i: usize = 0;
    assert(x.skip(0) == x && y.skip(0) == y);
    while i < left.len() && i < right.len()
        invariant
            i <= left@.len(),
            i <= right@.len(),
            x == texts(left@),
            y == texts(right@),
            names_less(x.skip(i as int), y.skip(i as int)) == path_less(a@, b@),
        decreases left@.len() - i,
    {
        assert(x.skip(i as int).skip(1) == x.skip(i + 1));
        assert(y.skip(i as int).skip(1) == y.skip(i + 1));
        assert(x.skip(i as int)[0] == left@[i as int]@);
        assert(y.skip(i as int)[0] == right@[i as int]@);
        if !same(left[i].as_str(), right[i].as_str()) {
            return is_less(left[i].as_str(), right[i].as_str());
        }
        i += 1;
    }
    i < right.len()
}

/// No path comes before one in front of it.
pub open spec fn in_order(paths: Seq<Seq<char>>) -> bool {
    forall|i: int, j: int|
        0 <= i < j < paths.len() ==> !path_less(#[trigger] paths[j], #[trigger] paths[i])
}

/// Puts a path into an ordered list, behind those that do not come after it.
fn insert_path(paths: &mut Vec<String>, path: String)
    requires
        in_order(texts(old(paths)@)),
    ensures
        in_order(texts(final(paths)@)),
        texts(final(paths)@).to_multiset() == texts(old(paths)@).to_multiset().insert(path@),
{
    let ghost before = texts(paths@);
    let mut at: usize = paths.len();
    while at > 0 && is_path_less(path.as_str(), paths[at - 1].as_str())
        invariant
            at <= paths@.len(),
            before == texts(paths@),
            forall|j: int| at <= j < before.len() ==> path_less(path@, #[trigger] before[j]),
        decreases at,
    {
        assert(before[at - 1] == paths@[at - 1]@);
        at -= 1;
    }
    let ghost added = path@;
    proof {
        if at > 0 {
            assert(before[at - 1] == paths@[at - 1]@);
        }
    }
    paths.insert(at, path);
    proof {
        let after = texts(paths@);
        assert(after =~= before.insert(at as int, added));
        vstd::seq_lib::to_multiset_insert(before, at as int, added);
        assert forall|i: int, j: int| 0 <= i < j < after.len() implies !path_less(
            #[trigger] after[j],
            #[trigger] after[i],
        ) by {
            let old_i = if i < at {
                i
            } else {
                i - 1
            };
            let old_j = if j < at {
                j
            } else {
                j - 1
            };
            if i == at {
                names_total(split_on(added, '/'), split_on(before[old_j], '/'));
            } else if j == at {
                if path_less(added, before[i]) {
                    if i < at - 1 {
                        assert(!path_less(before[at - 1], before[i]));
                        names_total(split_on(before[at - 1], '/'), split_on(before[i], '/'));
                        if path_less(before[i], before[at - 1]) {
                            names_transitive(
                                split_on(added, '/'),
                                split_on(before[i], '/'),
                                split_on(before[at - 1], '/'),
                            );
                        }
                    }
                    assert(false);
                }
            } else {
                assert(after[i] == before[old_i] && after[j] == before[old_j]);
            }
        }
    }
}

impl Walk {
    /// A walk from a directory.
    pub fn start(root: &str) -> (walk: Self)
        ensures
            walk@ == (WalkModel { pending: seq![root@], files: Seq::empty() }),
    {
        let mut pending: Vec<String> = Vec::new();
        pending.push(root.to_string());
        let walk = Walk { pending, files: Vec::new() };
        assert(walk@ =~= WalkModel { pending: seq![root@], files: Seq::empty() });
        walk
    }

    /// The directory to be listed next, where there is one.
    pub fn next_directory(&mut self) -> (directory: Option<String>)
        ensures
            maybe(directory) == (if old(self)@.pending.len() == 0 {
                None
            } else {
                Some(old(self)@.pending.last())
            }),
            final(self)@ == (if old(self)@.pending.len() == 0 {
                old(self)@
            } else {
                WalkModel { pending: old(self)@.pending.drop_last(), ..old(self)@ }
            }),
    {
        let next = self.pending.pop();
        assert(old(self)@.pending.len() > 0 ==> self@.pending =~= old(self)@.pending.drop_last());
        next
    }

    /// Takes in the entries of a directory.
    pub fn list(&mut self, directory: &str, entries: &Vec<DirectoryEntry>)
        ensures
            final(self)@ == listed(old(self)@, directory@, entries@, entries@.len()),
    {
        let mut i: usize = 0;
        while i < entries.len()
            invariant
                i <= entries@.len(),
                self@ == listed(old(self)@, directory@, entries@, i as nat),
            decreases entries@.len() - i,
        {
            let ghost before = self@;
            let path = path_join(directory, entries[i].name.as_str());
            match entries[i].kind {
                EntryKind::Directory => {
                    if !same(entries[i].name.as_str(), "subagents") {
                        self.pending.push(path);
                        assert(self@ =~= WalkModel { pending: before.pending.push(path@), ..before });
                    }
                },
                EntryKind::File => {
                    if is_transcript_name(entries[i].name.as_str()) {
                        self.files.push(path);
                        assert(self@ =~= WalkModel { files: before.files.push(path@), ..before });
                    }
                },
                EntryKind::Other => {},
            }
            i += 1;
        }
    }

    /// The transcripts found, in the order of their paths.
    pub fn finish(self) -> (files: Vec<String>)
        ensures
            in_order(texts(files@)),
            texts(files@).to_multiset() == self@.files.to_multiset(),
    {
        let mut out: Vec<String> = Vec::new();
        let ghost found = texts(self.files@);
        let mut i: usize = 0;
        assert(found.take(0) =~= texts(out@));
        while i < self.files.len()
            invariant
                i <= self.files@.len(),
                found == texts(self.files@),
                in_order(texts(out@)),
                texts(out@).to_multiset() == found.take(i as int).to_multiset(),
            decreases self.files@.len() - i,
        {
            proof {
                assert(found.take(i + 1) =~= found.take(i as int).push(found[i as int]));
                found.take(i as int).to_multiset_ensures();
            }
            insert_path(&mut out, self.files[i].clone());
            i += 1;
        }
        assert(found.take(found.len() as int) =~= found);
        out
    }
}

/// A transcript that may be imported, and the directory it is taken to belong to where it does not
/// say.
#[derive(Debug, PartialEq, Eq)]
pub struct SessionFileCandidate {
    pub path: String,
    pub fallback_cwd: Option<String>,
}

/// The transcripts of a project.
#[derive(Debug, PartialEq, Eq)]
pub struct ProjectTranscripts {
    pub cwd: Option<String>,
    pub files: Vec<String>,
}

/// The candidates of the first `n` projects, in order.
pub open spec fn candidates_of(projects: Seq<ProjectTranscripts>, n: nat) -> Seq<
    (Seq<char>, Option<Seq<char>>),
>
    decreases n,
{
    if n == 0 || n > projects.len() {
        Seq::empty()
    } else {
        let project = projects[n - 1];
        candidates_of(projects, (n - 1) as nat) + Seq::new(
            project.files@.len(),
            |i: int| (project.files@[i]@, maybe(project.cwd)),
        )
    }
}

/// What a list of candidates stands for.
pub open spec fn offered(list: Seq<SessionFileCandidate>) -> Seq<(Seq<char>, Option<Seq<char>>)> {
    Seq::new(list.len(), |i: int| (list[i].path@, maybe(list[i].fallback_cwd)))
}

/// Every transcript of every project, in order, with the directory of its project.
pub fn session_candidates(projects: &Vec<ProjectTranscripts>) -> (r: Vec<SessionFileCandidate>)
    ensures
        offered(r@) == candidates_of(projects@, projects@.len()),
{
    let mut out: Vec<SessionFileCandidate> = Vec::new();
    let mut p: usize = 0;
    assert(offered(out@) =~= candidates_of(projects@, 0));
    while p < projects.len()
        invariant
            p <= projects@.len(),
            offered(out@) == candidates_of(projects@, p as nat),
        decreases projects@.len() - p,
    {
        let project = &projects[p];
        let ghost before = offered(out@);
        let ghost own = Seq::new(
            project.files@.len(),
            |i: int| (project.files@[i]@, maybe(project.cwd)),
        );
        let mut i: usize = 0;
        assert(before + own.take(0) =~= before);
        while i < project.files.len()
            invariant
                i <= project.files@.len(),
                own == Seq::new(
                    project.files@.len(),
                    |i: int| (project.files@[i]@, maybe(project.cwd)),
                ),
                offered(out@) == before + own.take(i as int),
            decreases project.files@.len() - i,
        {
            let candidate = SessionFileCandidate {
                path: project.files[i].clone(),
                fallback_cwd: copy_maybe(&project.cwd),
            };
            proof {
                assert(own.take(i + 1) =~= own.take(i as int).push(own[i as int]));
                assert(offered(out@.push(candidate)) =~= offered(out@).push(own[i as int]));
                assert(before + own.take(i + 1) =~= (before + own.take(i as int)).push(
                    own[i as int],
                ));
            }
            out.push(candidate);
            i += 1;
        }
        assert(own.take(own.len() as int) =~= own);
        p += 1;
    }
    out
}

/// The entry is a directory to be walked: any but one of subagents.
pub open spec fn is_walked(entry: DirectoryEntry) -> bool {
    entry.kind == EntryKind::Directory && entry.name@ != "subagents"@
}

/// The entry is a file whose name has something before `.jsonl`.
pub open spec fn is_transcript(entry: DirectoryEntry) -> bool {
    entry.kind == EntryKind::File && exists|stem: Seq<char>|
        stem.len() > 0 && entry.name@ == #[trigger] (stem + ".jsonl"@)
}

/// A name is that of a transcript exactly when something stands before its ending.
proof fn transcripts_have_their_ending(name: Seq<char>)
    ensures
        transcript_name(name) <==> exists|stem: Seq<char>|
            stem.len() > 0 && name == #[trigger] (stem + ".jsonl"@),
{
    reveal_strlit(".jsonl");
    let ending = ".jsonl"@;
    if transcript_name(name) {
        let stem = name.take(name.len() - 6);
        assert(name =~= stem + ending) by {
            assert(name.skip(name.len() - 6) == ending);
            assert(name =~= stem + name.skip(name.len() - 6));
        }
    }
    if exists|stem: Seq<char>| stem.len() > 0 && name == #[trigger] (stem + ending) {
        let stem = choose|stem: Seq<char>| stem.len() > 0 && name == #[trigger] (stem + ending);
        assert(name.skip(name.len() - 6) =~= ending);
    }
}

/// A list keeps what it held, with one more at the end.
proof fn pushed_holds(list: Seq<Seq<char>>, last: Seq<char>, path: Seq<char>)
    ensures
        list.push(last).contains(path) <==> list.contains(path) || path == last,
{
    let after = list.push(last);
    assert(after[list.len() as int] == last);
    if list.contains(path) {
        let k = choose|k: int| 0 <= k < list.len() && list[k] == path;
        assert(after[k] == path);
    }
    if after.contains(path) {
        let k = choose|k: int| 0 <= k < after.len() && after[k] == path;
        if k < list.len() {
            assert(list[k] == path);
        }
    }
}

/// Listing a directory adds the transcripts in it to the files, and the directories in it, but for those of
/// subagents, to what is still to be walked; it adds nothing else and takes nothing away.
pub proof fn walks_find_transcripts(
    walk: WalkModel,
    directory: Seq<char>,
    entries: Seq<DirectoryEntry>,
    n: nat,
    path: Seq<char>,
)
    requires
        n <= entries.len(),
    ensures
        listed(walk, directory, entries, n).files.contains(path) <==> walk.files.contains(path)
            || exists|i: int|
            0 <= i < n && is_transcript(#[trigger] entries[i]) && path == path_of(
                directory,
                entries[i].name@,
            ),
        listed(walk, directory, entries, n).pending.contains(path) <==> walk.pending.contains(path)
            || exists|i: int|
            0 <= i < n && is_walked(#[trigger] entries[i]) && path == path_of(
                directory,
                entries[i].name@,
            ),
    decreases n,
{
    if n > 0 {
        let before = listed(walk, directory, entries, (n - 1) as nat);
        let entry = entries[n - 1];
        let last = path_of(directory, entry.name@);
        walks_find_transcripts(walk, directory, entries, (n - 1) as nat, path);
        transcripts_have_their_ending(entry.name@);
        pushed_holds(before.files, last, path);
        pushed_holds(before.pending, last, path);
    }
}

/// Behind the same names the order of paths is that of the next name, and a path comes before what goes
/// on from it.
pub proof fn paths_are_in_order_of_their_names(
    lead: Seq<Seq<char>>,
    a: Seq<char>,
    b: Seq<char>,
    u: Seq<Seq<char>>,
    v: Seq<Seq<char>>,
)
    ensures
        a != b ==> names_less(lead + seq![a] + u, lead + seq![b] + v) == less(a, b),
        names_less(lead, lead + seq![a] + u),
        !names_less(lead + seq![a] + u, lead),
    decreases lead.len(),
{
    let x = lead + seq![a] + u;
    let y = lead + seq![b] + v;
    if lead.len() == 0 {
        assert(x[0] == a);
        assert(y[0] == b);
    } else {
        paths_are_in_order_of_their_names(lead.skip(1), a, b, u, v);
        assert(x[0] == lead[0]);
        assert(y[0] == lead[0]);
        assert(x.skip(1) =~= lead.skip(1) + seq![a] + u);
        assert(y.skip(1) =~= lead.skip(1) + seq![b] + v);
    }
}

/// Every transcript of every project is a candidate, with the directory of its project.
pub proof fn every_transcript_is_a_candidate(
    projects: Seq<ProjectTranscripts>,
    n: nat,
    p: int,
    f: int,
)
    requires
        0 <= p < n <= projects.len(),
        0 <= f < projects[p].files@.len(),
    ensures
        candidates_of(projects, n).contains(
            (projects[p].files@[f]@, maybe(projects[p].cwd)),
        ),
    decreases n,
{
    let wanted = (projects[p].files@[f]@, maybe(projects[p].cwd));
    let before = candidates_of(projects, (n - 1) as nat);
    let after = candidates_of(projects, n);
    if p == n - 1 {
        assert(after[before.len() + f] == wanted);
    } else {
        every_transcript_is_a_candidate(projects, (n - 1) as nat, p, f);
        let k = choose|k: int| 0 <= k < before.len() && before[k] == wanted;
        assert(after[k] == wanted);
    }
}

} // verus!
