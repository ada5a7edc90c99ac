//! What texts hold of their parts.

use vstd::prelude::*;

use crate::text::all_ascii;
use crate::text::folded;
use crate::text::joined;
use crate::text::lines_of;
use crate::text::lowercase;
use crate::text::name_of;
use crate::text::newline_at;
use crate::text::space;
use crate::text::split_on;
use crate::text::trimmed;
use crate::text::trimmed_end;
use crate::text::trimmed_start;
use crate::text::words;

verus! {

/// The part stands somewhere in the text.
pub open spec fn mentions(text: Seq<char>, part: Seq<char>) -> bool {
    exists|i: int| stands_at(text, part, i)
}

/// The part stands in the text from a place on.
pub open spec fn stands_at(text: Seq<char>, part: Seq<char>, i: int) -> bool {
    0 <= i && i + part.len() <= text.len() && text.subrange(i, i + part.len()) == part
}

/// A text mentions itself.
pub proof fn mentions_itself(text: Seq<char>)
    ensures
        mentions(text, text),
{
    assert(text.subrange(0, text.len() as int) =~= text);
    assert(stands_at(text, text, 0));
}

/// What a part mentions, the text around it mentions.
pub proof fn mentioned_within(before: Seq<char>, text: Seq<char>, after: Seq<char>, part: Seq<char>)
    requires
        mentions(text, part),
    ensures
        mentions(before + text + after, part),
{
    let i = choose|i: int| stands_at(text, part, i);
    let whole = before + text + after;
    let at = before.len() + i;
    assert(whole.subrange(at, at + part.len()) =~= text.subrange(i, i + part.len()));
    assert(stands_at(whole, part, at));
}

/// What mentions a text mentions what that text mentions.
pub proof fn mentioned_by_way_of(whole: Seq<char>, text: Seq<char>, part: Seq<char>)
    requires
        mentions(whole, text),
        mentions(text, part),
    ensures
        mentions(whole, part),
{
    let i = choose|i: int| stands_at(whole, text, i);
    let j = choose|j: int| stands_at(text, part, j);
    assert(whole.subrange(i + j, i + j + part.len()) =~= text.subrange(j, j + part.len()));
    assert(stands_at(whole, part, i + j));
}

/// Joined parts mention each of the parts.
pub proof fn joined_mentions(parts: Seq<Seq<char>>, separator: Seq<char>, k: int)
    requires
        0 <= k < parts.len(),
    ensures
        mentions(joined(parts, separator), parts[k]),
    decreases parts.len(),
{
    mentions_itself(parts[k]);
    if parts.len() > 1 {
        let head = joined(parts.drop_last(), separator);
        let none = Seq::<char>::empty();
        if k == parts.len() - 1 {
            mentioned_within(head + separator, parts[k], none, parts[k]);
            assert(head + separator + parts[k] + none =~= joined(parts, separator));
        } else {
            joined_mentions(parts.drop_last(), separator, k);
            mentioned_within(none, head, separator + parts.last(), parts[k]);
            assert(none + head + (separator + parts.last()) =~= joined(parts, separator));
        }
    }
}

/// Trimming takes away white space at the two ends and nothing else: what is left starts and ends
/// with something visible, and what is gone is white space.
pub proof fn trimming_takes_outer_space(s: Seq<char>)
    ensures
        trimmed(s).len() > 0 ==> !space(trimmed(s)[0]) && !space(trimmed(s).last()),
        exists|i: int, j: int|
            0 <= i <= j <= s.len() && trimmed(s) == #[trigger] s.subrange(i, j) && (forall|k: int|
                0 <= k < i ==> space(#[trigger] s[k])) && (forall|k: int|
                j <= k < s.len() ==> space(#[trigger] s[k])),
{
    let u = trimmed_start(s);
    start_trimmed(s);
    let i = s.len() - u.len();
    end_trimmed(u);
    let t = trimmed_end(u);
    let j = i + t.len();
    assert(t =~= s.subrange(i, j)) by {
        assert(u == s.skip(i));
        assert(t == u.take(t.len() as int));
    }
    assert forall|k: int| j <= k < s.len() implies space(#[trigger] s[k]) by {
        assert(s[k] == u[k - i]);
    }
    if t.len() > 0 {
        assert(t[0] == u[0]);
    }
}

proof fn start_trimmed(s: Seq<char>)
    ensures
        trimmed_start(s).len() <= s.len(),
        trimmed_start(s) == s.skip(s.len() - trimmed_start(s).len()),
        forall|k: int| 0 <= k < s.len() - trimmed_start(s).len() ==> space(#[trigger] s[k]),
        trimmed_start(s).len() > 0 ==> !space(trimmed_start(s)[0]),
    decreases s.len(),
{
    if s.len() > 0 && space(s[0]) {
        start_trimmed(s.skip(1));
        let rest = trimmed_start(s.skip(1));
        assert(s.skip(1).skip(s.skip(1).len() - rest.len()) =~= s.skip(s.len() - rest.len()));
        assert forall|k: int| 0 <= k < s.len() - rest.len() implies space(#[trigger] s[k]) by {
            if k > 0 {
                assert(s[k] == s.skip(1)[k - 1]);
            }
        }
    } else {
        assert(s.skip(0) =~= s);
    }
}

proof fn end_trimmed(s: Seq<char>)
    ensures
        trimmed_end(s).len() <= s.len(),
        trimmed_end(s) == s.take(trimmed_end(s).len() as int),
        forall|k: int| trimmed_end(s).len() <= k < s.len() ==> space(#[trigger] s[k]),
        trimmed_end(s).len() > 0 ==> !space(trimmed_end(s).last()),
    decreases s.len(),
{
    if s.len() > 0 && space(s.last()) {
        let head = s.drop_last();
        end_trimmed(head);
        let t = trimmed_end(head);
        assert(head.take(t.len() as int) =~= s.take(t.len() as int));
        assert forall|k: int| t.len() <= k < s.len() implies space(#[trigger] s[k]) by {
            if k < head.len() {
                assert(s[k] == head[k]);
            }
        }
    } else {
        assert(s.take(s.len() as int) =~= s);
    }
}

/// What a text mentions, it mentions with anything after it.
pub proof fn mentioned_before(text: Seq<char>, after: Seq<char>, part: Seq<char>)
    requires
        mentions(text, part),
    ensures
        mentions(text + after, part),
{
    let none = Seq::<char>::empty();
    mentioned_within(none, text, after, part);
    assert(none + text + after =~= text + after);
}

/// What a text mentions, it mentions with anything before it.
pub proof fn mentioned_after(before: Seq<char>, text: Seq<char>, part: Seq<char>)
    requires
        mentions(text, part),
    ensures
        mentions(before + text, part),
{
    let none = Seq::<char>::empty();
    mentioned_within(before, text, none, part);
    assert(before + text + none =~= before + text);
}

/// Some line of the list mentions the part.
#[verifier::opaque]
pub open spec fn tells(list: Seq<Seq<char>>, part: Seq<char>) -> bool {
    exists|k: int| 0 <= k < list.len() && mentions(#[trigger] list[k], part)
}

/// A line tells what it mentions.
pub proof fn line_tells(line: Seq<char>, part: Seq<char>)
    requires
        mentions(line, part),
    ensures
        tells(seq![line], part),
{
    reveal(tells);
    assert(mentions(seq![line][0], part));
}

/// A line of a list tells what it mentions.
pub proof fn listed_line_tells(list: Seq<Seq<char>>, k: int, part: Seq<char>)
    requires
        0 <= k < list.len(),
        mentions(list[k], part),
    ensures
        tells(list, part),
{
    reveal(tells);
}

/// Lists one after the other tell what either tells.
pub proof fn both_tell(a: Seq<Seq<char>>, b: Seq<Seq<char>>, part: Seq<char>)
    requires
        tells(a, part) || tells(b, part),
    ensures
        tells(a + b, part),
{
    reveal(tells);
    let both = a + b;
    if tells(a, part) {
        let k = choose|k: int| 0 <= k < a.len() && mentions(#[trigger] a[k], part);
        assert(both[k] == a[k]);
    } else {
        let k = choose|k: int| 0 <= k < b.len() && mentions(#[trigger] b[k], part);
        assert(both[a.len() + k] == b[k]);
    }
}

/// What a list tells, its lines mention when they are joined.
pub proof fn joined_lines_tell(list: Seq<Seq<char>>, separator: Seq<char>, part: Seq<char>)
    requires
        tells(list, part),
    ensures
        mentions(joined(list, separator), part),
{
    reveal(tells);
    let k = choose|k: int| 0 <= k < list.len() && mentions(#[trigger] list[k], part);
    joined_mentions(list, separator, k);
    mentioned_by_way_of(joined(list, separator), list[k], part);
}

/// White space parts words: the words of two texts with white space between them are those of the one and
/// then those of the other.
pub proof fn spaces_part_words(u: Seq<char>, c: char, v: Seq<char>)
    requires
        space(c),
    ensures
        words(u + seq![c] + v) == words(u) + words(v),
    decreases v.len(),
{
    let whole = u + seq![c] + v;
    if v.len() == 0 {
        assert(whole =~= u.push(c));
        assert(u.push(c).drop_last() =~= u);
        assert(words(u) + words(v) =~= words(u));
    } else {
        let head = v.drop_last();
        let last = v.last();
        spaces_part_words(u, c, head);
        assert(whole.drop_last() =~= u + seq![c] + head);
        assert(whole.last() == last);
        if !space(last) {
            if v.len() == 1 {
                assert(whole[whole.len() - 2] == c);
                assert(words(head) =~= Seq::empty());
                assert(words(v) =~= seq![seq![last]]);
                assert(words(whole) =~= words(u) + words(v));
            } else {
                assert(whole[whole.len() - 2] == v[v.len() - 2]);
                if !space(v[v.len() - 2]) {
                    some_word(head);
                }
                assert(words(whole) =~= words(u) + words(v));
            }
        }
    }
}

/// A text that does not end in white space has a word.
proof fn some_word(s: Seq<char>)
    requires
        s.len() > 0,
        !space(s.last()),
    ensures
        words(s).len() > 0,
    decreases s.len(),
{
}

/// A text without white space is one word.
pub proof fn words_stay_whole(word: Seq<char>)
    requires
        word.len() > 0,
        forall|i: int| 0 <= i < word.len() ==> !space(#[trigger] word[i]),
    ensures
        words(word) == seq![word],
        name_of(word) == word,
    decreases word.len(),
{
    let head = word.drop_last();
    assert(!space(word[word.len() - 1]));
    if head.len() == 0 {
        assert(words(head) =~= Seq::empty());
        assert(words(word) =~= seq![seq![word.last()]]);
        assert(seq![word.last()] =~= word);
    } else {
        assert forall|i: int| 0 <= i < head.len() implies !space(#[trigger] head[i]) by {
            assert(word[i] == head[i]);
        }
        words_stay_whole(head);
        assert(!space(word[word.len() - 2]));
        assert(head.push(word.last()) =~= word);
        assert(words(word) =~= seq![word]);
    }
    reveal_with_fuel(joined, 2);
}

/// A character parts a text: the parts of two texts with it between them are those of the one and then
/// those of the other.
pub proof fn separators_part_texts(u: Seq<char>, c: char, v: Seq<char>)
    ensures
        split_on(v, c).len() > 0,
        split_on(u + seq![c] + v, c) == split_on(u, c) + split_on(v, c),
    decreases v.len(),
{
    let whole = u + seq![c] + v;
    if v.len() == 0 {
        assert(whole =~= u.push(c));
        assert(u.push(c).drop_last() =~= u);
        assert(split_on(whole, c) =~= split_on(u, c) + split_on(v, c));
    } else {
        let head = v.drop_last();
        separators_part_texts(u, c, head);
        assert(whole.drop_last() =~= u + seq![c] + head);
        assert(whole.last() == v.last());
        assert(split_on(whole, c) =~= split_on(u, c) + split_on(v, c));
    }
}

/// A text without the character is one part.
pub proof fn parts_stay_whole(part: Seq<char>, c: char)
    requires
        forall|i: int| 0 <= i < part.len() ==> #[trigger] part[i] != c,
    ensures
        split_on(part, c) == seq![part],
    decreases part.len(),
{
    if part.len() > 0 {
        let head = part.drop_last();
        assert(part[part.len() - 1] != c);
        assert forall|i: int| 0 <= i < head.len() implies #[trigger] head[i] != c by {
            assert(part[i] == head[i]);
        }
        parts_stay_whole(head, c);
        assert(head.push(part.last()) =~= part);
        assert(split_on(part, c) =~= seq![part]);
    } else {
        assert(part =~= Seq::<char>::empty());
    }
}

/// A newline ends a line, together with a carriage return in front of it; what follows the last newline
/// is a line where there is anything.
pub proof fn newlines_end_lines(line: Seq<char>, rest: Seq<char>)
    requires
        forall|i: int| 0 <= i < line.len() ==> #[trigger] line[i] != '\n',
    ensures
        line.len() > 0 ==> lines_of(line) == seq![line],
        lines_of(Seq::empty()).len() == 0,
        lines_of(line + seq!['\n'] + rest) == seq![
            if line.len() > 0 && line.last() == '\r' {
                line.drop_last()
            } else {
                line
            },
        ] + lines_of(rest),
{
    let whole = line + seq!['\n'] + rest;
    newline_comes_after(line, rest);
    newline_is_missing(line);
    assert(whole.take(line.len() as int) =~= line);
    assert(whole.skip(line.len() as int + 1) =~= rest);
}

proof fn newline_comes_after(line: Seq<char>, rest: Seq<char>)
    requires
        forall|i: int| 0 <= i < line.len() ==> #[trigger] line[i] != '\n',
    ensures
        newline_at(line + seq!['\n'] + rest) == line.len(),
    decreases line.len(),
{
    let whole = line + seq!['\n'] + rest;
    if line.len() > 0 {
        let tail = line.skip(1);
        assert(whole[0] == line[0]);
        assert forall|i: int| 0 <= i < tail.len() implies #[trigger] tail[i] != '\n' by {
            assert(tail[i] == line[i + 1]);
        }
        newline_comes_after(tail, rest);
        assert(whole.skip(1) =~= tail + seq!['\n'] + rest);
    } else {
        assert(whole[0] == '\n');
    }
}

proof fn newline_is_missing(line: Seq<char>)
    requires
        forall|i: int| 0 <= i < line.len() ==> #[trigger] line[i] != '\n',
    ensures
        newline_at(line) == line.len(),
    decreases line.len(),
{
    if line.len() > 0 {
        let tail = line.skip(1);
        assert(line[0] != '\n');
        assert forall|i: int| 0 <= i < tail.len() implies #[trigger] tail[i] != '\n' by {
            assert(tail[i] == line[i + 1]);
        }
        newline_is_missing(tail);
    }
}

/// Parts are joined with the separator between them, and nowhere else.
pub proof fn separators_stand_between(parts: Seq<Seq<char>>, last: Seq<char>, separator: Seq<char>)
    ensures
        joined(Seq::empty(), separator) == Seq::<char>::empty(),
        joined(seq![last], separator) == last,
        parts.len() > 0 ==> joined(parts.push(last), separator) == joined(parts, separator)
            + separator + last,
{
    reveal_with_fuel(joined, 2);
    assert(parts.push(last).drop_last() =~= parts);
    assert(seq![last].drop_last() =~= Seq::<Seq<char>>::empty());
}

/// Of ASCII texts, names go by their words, whatever the case of their letters: a capital is taken for its
/// small letter, and every other character for itself.
pub proof fn capitals_are_small_letters(s: Seq<char>, i: int)
    requires
        all_ascii(s),
    ensures
        lowercase(s).len() == s.len(),
        0 <= i < s.len() && 'A' <= s[i] <= 'Z' ==> lowercase(s)[i] as int == s[i] as int + 32,
        0 <= i < s.len() && !('A' <= s[i] <= 'Z') ==> lowercase(s)[i] == s[i],
        folded(s) == lowercase(name_of(s)),
{
}

} // verus!
