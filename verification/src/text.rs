//! Text as sequences of characters: trimming, words, lines, decimal numbers and joining.
//!
//! Every function here is stated over the characters of its argument, so that the rest of the
//! library can say exactly which text it produces.

use vstd::prelude::*;
use vstd::string::StringExecFns;

verus! {

/// The characters with the Unicode property `White_Space`.
pub open spec fn space(c: char) -> bool {
    let code = c as u32;
    ||| 0x9 <= code <= 0xD
    ||| code == 0x20
    ||| code == 0x85
    ||| code == 0xA0
    ||| code == 0x1680
    ||| 0x2000 <= code <= 0x200A
    ||| code == 0x2028
    ||| code == 0x2029
    ||| code == 0x202F
    ||| code == 0x205F
    ||| code == 0x3000
}

/// The decimal digits of ASCII.
pub open spec fn digit(c: char) -> bool {
    '0' <= c <= '9'
}

/// Every character is a digit; so is every character of the empty text.
pub open spec fn all_digits(s: Seq<char>) -> bool {
    forall|i: int| 0 <= i < s.len() ==> digit(#[trigger] s[i])
}

/// The texts a list of strings holds.
pub open spec fn texts(list: Seq<String>) -> Seq<Seq<char>> {
    Seq::new(list.len(), |i: int| list[i]@)
}

/// The text an optional string holds.
pub open spec fn maybe(text: Option<String>) -> Option<Seq<char>> {
    match text {
        Some(text) => Some(text@),
        None => None,
    }
}

/// Without the white space it starts with.
pub open spec fn trimmed_start(s: Seq<char>) -> Seq<char>
    decreases s.len(),
{
    if s.len() > 0 && space(s[0]) {
        trimmed_start(s.skip(1))
    } else {
        s
    }
}

/// Without the white space it ends with.
pub open spec fn trimmed_end(s: Seq<char>) -> Seq<char>
    decreases s.len(),
{
    if s.len() > 0 && space(s.last()) {
        trimmed_end(s.drop_last())
    } else {
        s
    }
}

/// Without the white space at either end.
pub open spec fn trimmed(s: Seq<char>) -> Seq<char> {
    trimmed_end(trimmed_start(s))
}

/// The maximal runs of characters that are not white space, in order.
pub open spec fn words(s: Seq<char>) -> Seq<Seq<char>>
    decreases s.len(),
{
    if s.len() == 0 {
        Seq::empty()
    } else {
        let before = words(s.drop_last());
        if space(s.last()) {
            before
        } else if s.len() == 1 || space(s[s.len() - 2]) {
            before.push(seq![s.last()])
        } else {
            before.drop_last().push(before.last().push(s.last()))
        }
    }
}

/// The parts one after the other, with the separator between neighbours.
pub open spec fn joined(parts: Seq<Seq<char>>, separator: Seq<char>) -> Seq<char>
    decreases parts.len(),
{
    if parts.len() == 0 {
        Seq::empty()
    } else if parts.len() == 1 {
        parts[0]
    } else {
        joined(parts.drop_last(), separator) + separator + parts.last()
    }
}

/// The words with one space between neighbours: one line, trimmed.
pub open spec fn name_of(s: Seq<char>) -> Seq<char> {
    joined(words(s), " "@)
}

/// The lowercase of a text with characters beyond ASCII, as `str::to_lowercase` gives it.
pub uninterp spec fn lowercase_beyond_ascii(s: Seq<char>) -> Seq<char>;

/// All characters are ASCII.
pub open spec fn all_ascii(s: Seq<char>) -> bool {
    forall|i: int| 0 <= i < s.len() ==> (#[trigger] s[i] as u32) < 128
}

/// The lowercase of an ASCII character.
pub open spec fn small(c: char) -> char {
    if 'A' <= c <= 'Z' {
        (c as u32 + 32) as char
    } else {
        c
    }
}

/// The lowercase of an ASCII text.
pub open spec fn all_small(s: Seq<char>) -> Seq<char> {
    Seq::new(s.len(), |i: int| small(s[i]))
}

/// The lowercase of a text.
pub open spec fn lowercase(s: Seq<char>) -> Seq<char> {
    if all_ascii(s) {
        all_small(s)
    } else {
        lowercase_beyond_ascii(s)
    }
}

/// A text as it is matched: its name, in lowercase.
pub open spec fn folded(s: Seq<char>) -> Seq<char> {
    lowercase(name_of(s))
}

/// The index of the first newline, or the length where there is none.
pub open spec fn newline_at(s: Seq<char>) -> int
    decreases s.len(),
{
    if s.len() == 0 || s[0] == '\n' {
        0
    } else {
        1 + newline_at(s.skip(1))
    }
}

/// Without one carriage return at the end.
pub open spec fn uncarriaged(s: Seq<char>) -> Seq<char> {
    if s.len() > 0 && s.last() == '\r' {
        s.drop_last()
    } else {
        s
    }
}

/// The lines of a text: each ends at a newline, which may follow a carriage return; what comes
/// after the last newline is a line when it is not empty.
pub open spec fn lines_of(s: Seq<char>) -> Seq<Seq<char>>
    decreases s.len(),
{
    if s.len() == 0 {
        Seq::empty()
    } else {
        let end = newline_at(s);
        if 0 <= end < s.len() {
            seq![uncarriaged(s.take(end))] + lines_of(s.skip(end + 1))
        } else {
            seq![s]
        }
    }
}

/// The digit that stands for a number below ten.
pub open spec fn digit_of(n: int) -> char {
    (48 + n) as char
}

/// A number in decimal, without leading zeros.
pub open spec fn decimal_of(n: nat) -> Seq<char>
    decreases n,
{
    if n < 10 {
        seq![digit_of(n as int)]
    } else {
        decimal_of(n / 10).push(digit_of((n % 10) as int))
    }
}

/// The number that a run of digits writes.
pub open spec fn digits_value(s: Seq<char>) -> nat
    decreases s.len(),
{
    if s.len() == 0 {
        0
    } else {
        digits_value(s.drop_last()) * 10 + ((s.last() as int - 48) as nat)
    }
}

/// The digits of a number that may carry a plus sign.
pub open spec fn unsigned(s: Seq<char>) -> Seq<char> {
    if s.len() > 0 && s[0] == '+' {
        s.skip(1)
    } else {
        s
    }
}

/// The number below 2^64 that a text writes: at least one digit, after a plus sign or nothing.
pub open spec fn number_of(s: Seq<char>) -> Option<u64> {
    let digits = unsigned(s);
    if digits.len() > 0 && all_digits(digits) && digits_value(digits) <= u64::MAX {
        Some(digits_value(digits) as u64)
    } else {
        None
    }
}

/// The number of bytes a character takes in UTF-8.
pub open spec fn char_bytes(c: char) -> nat {
    let code = c as u32;
    if code < 0x80 {
        1
    } else if code < 0x800 {
        2
    } else if code < 0x10000 {
        3
    } else {
        4
    }
}

/// The number of bytes a text takes in UTF-8.
pub open spec fn bytes_of(s: Seq<char>) -> nat
    decreases s.len(),
{
    if s.len() == 0 {
        0
    } else {
        bytes_of(s.drop_last()) + char_bytes(s.last())
    }
}

/// `String::push` puts one character at the end.
pub assume_specification[ String::push ](text: &mut String, c: char)
    ensures
        final(text)@ == old(text)@.push(c),
;

/// `==` on `str` says whether the two hold the same characters.
pub assume_specification[ <str as PartialEq>::eq ](a: &str, b: &str) -> (equal: bool)
    ensures
        equal == (a@ == b@),
;

/// `str::to_lowercase` gives the lowercase of a text, which depends on that text alone. Of an ASCII
/// text it is the text with `a` to `z` in place of `A` to `Z`.
pub assume_specification[ str::to_lowercase ](text: &str) -> (lower: String)
    ensures
        lower@ == if all_ascii(text@) {
            all_small(text@)
        } else {
            lowercase_beyond_ascii(text@)
        },
;

/// Whether two texts are equal.
pub fn same(a: &str, b: &str) -> (r: bool)
    ensures
        r == (a@ == b@),
{
    a.eq(b)
}

/// Whether two optional texts are equal.
pub fn same_maybe(a: &Option<String>, b: &Option<String>) -> (r: bool)
    ensures
        r == (maybe(*a) == maybe(*b)),
{
    match (a, b) {
        (Some(a), Some(b)) => same(a.as_str(), b.as_str()),
        (None, None) => true,
        _ => false,
    }
}

/// Whether a character is white space.
pub fn is_space(c: char) -> (r: bool)
    ensures
        r == space(c),
{
    let code: u32 = c as u32;
    (0x9 <= code && code <= 0xD) || code == 0x20 || code == 0x85 || code == 0xA0 || code == 0x1680
        || (0x2000 <= code && code <= 0x200A) || code == 0x2028 || code == 0x2029 || code == 0x202F
        || code == 0x205F || code == 0x3000
}

/// The characters of a text.
pub fn chars_of(text: &str) -> (chars: Vec<char>)
    ensures
        chars@ == text@,
{
    let mut chars: Vec<char> = Vec::new();
    for c in iter: text.chars()
        invariant
            chars@ == iter.seq().take(iter.index()),
            iter.seq() == text@,
    {
        chars.push(c);
    }
    assert(text@.take(text@.len() as int) == text@);
    chars
}

/// The text that the characters from `from` up to `to` make.
pub fn text_of(chars: &Vec<char>, from: usize, to: usize) -> (text: String)
    requires
        from <= to <= chars@.len(),
    ensures
        text@ == chars@.subrange(from as int, to as int),
{
    let mut text = String::new();
    let mut i: usize = from;
    while i < to
        invariant
            from <= i <= to <= chars@.len(),
            text@ == chars@.subrange(from as int, i as int),
        decreases to - i,
    {
        text.push(chars[i]);
        i += 1;
        assert(chars@.subrange(from as int, i as int) == chars@.subrange(from as int, i - 1).push(
            chars@[i - 1],
        ));
    }
    text
}

/// Whether a text has digits only.
pub fn is_all_digits(text: &str) -> (r: bool)
    ensures
        r == all_digits(text@),
{
    let chars = chars_of(text);
    let mut i: usize = 0;
    while i < chars.len()
        invariant
            i <= chars@.len(),
            chars@ == text@,
            forall|j: int| 0 <= j < i ==> digit(#[trigger] chars@[j]),
        decreases chars@.len() - i,
    {
        let c = chars[i];
        if c < '0' || c > '9' {
            return false;
        }
        i += 1;
    }
    true
}

/// What is left of a text starts with a character that is not white space.
proof fn trimmed_start_begins(s: Seq<char>)
    ensures
        trimmed_start(s).len() > 0 ==> !space(trimmed_start(s)[0]),
    decreases s.len(),
{
    if s.len() > 0 && space(s[0]) {
        trimmed_start_begins(s.skip(1));
    }
}

/// What is left of a text is its beginning, and ends with a character that is not white space.
proof fn trimmed_end_ends(s: Seq<char>)
    ensures
        trimmed_end(s).is_prefix_of(s),
        trimmed_end(s).len() > 0 ==> !space(trimmed_end(s).last()),
    decreases s.len(),
{
    if s.len() > 0 && space(s.last()) {
        trimmed_end_ends(s.drop_last());
    }
}

/// A text that neither starts nor ends with white space is left as it is.
pub proof fn trimmed_whole(s: Seq<char>)
    requires
        s.len() > 0 ==> !space(s[0]) && !space(s.last()),
    ensures
        trimmed(s) == s,
{
}

/// Trimming twice is trimming once.
pub proof fn trimmed_twice(s: Seq<char>)
    ensures
        trimmed(trimmed(s)) == trimmed(s),
{
    let u = trimmed_start(s);
    trimmed_start_begins(s);
    trimmed_end_ends(u);
    if trimmed(s).len() > 0 {
        assert(trimmed(s)[0] == u[0]);
    }
    trimmed_whole(trimmed(s));
}

/// A text without the white space at its end.
pub fn trim_end(text: &str) -> (r: String)
    ensures
        r@ == trimmed_end(text@),
{
    let chars = chars_of(text);
    let mut end: usize = chars.len();
    assert(chars@.take(end as int) == text@);
    while end > 0 && is_space(chars[end - 1])
        invariant
            end <= chars@.len(),
            chars@ == text@,
            trimmed_end(text@) == trimmed_end(chars@.take(end as int)),
        decreases end,
    {
        assert(chars@.take(end as int).drop_last() == chars@.take(end - 1));
        end -= 1;
    }
    let r = text_of(&chars, 0, end);
    assert(r@ == chars@.take(end as int));
    r
}

/// A text without the white space at either end.
pub fn trim(text: &str) -> (r: String)
    ensures
        r@ == trimmed(text@),
{
    let chars = chars_of(text);
    let mut start: usize = 0;
    assert(chars@.skip(0) == text@);
    while start < chars.len() && is_space(chars[start])
        invariant
            start <= chars@.len(),
            chars@ == text@,
            trimmed_start(text@) == trimmed_start(chars@.skip(start as int)),
        decreases chars@.len() - start,
    {
        assert(chars@.skip(start as int).skip(1) == chars@.skip(start + 1));
        start += 1;
    }
    let rest = text_of(&chars, start, chars.len());
    assert(rest@ == chars@.skip(start as int));
    trim_end(rest.as_str())
}

/// The words keep what a name needs: extending the last one extends the name.
proof fn joined_extend(parts: Seq<Seq<char>>, separator: Seq<char>, c: char)
    requires
        parts.len() > 0,
    ensures
        joined(parts.drop_last().push(parts.last().push(c)), separator) == joined(
            parts,
            separator,
        ).push(c),
{
    let next = parts.drop_last().push(parts.last().push(c));
    assert(next.drop_last() == parts.drop_last());
    if parts.len() > 1 {
        assert((joined(parts.drop_last(), separator) + separator) + parts.last().push(c) == (joined(
            parts.drop_last(),
            separator,
        ) + separator + parts.last()).push(c));
    }
}

/// There are words once a character is not white space.
proof fn words_present(s: Seq<char>)
    requires
        s.len() > 0,
        !space(s.last()),
    ensures
        words(s).len() > 0,
{
}

/// A name as it is stored and matched: one line, trimmed.
pub fn name(raw: &str) -> (r: String)
    ensures
        r@ == name_of(raw@),
{
    let chars = chars_of(raw);
    let mut out = String::new();
    let mut any: bool = false;
    let mut i: usize = 0;
    while i < chars.len()
        invariant
            i <= chars@.len(),
            chars@ == raw@,
            out@ == name_of(chars@.take(i as int)),
            any == (words(chars@.take(i as int)).len() > 0),
        decreases chars@.len() - i,
    {
        let c = chars[i];
        proof {
            let now = chars@.take(i + 1);
            assert(now.drop_last() == chars@.take(i as int));
            assert(now.last() == c);
        }
        if !is_space(c) {
            if i == 0 || is_space(chars[i - 1]) {
                proof {
                    let before = words(chars@.take(i as int));
                    assert(before.push(seq![c]).drop_last() == before);
                    if before.len() > 0 {
                        assert(joined(before, " "@) + " "@ + seq![c] == (joined(before, " "@)
                            + " "@).push(c));
                    } else {
                        assert(seq![c] == Seq::<char>::empty().push(c));
                    }
                }
                if any {
                    out.append(" ");
                }
                out.push(c);
            } else {
                proof {
                    words_present(chars@.take(i as int));
                    joined_extend(words(chars@.take(i as int)), " "@, c);
                }
                out.push(c);
            }
            any = true;
        }
        i += 1;
    }
    assert(chars@.take(chars@.len() as int) == raw@);
    out
}

/// A name in the form in which names are compared.
pub fn fold(raw: &str) -> (r: String)
    ensures
        r@ == folded(raw@),
{
    let plain = name(raw);
    plain.as_str().to_lowercase()
}

/// The parts one after the other, with the separator between neighbours.
pub fn join(parts: &Vec<String>, separator: &str) -> (r: String)
    ensures
        r@ == joined(texts(parts@), separator@),
{
    let mut out = String::new();
    let mut i: usize = 0;
    while i < parts.len()
        invariant
            i <= parts@.len(),
            out@ == joined(texts(parts@).take(i as int), separator@),
        decreases parts@.len() - i,
    {
        assert(texts(parts@).take(i + 1).drop_last() == texts(parts@).take(i as int));
        if i > 0 {
            out.append(separator);
        }
        out.append(parts[i].as_str());
        assert(Seq::<char>::empty() + parts@[i as int]@ == parts@[i as int]@);
        i += 1;
    }
    assert(texts(parts@).take(parts@.len() as int) == texts(parts@));
    out
}

/// Whether a list holds a text.
pub fn holds(list: &Vec<String>, wanted: &str) -> (r: bool)
    ensures
        r == texts(list@).contains(wanted@),
{
    let mut i: usize = 0;
    while i < list.len()
        invariant
            i <= list@.len(),
            forall|j: int| 0 <= j < i ==> list@[j]@ != wanted@,
        decreases list@.len() - i,
    {
        if same(list[i].as_str(), wanted) {
            assert(texts(list@)[i as int] == wanted@);
            return true;
        }
        i += 1;
    }
    false
}

/// A list with the same texts.
pub fn copy_texts(list: &Vec<String>) -> (r: Vec<String>)
    ensures
        texts(r@) == texts(list@),
        r@.len() == list@.len(),
{
    let mut out: Vec<String> = Vec::new();
    let mut i: usize = 0;
    while i < list.len()
        invariant
            i <= list@.len(),
            out@.len() == i,
            forall|j: int| 0 <= j < i ==> (#[trigger] out@[j])@ == list@[j]@,
        decreases list@.len() - i,
    {
        out.push(list[i].clone());
        i += 1;
    }
    assert(texts(out@) =~= texts(list@));
    out
}

/// An optional text with the same content.
pub fn copy_maybe(text: &Option<String>) -> (r: Option<String>)
    ensures
        maybe(r) == maybe(*text),
{
    match text {
        Some(text) => Some(text.clone()),
        None => None,
    }
}

/// What follows a line break starts the remaining lines.
proof fn newline_found(s: Seq<char>, k: int)
    requires
        0 <= k <= s.len(),
        forall|j: int| 0 <= j < k ==> s[j] != '\n',
        k == s.len() || s[k] == '\n',
    ensures
        newline_at(s) == k,
    decreases s.len(),
{
    if k > 0 {
        assert forall|j: int| 0 <= j < k - 1 implies s.skip(1)[j] != '\n' by {
            assert(s.skip(1)[j] == s[j + 1]);
        }
        newline_found(s.skip(1), k - 1);
    }
}

/// The lines of a text.
pub fn lines(text: &str) -> (r: Vec<String>)
    ensures
        texts(r@) == lines_of(text@),
{
    let chars = chars_of(text);
    let mut out: Vec<String> = Vec::new();
    let mut start: usize = 0;
    let mut i: usize = 0;
    assert(chars@.skip(0) == text@);
    assert(texts(out@) + lines_of(text@) == lines_of(text@));
    while i < chars.len()
        invariant
            start <= i <= chars@.len(),
            chars@ == text@,
            forall|j: int| start <= j < i ==> chars@[j] != '\n',
            texts(out@) + lines_of(chars@.skip(start as int)) == lines_of(text@),
        decreases chars@.len() - i,
    {
        if chars[i] == '\n' {
            let ghost rest = chars@.skip(start as int);
            let end: usize = if i > start && chars[i - 1] == '\r' {
                i - 1
            } else {
                i
            };
            let line = text_of(&chars, start, end);
            proof {
                newline_found(rest, i - start);
                assert(rest.take(i - start) == chars@.subrange(start as int, i as int));
                assert(uncarriaged(rest.take(i - start)) == line@);
                assert(rest.skip(i - start + 1) == chars@.skip(i + 1));
                assert(texts(out@.push(line)) == texts(out@) + seq![line@]);
                assert(texts(out@) + (seq![line@] + lines_of(chars@.skip(i + 1))) == (texts(out@)
                    + seq![line@]) + lines_of(chars@.skip(i + 1)));
            }
            out.push(line);
            start = i + 1;
        }
        i += 1;
    }
    let ghost rest = chars@.skip(start as int);
    if start < chars.len() {
        let line = text_of(&chars, start, chars.len());
        proof {
            newline_found(rest, rest.len() as int);
            assert(line@ == rest);
            assert(texts(out@.push(line)) == texts(out@) + seq![line@]);
        }
        out.push(line);
    } else {
        assert(texts(out@) + Seq::<Seq<char>>::empty() == texts(out@));
    }
    out
}

/// A number in decimal.
pub fn decimal(n: u64) -> (r: String)
    ensures
        r@ == decimal_of(n as nat),
    decreases n,
{
    if n < 10 {
        let mut out = String::new();
        out.push((48u8 + n as u8) as char);
        assert(out@ == decimal_of(n as nat));
        out
    } else {
        let mut out = decimal(n / 10);
        out.push((48u8 + (n % 10) as u8) as char);
        out
    }
}

/// A number up to 2^128 in decimal.
pub fn wide_decimal(n: u128) -> (r: String)
    ensures
        r@ == decimal_of(n as nat),
    decreases n,
{
    if n < 10 {
        let mut out = String::new();
        out.push((48u8 + n as u8) as char);
        assert(out@ == decimal_of(n as nat));
        out
    } else {
        let mut out = wide_decimal(n / 10);
        out.push((48u8 + (n % 10) as u8) as char);
        out
    }
}

/// The number that a text writes, where it writes one below 2^64.
pub fn parse_number(text: &str) -> (r: Option<u64>)
    ensures
        r == number_of(text@),
{
    let chars = chars_of(text);
    let start: usize = if chars.len() > 0 && chars[0] == '+' {
        1
    } else {
        0
    };
    let ghost digits = unsigned(text@);
    assert(digits == chars@.skip(start as int));
    if start == chars.len() {
        return None;
    }
    let mut value: u64 = 0;
    let mut i: usize = start;
    while i < chars.len()
        invariant
            start <= i <= chars@.len(),
            digits == chars@.skip(start as int),
            digits == unsigned(text@),
            all_digits(digits.take(i - start)),
            value == digits_value(digits.take(i - start)),
        decreases chars@.len() - i,
    {
        let c = chars[i];
        if c < '0' || c > '9' {
            assert(!digit(digits[i - start]));
            return None;
        }
        proof {
            assert(digits.take(i - start + 1).drop_last() == digits.take(i - start));
            digits_value_grows(digits, i - start + 1);
        }
        let low: u64 = (c as u32 - 48) as u64;
        if value > (u64::MAX - low) / 10 {
            assert(digits_value(digits.take(i - start + 1)) > u64::MAX);
            return None;
        }
        value = value * 10 + low;
        i += 1;
    }
    assert(digits.take(digits.len() as int) == digits);
    Some(value)
}

/// More digits write a number at least as large.
proof fn digits_value_grows(s: Seq<char>, n: int)
    requires
        0 <= n <= s.len(),
    ensures
        digits_value(s.take(n)) <= digits_value(s),
    decreases s.len() - n,
{
    if n == s.len() {
        assert(s.take(n) == s);
    } else {
        digits_value_grows(s, n + 1);
        assert(s.take(n + 1).drop_last() == s.take(n));
    }
}

/// Writing a number and reading it back gives the number, for every number below 2^64.
pub proof fn number_round_trip(n: u64)
    ensures
        number_of(decimal_of(n as nat)) == Some(n),
{
    decimal_digits(n as nat);
    let s = decimal_of(n as nat);
    assert(digit(s[0]));
}

/// A number in decimal is a nonempty run of digits that writes the number.
pub proof fn decimal_digits(n: nat)
    ensures
        decimal_of(n).len() > 0,
        all_digits(decimal_of(n)),
        digits_value(decimal_of(n)) == n,
    decreases n,
{
    reveal_with_fuel(digits_value, 2);
    if n >= 10 {
        decimal_digits(n / 10);
        let s = decimal_of(n);
        assert(s.drop_last() == decimal_of(n / 10));
    } else {
        assert(decimal_of(n).drop_last() == Seq::<char>::empty());
    }
}

/// Two numbers with the same decimal are the same.
pub proof fn decimal_injective(a: nat, b: nat)
    requires
        decimal_of(a) == decimal_of(b),
    ensures
        a == b,
{
    decimal_digits(a);
    decimal_digits(b);
}

/// The bytes of two texts one after the other.
pub proof fn bytes_concat(a: Seq<char>, b: Seq<char>)
    ensures
        bytes_of(a + b) == bytes_of(a) + bytes_of(b),
    decreases b.len(),
{
    if b.len() == 0 {
        assert(a + b == a);
    } else {
        assert((a + b).drop_last() == a + b.drop_last());
        bytes_concat(a, b.drop_last());
    }
}

/// UTF-8 writes a character in as many bytes as it takes.
proof fn char_encoded(c: char)
    ensures
        vstd::utf8::encode_scalar(c as u32).len() == char_bytes(c),
{
}

/// UTF-8 writes a text in as many bytes as its characters take.
pub proof fn bytes_encoded(s: Seq<char>)
    ensures
        vstd::utf8::encode_utf8(s).len() == bytes_of(s),
    decreases s.len(),
{
    if s.len() > 0 {
        bytes_encoded(s.skip(1));
        assert(s == seq![s[0]] + s.skip(1));
        bytes_concat(seq![s[0]], s.skip(1));
        reveal_with_fuel(bytes_of, 2);
        assert(seq![s[0]].drop_last() == Seq::<char>::empty());
        assert(bytes_of(seq![s[0]]) == char_bytes(s[0]));
        char_encoded(s[0]);
        assert(s.drop_first() == s.skip(1));
    }
}

/// The number of bytes of a text.
pub fn byte_count(text: &str) -> (n: usize)
    ensures
        n == bytes_of(text@),
{
    proof {
        bytes_encoded(text@);
    }
    text.as_bytes().len()
}

/// The parts of a text between the occurrences of a character.
pub open spec fn split_on(s: Seq<char>, c: char) -> Seq<Seq<char>>
    decreases s.len(),
{
    if s.len() == 0 {
        seq![Seq::empty()]
    } else {
        let before = split_on(s.drop_last(), c);
        if s.last() == c {
            before.push(Seq::empty())
        } else {
            before.drop_last().push(before.last().push(s.last()))
        }
    }
}

/// The parts of a text between the occurrences of a character.
pub fn split(text: &str, c: char) -> (parts: Vec<String>)
    ensures
        texts(parts@) == split_on(text@, c),
        parts@.len() > 0,
{
    let chars = chars_of(text);
    let mut parts: Vec<String> = Vec::new();
    let mut last = String::new();
    let mut i: usize = 0;
    proof {
        assert(text@.take(0) == Seq::<char>::empty());
        assert(texts(parts@).push(last@) =~= split_on(text@.take(0), c));
    }
    while i < chars.len()
        invariant
            i <= chars@.len(),
            chars@ == text@,
            texts(parts@).push(last@) == split_on(text@.take(i as int), c),
        decreases chars@.len() - i,
    {
        let d = chars[i];
        let ghost before = texts(parts@).push(last@);
        proof {
            assert(text@.take(i + 1).drop_last() == text@.take(i as int));
            assert(before.drop_last() == texts(parts@));
            assert(before.last() == last@);
        }
        if d == c {
            let ghost had = parts@;
            let done = last;
            last = String::new();
            assert(texts(had.push(done)) =~= before);
            parts.push(done);
        } else {
            last.push(d);
        }
        i += 1;
    }
    assert(text@.take(text@.len() as int) == text@);
    assert(texts(parts@.push(last)) =~= texts(parts@).push(last@));
    parts.push(last);
    parts
}

/// What follows a prefix, where the text starts with it.
pub open spec fn stripped(s: Seq<char>, prefix: Seq<char>) -> Option<Seq<char>> {
    if s.len() >= prefix.len() && s.take(prefix.len() as int) == prefix {
        Some(s.skip(prefix.len() as int))
    } else {
        None
    }
}

/// What follows a prefix, where the text starts with it.
pub fn strip(text: &str, prefix: &str) -> (r: Option<String>)
    ensures
        maybe(r) == stripped(text@, prefix@),
{
    let chars = chars_of(text);
    let lead = chars_of(prefix);
    if chars.len() < lead.len() {
        return None;
    }
    let mut i: usize = 0;
    while i < lead.len()
        invariant
            i <= lead@.len() <= chars@.len(),
            chars@ == text@,
            lead@ == prefix@,
            forall|j: int| 0 <= j < i ==> chars@[j] == lead@[j],
        decreases lead@.len() - i,
    {
        if chars[i] != lead[i] {
            assert(text@.take(prefix@.len() as int)[i as int] != prefix@[i as int]);
            return None;
        }
        i += 1;
    }
    assert(text@.take(prefix@.len() as int) == prefix@);
    let rest = text_of(&chars, lead.len(), chars.len());
    assert(rest@ == text@.skip(prefix@.len() as int));
    Some(rest)
}

} // verus!
