//! Complete task records, paged only at the model-visible output boundary.

use vstd::prelude::*;
use vstd::string::StringExecFns;

use crate::ledger::render::bytes_at_most;
use crate::ledger::render::decimal_twenty;
use crate::ledger::render::fitting;
use crate::text::all_ascii;
use crate::text::byte_count;
use crate::text::bytes_concat;
use crate::text::bytes_of;
use crate::text::char_bytes;
use crate::text::chars_of;
use crate::text::decimal;
use crate::text::decimal_digits;
use crate::text::decimal_of;
use crate::text::digit;
use crate::text::text_of;
use crate::text_laws::mentioned_after;
use crate::text_laws::mentioned_before;
use crate::text_laws::mentions;
use crate::text_laws::mentions_itself;
use crate::text_laws::stands_at;

verus! {

/// The largest page, in bytes: room is left for write feedback and the page navigation text
/// within the context budget.
pub const PAGE_BYTES: usize = 21_952;

/// The number of pages that records take: one at least.
pub open spec fn page_count(records: Seq<char>) -> nat {
    let full = (bytes_of(records) + PAGE_BYTES - 1) / PAGE_BYTES as int;
    if full < 1 {
        1
    } else {
        full as nat
    }
}

/// The character at which page `k` ends and the next one starts: the last that begins within the
/// bytes of the first `k` pages.
pub open spec fn page_end(records: Seq<char>, k: nat) -> int {
    fitting(records, k * PAGE_BYTES).len() as int
}

/// The content of a page, counted from one.
pub open spec fn page_content(records: Seq<char>, page: nat) -> Seq<char> {
    records.subrange(page_end(records, (page - 1) as nat), page_end(records, page))
}

/// What tells a reader of a page that there are more.
pub open spec fn page_notice(page: nat, pages: nat) -> Seq<char> {
    if page < pages {
        "\n\nRead every remaining page before working on these tasks. Call ledger with the same task IDs in `recall` and `page: "@
            + decimal_of(page + 1)
            + "`. Pages read the current records; restart at page 1 if those records change."@
    } else {
        Seq::empty()
    }
}

/// A page of records, or which pages there are.
pub open spec fn page_text(records: Seq<char>, page: nat) -> Seq<char> {
    let pages = page_count(records);
    if page == 0 || page > pages {
        "Task details have "@ + decimal_of(pages) + " pages; request a page from 1 to "@
            + decimal_of(pages) + "."@
    } else {
        "Task details page "@ + decimal_of(page) + "/"@ + decimal_of(pages) + ":\n\n"@
            + page_content(records, page) + page_notice(page, pages)
    }
}

/// A beginning of a text that fits is a beginning of it, and no longer one fits.
proof fn fitting_is(s: Seq<char>, limit: int, k: int)
    requires
        0 <= k <= s.len(),
        k == 0 || bytes_of(s.take(k)) <= limit,
        k == s.len() || bytes_of(s.take(k + 1)) > limit,
    ensures
        fitting(s, limit) == s.take(k),
    decreases s.len(),
{
    assert(s.take(s.len() as int) == s);
    if k < s.len() {
        bytes_grow(s, k + 1);
        assert(s.drop_last().take(k) == s.take(k));
        if k + 1 < s.len() {
            assert(s.drop_last().take(k + 1) == s.take(k + 1));
        }
        fitting_is(s.drop_last(), limit, k);
    }
}

/// A beginning takes no more bytes than the whole.
proof fn bytes_grow(s: Seq<char>, k: int)
    requires
        0 <= k <= s.len(),
    ensures
        bytes_of(s.take(k)) <= bytes_of(s),
{
    assert(s == s.take(k) + s.skip(k));
    bytes_concat(s.take(k), s.skip(k));
}

/// The longest beginning that fits is a beginning, takes at most the limit, and comes within three
/// bytes of it unless it is everything.
pub proof fn fitting_close(s: Seq<char>, limit: int)
    requires
        limit >= 0,
    ensures
        fitting(s, limit).len() <= s.len(),
        fitting(s, limit) == s.take(fitting(s, limit).len() as int),
        bytes_of(fitting(s, limit)) <= limit,
        fitting(s, limit).len() < s.len() ==> bytes_of(fitting(s, limit)) > limit - 4,
    decreases s.len(),
{
    if s.len() == 0 || bytes_of(s) <= limit {
        assert(s.take(s.len() as int) == s);
    } else {
        let head = s.drop_last();
        fitting_close(head, limit);
        assert(head.take(fitting(s, limit).len() as int) == s.take(
            fitting(s, limit).len() as int,
        ));
        if fitting(s, limit).len() == head.len() {
            assert(head.take(head.len() as int) == head);
        }
    }
}

/// A larger limit fits at least as much.
proof fn fitting_grows(s: Seq<char>, a: int, b: int)
    requires
        0 <= a <= b,
    ensures
        fitting(s, a).len() <= fitting(s, b).len(),
{
    fitting_close(s, a);
    fitting_close(s, b);
    let k = fitting(s, a).len() as int;
    let m = fitting(s, b).len() as int;
    if m < k {
        // The first character past the smaller beginning would still fit the larger limit.
        assert(s.take(k).take(m + 1) == s.take(m + 1));
        bytes_grow(s.take(k), m + 1);
        fitting_maximal(s, b, m + 1);
    }
}

/// No longer beginning than the longest that fits takes at most the limit.
proof fn fitting_maximal(s: Seq<char>, limit: int, k: int)
    requires
        limit >= 0,
        0 <= k <= s.len(),
        bytes_of(s.take(k)) <= limit,
    ensures
        k <= fitting(s, limit).len(),
    decreases s.len(),
{
    assert(s.take(s.len() as int) == s);
    if s.len() > 0 && bytes_of(s) > limit {
        assert(s.drop_last().take(k) == s.take(k));
        fitting_maximal(s.drop_last(), limit, k);
    }
}

/// The first page starts at the start.
proof fn first_page_starts(records: Seq<char>)
    ensures
        page_end(records, 0) == 0,
{
    fitting_close(records, 0);
    let k = fitting(records, 0).len() as int;
    if k > 0 {
        assert(records.take(k).drop_last() == records.take(k - 1));
    }
}

/// The last page ends at the end.
proof fn last_page_ends(records: Seq<char>)
    ensures
        page_end(records, page_count(records)) == records.len(),
{
    let n = bytes_of(records) as int;
    let pages = page_count(records) as int;
    assert(n <= pages * PAGE_BYTES) by {
        let full = (n + PAGE_BYTES - 1) / PAGE_BYTES as int;
        assert(full * PAGE_BYTES >= n) by (nonlinear_arith)
            requires
                full == (n + 21_952 - 1) / 21_952,
                PAGE_BYTES == 21_952,
        ;
        assert(pages * PAGE_BYTES >= full * PAGE_BYTES) by (nonlinear_arith)
            requires
                pages >= full,
        ;
    }
}

/// The contents of the first `n` pages, one after the other.
pub open spec fn pages_joined(records: Seq<char>, n: nat) -> Seq<char>
    decreases n,
{
    if n == 0 {
        Seq::empty()
    } else {
        pages_joined(records, (n - 1) as nat) + page_content(records, n)
    }
}

proof fn pages_join(records: Seq<char>, n: nat)
    ensures
        0 <= page_end(records, n) <= records.len(),
        pages_joined(records, n) == records.take(page_end(records, n)),
    decreases n,
{
    fitting_close(records, n * PAGE_BYTES);
    if n == 0 {
        first_page_starts(records);
    } else {
        let before = (n - 1) as nat;
        pages_join(records, before);
        assert(0 <= before * PAGE_BYTES <= n * PAGE_BYTES) by (nonlinear_arith)
            requires
                before == n - 1,
        ;
        fitting_grows(records, before * PAGE_BYTES, n * PAGE_BYTES);
        let a = page_end(records, before);
        let b = page_end(records, n);
        assert(records.take(a) + records.subrange(a, b) == records.take(b));
    }
}

/// Reading every page gives every character of the records, in order and once.
pub proof fn pages_complete(records: Seq<char>)
    ensures
        pages_joined(records, page_count(records)) == records,
{
    pages_join(records, page_count(records));
    last_page_ends(records);
    assert(records.take(records.len() as int) == records);
}

/// A page never takes more than the context budget, whatever the records hold.
pub proof fn page_bounded(records: Seq<char>, page: nat)
    requires
        page_count(records) < u64::MAX,
    ensures
        bytes_of(page_text(records, page)) <= 24_000,
{
    let pages = page_count(records);
    decimal_twenty(pages);
    reveal_strlit("Task details have ");
    reveal_strlit(" pages; request a page from 1 to ");
    reveal_strlit(".");
    reveal_strlit("Task details page ");
    reveal_strlit("/");
    reveal_strlit(":\n\n");
    reveal_strlit(
        "\n\nRead every remaining page before working on these tasks. Call ledger with the same task IDs in `recall` and `page: ",
    );
    reveal_strlit(
        "`. Pages read the current records; restart at page 1 if those records change.",
    );
    if page == 0 || page > pages {
        bytes_at_most(page_text(records, page));
    } else {
        decimal_twenty(page);
        decimal_twenty(page + 1);
        let head = "Task details page "@ + decimal_of(page) + "/"@ + decimal_of(pages)
            + ":\n\n"@;
        let content = page_content(records, page);
        let tail = page_notice(page, pages);
        bytes_at_most(head);
        bytes_at_most(tail);
        assert(tail.len() <= 300);
        assert(head.len() <= 100);
        content_bounded(records, page);
        bytes_concat(head, content);
        bytes_concat(head + content, tail);
    }
}

/// An ASCII text takes one byte for each character.
pub proof fn ascii_bytes(s: Seq<char>)
    requires
        all_ascii(s),
    ensures
        bytes_of(s) == s.len(),
    decreases s.len(),
{
    if s.len() > 0 {
        assert forall|i: int| 0 <= i < s.drop_last().len() implies (#[trigger] s.drop_last()[i]
            as u32) < 128 by {
            assert(s.drop_last()[i] == s[i]);
        }
        assert((s[s.len() - 1] as u32) < 128);
        ascii_bytes(s.drop_last());
    }
}

/// A number below 2^64 takes at most twenty bytes.
proof fn decimal_bytes(n: nat)
    requires
        n <= u64::MAX,
    ensures
        bytes_of(decimal_of(n)) <= 20,
{
    decimal_twenty(n);
    decimal_digits(n);
    let s = decimal_of(n);
    assert forall|i: int| 0 <= i < s.len() implies (#[trigger] s[i] as u32) < 128 by {
        assert(digit(s[i]));
    }
    ascii_bytes(s);
}

/// The first page leaves room within the context budget, whatever the records hold.
pub proof fn first_page_leaves_room(records: Seq<char>)
    requires
        page_count(records) < u64::MAX,
    ensures
        bytes_of(page_text(records, 1)) <= 22_300,
{
    let pages = page_count(records);
    reveal_strlit("Task details page ");
    reveal_strlit("/");
    reveal_strlit(":\n\n");
    reveal_strlit(
        "\n\nRead every remaining page before working on these tasks. Call ledger with the same task IDs in `recall` and `page: ",
    );
    reveal_strlit(
        "`. Pages read the current records; restart at page 1 if those records change.",
    );
    let a = "Task details page "@;
    let b = decimal_of(1);
    let c = "/"@;
    let d = decimal_of(pages);
    let e = ":\n\n"@;
    let content = page_content(records, 1);
    let f =
        "\n\nRead every remaining page before working on these tasks. Call ledger with the same task IDs in `recall` and `page: "@;
    let g = decimal_of(2);
    let h = "`. Pages read the current records; restart at page 1 if those records change."@;
    ascii_bytes(a);
    ascii_bytes(c);
    ascii_bytes(e);
    ascii_bytes(f);
    ascii_bytes(h);
    decimal_bytes(1);
    decimal_bytes(2);
    decimal_bytes(pages);
    content_bounded(records, 1);
    bytes_concat(a, b);
    bytes_concat(a + b, c);
    bytes_concat(a + b + c, d);
    bytes_concat(a + b + c + d, e);
    bytes_concat(a + b + c + d + e, content);
    bytes_concat(a + b + c + d + e + content, page_notice(1, pages));
    bytes_concat(f, g);
    bytes_concat(f + g, h);
}

/// The content of a page takes at most three bytes more than a page.
proof fn content_bounded(records: Seq<char>, page: nat)
    requires
        page >= 1,
    ensures
        bytes_of(page_content(records, page)) <= PAGE_BYTES + 3,
{
    let before = (page - 1) as nat;
    let low = before * PAGE_BYTES;
    let high = page * PAGE_BYTES;
    assert(0 <= low && high == low + PAGE_BYTES) by (nonlinear_arith)
        requires
            before == page - 1,
            low == before * PAGE_BYTES,
            high == page * PAGE_BYTES,
    ;
    fitting_close(records, low as int);
    fitting_close(records, high as int);
    fitting_grows(records, low as int, high as int);
    let a = page_end(records, before);
    let b = page_end(records, page);
    assert(records.take(a) + records.subrange(a, b) == records.take(b));
    bytes_concat(records.take(a), records.subrange(a, b));
}

/// The number of characters of the longest beginning that takes at most this many bytes.
fn boundary(chars: &Vec<char>, limit: usize) -> (k: usize)
    ensures
        k == fitting(chars@, limit as int).len(),
        k <= chars@.len(),
{
    let mut k: usize = 0;
    let mut size: usize = 0;
    assert(chars@.take(0) == Seq::<char>::empty());
    while k < chars.len()
        invariant
            k <= chars@.len(),
            size == bytes_of(chars@.take(k as int)),
            size <= limit,
        decreases chars@.len() - k,
    {
        let c = chars[k];
        let code: u32 = c as u32;
        let step: usize = if code < 0x80 {
            1
        } else if code < 0x800 {
            2
        } else if code < 0x10000 {
            3
        } else {
            4
        };
        assert(chars@.take(k + 1).drop_last() == chars@.take(k as int));
        assert(step == char_bytes(c));
        if step > limit - size {
            proof {
                fitting_is(chars@, limit as int, k as int);
            }
            return k;
        }
        size += step;
        k += 1;
    }
    proof {
        fitting_is(chars@, limit as int, k as int);
    }
    k
}

/// The longest beginning of a text that takes at most this many bytes.
pub(crate) fn cut(text: &str, limit: usize) -> (r: String)
    ensures
        r@ == fitting(text@, limit as int),
{
    let chars = chars_of(text);
    let end: usize = boundary(&chars, limit);
    proof {
        fitting_close(text@, limit as int);
    }
    let r = text_of(&chars, 0, end);
    assert(r@ == text@.take(end as int));
    r
}

/// A page of records, or which pages there are.
pub fn render(records: &str, page: usize) -> (r: String)
    ensures
        r@ == page_text(records@, page as nat),
{
    let size: usize = byte_count(records);
    let chars = chars_of(records);
    let full: usize = size / PAGE_BYTES;
    let whole: usize = if size % PAGE_BYTES > 0 {
        full + 1
    } else {
        full
    };
    let pages: usize = if whole < 1 {
        1
    } else {
        whole
    };
    assert(pages == page_count(records@));
    if page == 0 || page > pages {
        let mut out = "Task details have ".to_string();
        out.append(decimal(pages as u64).as_str());
        out.append(" pages; request a page from 1 to ");
        out.append(decimal(pages as u64).as_str());
        out.append(".");
        return out;
    }
    proof {
        let p = page as int;
        let n = size as int;
        assert((p - 1) * PAGE_BYTES <= n) by (nonlinear_arith)
            requires
                1 <= p,
                p <= 1 || p <= (n + 21_952 - 1) / 21_952,
                n >= 0,
                PAGE_BYTES == 21_952,
        ;
        fitting_close(records@, (p - 1) * PAGE_BYTES);
        fitting_close(records@, p * PAGE_BYTES);
        fitting_grows(records@, (p - 1) * PAGE_BYTES, p * PAGE_BYTES);
        assert(p * PAGE_BYTES == (p - 1) * PAGE_BYTES + PAGE_BYTES) by (nonlinear_arith);
    }
    let offset: usize = (page - 1) * PAGE_BYTES;
    let start: usize = boundary(&chars, offset);
    let limit: usize = if size - offset < PAGE_BYTES {
        size
    } else {
        offset + PAGE_BYTES
    };
    proof {
        assert(chars@.take(chars@.len() as int) == chars@);
        if offset + PAGE_BYTES > size {
            fitting_is(records@, (page as int) * PAGE_BYTES, records@.len() as int);
            fitting_is(records@, size as int, records@.len() as int);
        }
    }
    let end: usize = boundary(&chars, limit);
    let content = text_of(&chars, start, end);
    let mut out = "Task details page ".to_string();
    out.append(decimal(page as u64).as_str());
    out.append("/");
    out.append(decimal(pages as u64).as_str());
    out.append(":\n\n");
    out.append(content.as_str());
    if page < pages {
        let mut notice =
            "\n\nRead every remaining page before working on these tasks. Call ledger with the same task IDs in `recall` and `page: ".to_string();
        notice.append(decimal((page + 1) as u64).as_str());
        notice.append(
            "`. Pages read the current records; restart at page 1 if those records change.",
        );
        out.append(notice.as_str());
    } else {
        assert(out@ + Seq::<char>::empty() == out@);
    }
    out
}

/// A page that is there tells its content and its number; each but the last asks for the next one by its
/// number, and the last asks for none. A page that is not there is answered with how many there are.
pub proof fn pages_lead_to_the_next(records: Seq<char>, page: nat)
    ensures
        1 <= page <= page_count(records) ==> mentions(
            page_text(records, page),
            page_content(records, page),
        ),
        1 <= page < page_count(records) ==> mentions(
            page_text(records, page),
            "`page: "@ + decimal_of(page + 1) + "`"@,
        ),
        page == page_count(records) ==> page_text(records, page) == "Task details page "@
            + decimal_of(page) + "/"@ + decimal_of(page) + ":\n\n"@ + page_content(records, page),
        page == 0 || page > page_count(records) ==> page_text(records, page)
            == "Task details have "@ + decimal_of(page_count(records))
            + " pages; request a page from 1 to "@ + decimal_of(page_count(records)) + "."@,
{
    let pages = page_count(records);
    let content = page_content(records, page);
    let lead = "Task details page "@ + decimal_of(page) + "/"@ + decimal_of(pages) + ":\n\n"@;
    let notice = page_notice(page, pages);
    if 1 <= page <= pages {
        mentions_itself(content);
        mentioned_after(lead, content, content);
        mentioned_before(lead + content, notice, content);
    }
    if 1 <= page < pages {
        let number = decimal_of(page + 1);
        let start =
            "\n\nRead every remaining page before working on these tasks. Call ledger with the same task IDs in `recall` and `page: "@;
        let end =
            "`. Pages read the current records; restart at page 1 if those records change."@;
        let a = "`page: "@;
        let z = "`"@;
        reveal_strlit(
            "\n\nRead every remaining page before working on these tasks. Call ledger with the same task IDs in `recall` and `page: ",
        );
        reveal_strlit(
            "`. Pages read the current records; restart at page 1 if those records change.",
        );
        reveal_strlit("`page: ");
        reveal_strlit("`");
        let part = a + number + z;
        let at = start.len() - a.len();
        assert(start.subrange(at, start.len() as int) =~= a);
        assert(end.subrange(0, 1) =~= z);
        page_is_named(start, number, end, a, z);
        mentioned_after(lead + content, notice, part);
    }
    if page == pages {
        assert(lead + content + Seq::<char>::empty() =~= lead + content);
    }
}

/// A number between two texts stands between the end of the one and the start of the other.
proof fn page_is_named(
    start: Seq<char>,
    number: Seq<char>,
    end: Seq<char>,
    a: Seq<char>,
    z: Seq<char>,
)
    requires
        a.len() <= start.len(),
        z.len() <= end.len(),
        start.subrange(start.len() - a.len(), start.len() as int) == a,
        end.subrange(0, z.len() as int) == z,
    ensures
        mentions(start + number + end, a + number + z),
{
    let whole = start + number + end;
    let part = a + number + z;
    let at = start.len() - a.len();
    assert forall|i: int| 0 <= i < part.len() implies whole[at + i] == #[trigger] part[i] by {
        if i < a.len() {
            assert(start.subrange(at, start.len() as int)[i] == start[at + i]);
        } else if i >= a.len() + number.len() {
            let k = i - a.len() - number.len();
            assert(end.subrange(0, z.len() as int)[k] == end[k]);
        }
    }
    assert(whole.subrange(at, at + part.len()) =~= part);
    assert(stands_at(whole, part, at));
}

} // verus!
