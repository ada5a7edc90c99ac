//! Minutes of Coordinated Universal Time, written out from Unix milliseconds.

use vstd::prelude::*;
use vstd::string::StringExecFns;

use crate::table::less;
use crate::table::less_behind;
use crate::table::less_extends;
use crate::table::less_irreflexive;
use crate::table::less_transitive;
use crate::text::all_digits;
use crate::text::decimal;
use crate::text::decimal_digits;
use crate::text::decimal_of;
use crate::text::digit;
use crate::text::digits_value;

verus! {

/// A day of the Gregorian calendar, which is taken to hold for every year.
pub struct Date {
    pub year: int,
    pub month: int,
    pub day: int,
}

/// The years with a 29th of February.
pub open spec fn leap(year: int) -> bool {
    year % 4 == 0 && (year % 100 != 0 || year % 400 == 0)
}

/// The number of leap years from year 1 up to `year`.
pub open spec fn leaps_through(year: int) -> int {
    year / 4 - year / 100 + year / 400
}

/// The number of days from the 1st of January 1970 to the 1st of January of a year.
pub open spec fn year_start(year: int) -> int {
    365 * (year - 1970) + leaps_through(year - 1) - leaps_through(1969)
}

/// The number of days of a month.
pub open spec fn month_days(year: int, month: int) -> int {
    if month == 2 {
        if leap(year) {
            29
        } else {
            28
        }
    } else if month == 4 || month == 6 || month == 9 || month == 11 {
        30
    } else {
        31
    }
}

/// The number of days of a year before a month.
pub open spec fn month_start(year: int, month: int) -> int
    decreases month,
{
    if month <= 1 {
        0
    } else {
        month_start(year, month - 1) + month_days(year, month - 1)
    }
}

/// A date of the calendar.
pub open spec fn valid(date: Date) -> bool {
    1 <= date.month <= 12 && 1 <= date.day <= month_days(date.year, date.month)
}

/// The number of days from the 1st of January 1970 to a date.
pub open spec fn day_number(date: Date) -> int {
    year_start(date.year) + month_start(date.year, date.month) + date.day - 1
}

/// A date that is this many days after the 1st of January 1970.
pub open spec fn falls_on(date: Date, days: int) -> bool {
    valid(date) && day_number(date) == days
}

/// The date that is this many days after the 1st of January 1970.
pub open spec fn date_of(days: int) -> Date {
    choose|date: Date| falls_on(date, days)
}

/// As many zeros as fill a text up to a width.
pub open spec fn filled(text: Seq<char>, width: int) -> Seq<char>
    decreases width - text.len(),
{
    if text.len() >= width {
        text
    } else {
        filled(seq!['0'] + text, width)
    }
}

/// A number in decimal, with zeros after the sign up to a width.
pub open spec fn padded(n: int, width: int) -> Seq<char> {
    if n < 0 {
        "-"@ + filled(decimal_of((-n) as nat), width - 1)
    } else {
        filled(decimal_of(n as nat), width)
    }
}

/// A moment, in milliseconds since the 1st of January 1970, to the minute.
pub open spec fn stamp_of(at: int) -> Seq<char> {
    let seconds = at / 1000;
    let date = date_of(seconds / 86_400);
    let second = seconds % 86_400;
    padded(date.year, 4) + "-"@ + padded(date.month, 2) + "-"@ + padded(date.day, 2) + " "@
        + padded(second / 3600, 2) + ":"@ + padded((second % 3600) / 60, 2) + " UTC"@
}

/// Each year starts 365 days after the one before it, or 366 after a leap year; 1970 starts at
/// zero.
pub proof fn year_start_steps(year: int)
    ensures
        year_start(year + 1) == year_start(year) + if leap(year) {
            366int
        } else {
            365int
        },
        year_start(1970) == 0,
{
    assert(year_start(year + 1) - year_start(year) == 365 + leaps_through(year) - leaps_through(
        year - 1,
    ));
    assert(year / 4 - (year - 1) / 4 == if year % 4 == 0 {
        1int
    } else {
        0int
    });
    assert(year / 100 - (year - 1) / 100 == if year % 100 == 0 {
        1int
    } else {
        0int
    });
    assert(year / 400 - (year - 1) / 400 == if year % 400 == 0 {
        1int
    } else {
        0int
    });
}

/// Later years start later.
proof fn year_start_grows(a: int, b: int)
    requires
        a <= b,
    ensures
        year_start(a) <= year_start(b),
    decreases b - a,
{
    if a < b {
        year_start_grows(a, b - 1);
        year_start_steps(b - 1);
    }
}

/// Where the months start.
proof fn month_starts(year: int)
    ensures
        month_start(year, 1) == 0,
        month_start(year, 2) == 31,
        month_start(year, 3) == 31 + month_days(year, 2),
        month_start(year, 4) == 62 + month_days(year, 2),
        month_start(year, 5) == 92 + month_days(year, 2),
        month_start(year, 6) == 123 + month_days(year, 2),
        month_start(year, 7) == 153 + month_days(year, 2),
        month_start(year, 8) == 184 + month_days(year, 2),
        month_start(year, 9) == 215 + month_days(year, 2),
        month_start(year, 10) == 245 + month_days(year, 2),
        month_start(year, 11) == 276 + month_days(year, 2),
        month_start(year, 12) == 306 + month_days(year, 2),
{
    reveal_with_fuel(month_start, 13);
}

/// No two dates have the same number.
pub proof fn date_unique(a: Date, b: Date, days: int)
    requires
        falls_on(a, days),
        falls_on(b, days),
    ensures
        a == b,
{
    month_starts(a.year);
    month_starts(b.year);
    year_start_steps(a.year);
    year_start_steps(b.year);
    if a.year < b.year {
        year_start_grows(a.year + 1, b.year);
    } else if b.year < a.year {
        year_start_grows(b.year + 1, a.year);
    }
}

/// A quotient rounded down.
fn floor_div(a: i64, b: u64) -> (q: i64)
    requires
        1 < b <= 1_000_000,
    ensures
        q == a as int / b as int,
{
    if a >= 0 {
        (a as u64 / b) as i64
    } else {
        let m: u64 = (-1 - a) as u64;
        let k: u64 = m / b;
        proof {
            let bi = b as int;
            let mi = m as int;
            assert(a as int / bi == -1 - mi / bi) by (nonlinear_arith)
                requires
                    bi > 1,
                    mi == -1 - a as int,
            ;
            assert(0 <= mi / bi <= mi) by (nonlinear_arith)
                requires
                    bi > 1,
                    mi >= 0,
            ;
        }
        -1 - (k as i64)
    }
}

/// The year, month and day that is this many days after the 1st of January 1970.
fn civil(days: i64) -> (r: (i64, u64, u64))
    requires
        -200_000_000_000 <= days <= 200_000_000_000,
    ensures
        falls_on((Date { year: r.0 as int, month: r.1 as int, day: r.2 as int }), days as int),
{
    // Years are counted from the 1st of March, so that a leap day is the last of its year; an era
    // is four hundred of them.
    let z: i64 = days + 719_468;
    let era: i64 = floor_div(z, 146_097);
    let of_era: i64 = z - era * 146_097;
    let cycle: i64 = of_era / 36_524;
    let century: i64 = if cycle == 4 {
        3
    } else {
        cycle
    };
    let of_century: i64 = of_era - century * 36_524;
    let quad: i64 = of_century / 1_461;
    let of_quad: i64 = of_century - quad * 1_461;
    let step: i64 = of_quad / 365;
    let single: i64 = if step == 4 {
        3
    } else {
        step
    };
    let day: i64 = of_quad - single * 365;
    let year: i64 = era * 400 + century * 100 + quad * 4 + single;
    proof {
        march_counts(era as int, century as int, quad as int, single as int, day as int);
        march_leads(year as int);
        month_starts(year as int);
        month_starts(year + 1);
        year_start_steps(year as int);
    }
    if day < 31 {
        (year, 3, (day + 1) as u64)
    } else if day < 61 {
        (year, 4, (day - 30) as u64)
    } else if day < 92 {
        (year, 5, (day - 60) as u64)
    } else if day < 122 {
        (year, 6, (day - 91) as u64)
    } else if day < 153 {
        (year, 7, (day - 121) as u64)
    } else if day < 184 {
        (year, 8, (day - 152) as u64)
    } else if day < 214 {
        (year, 9, (day - 183) as u64)
    } else if day < 245 {
        (year, 10, (day - 213) as u64)
    } else if day < 275 {
        (year, 11, (day - 244) as u64)
    } else if day < 306 {
        (year, 12, (day - 274) as u64)
    } else if day < 337 {
        (year + 1, 1, (day - 305) as u64)
    } else {
        (year + 1, 2, (day - 336) as u64)
    }
}

/// The 1st of March is sixty days or so into its year.
proof fn march_leads(year: int)
    ensures
        year_start(year) + month_start(year, 3) == 365 * year + leaps_through(year) - 719_468,
{
    month_starts(year);
    year_start_steps(year);
}

/// The days of whole eras, centuries, leap cycles and single years from the 1st of March on.
proof fn march_counts(era: int, century: int, quad: int, single: int, day: int)
    requires
        0 <= century <= 3,
        0 <= quad <= 24,
        0 <= single <= 3,
        0 <= day <= 365,
        quad * 1461 + single * 365 + day <= 36524,
        century < 3 ==> quad * 1461 + single * 365 + day < 36524,
        day == 365 ==> single == 3,
    ensures
        ({
            let year = era * 400 + century * 100 + quad * 4 + single;
            &&& 365 * year + leaps_through(year) == era * 146_097 + century * 36_524 + quad * 1_461
                + single * 365
            &&& day == 365 ==> leap(year + 1)
        }),
{
    let year = era * 400 + century * 100 + quad * 4 + single;
    assert(year / 4 == era * 100 + century * 25 + quad);
    assert(year / 100 == era * 4 + century);
    assert(year / 400 == era);
    if day == 365 {
        let next = year + 1;
        assert(next == era * 400 + century * 100 + quad * 4 + 4);
        if quad == 24 {
            assert(century == 3);
            assert(next == (era + 1) * 400);
        } else {
            assert(next % 4 == 0);
            assert(next % 100 == quad * 4 + 4);
        }
    }
}

/// A text with zeros before it up to a width.
fn fill(text: String, width: usize) -> (r: String)
    ensures
        r@ == filled(text@, width as int),
{
    let mut out = text;
    let mut length: usize = crate::text::chars_of(out.as_str()).len();
    while length < width
        invariant
            length == out@.len(),
            filled(text@, width as int) == filled(out@, width as int),
        decreases width - length,
    {
        let mut next = String::new();
        next.push('0');
        next.append(out.as_str());
        assert(next@ == seq!['0'] + out@);
        out = next;
        length += 1;
    }
    out
}

/// A number in decimal, with zeros after the sign up to a width.
fn pad(n: i64, width: usize) -> (r: String)
    requires
        width > 0,
        n > i64::MIN,
    ensures
        r@ == padded(n as int, width as int),
{
    if n < 0 {
        let mut out = "-".to_string();
        out.append(fill(decimal((-n) as u64), width - 1).as_str());
        out
    } else {
        fill(decimal(n as u64), width)
    }
}

/// A moment, in Unix milliseconds, as a UTC minute stamp.
pub fn format_timestamp(at: i64) -> (stamp: String)
    ensures
        stamp@ == stamp_of(at as int),
{
    let seconds: i64 = floor_div(at, 1000);
    let days: i64 = floor_div(seconds, 86_400);
    let second: i64 = seconds - days * 86_400;
    let (year, month, day) = civil(days);
    proof {
        let date = Date { year: year as int, month: month as int, day: day as int };
        assert(falls_on(date, days as int));
        assert(falls_on(date_of(days as int), days as int));
        date_unique(date, date_of(days as int), days as int);
    }
    assert(-300_000_000 <= year <= 300_000_000) by {
        let date = Date { year: year as int, month: month as int, day: day as int };
        month_starts(year as int);
        assert(day_number(date) == days);
    }
    let mut stamp = pad(year, 4);
    stamp.append("-");
    stamp.append(pad(month as i64, 2).as_str());
    stamp.append("-");
    stamp.append(pad(day as i64, 2).as_str());
    stamp.append(" ");
    stamp.append(pad(second / 3600, 2).as_str());
    stamp.append(":");
    stamp.append(pad((second % 3600) / 60, 2).as_str());
    stamp.append(" UTC");
    stamp
}

/// Every day has a date.
proof fn date_falls(days: int)
    ensures
        falls_on(date_of(days), days),
{
    let z = days + 719_468;
    let era = z / 146_097;
    let of_era = z % 146_097;
    let cycle = of_era / 36_524;
    let century = if cycle == 4 {
        3
    } else {
        cycle
    };
    let of_century = of_era - century * 36_524;
    let quad = of_century / 1_461;
    let of_quad = of_century - quad * 1_461;
    let step = of_quad / 365;
    let single = if step == 4 {
        3
    } else {
        step
    };
    let day = of_quad - single * 365;
    let year = era * 400 + century * 100 + quad * 4 + single;
    march_counts(era, century, quad, single, day);
    march_leads(year);
    month_starts(year);
    month_starts(year + 1);
    year_start_steps(year);
    let date = if day < 31 {
        Date { year, month: 3, day: day + 1 }
    } else if day < 61 {
        Date { year, month: 4, day: day - 30 }
    } else if day < 92 {
        Date { year, month: 5, day: day - 60 }
    } else if day < 122 {
        Date { year, month: 6, day: day - 91 }
    } else if day < 153 {
        Date { year, month: 7, day: day - 121 }
    } else if day < 184 {
        Date { year, month: 8, day: day - 152 }
    } else if day < 214 {
        Date { year, month: 9, day: day - 183 }
    } else if day < 245 {
        Date { year, month: 10, day: day - 213 }
    } else if day < 275 {
        Date { year, month: 11, day: day - 244 }
    } else if day < 306 {
        Date { year, month: 12, day: day - 274 }
    } else if day < 337 {
        Date { year: year + 1, month: 1, day: day - 305 }
    } else {
        Date { year: year + 1, month: 2, day: day - 336 }
    };
    assert(falls_on(date, days));
}

/// A zero in front of digits changes nothing.
proof fn zero_leads(s: Seq<char>)
    requires
        all_digits(s),
    ensures
        all_digits(seq!['0'] + s),
        digits_value(seq!['0'] + s) == digits_value(s),
    decreases s.len(),
{
    let longer = seq!['0'] + s;
    assert forall|i: int| 0 <= i < longer.len() implies digit(#[trigger] longer[i]) by {
        if i > 0 {
            assert(longer[i] == s[i - 1]);
        }
    }
    if s.len() == 0 {
        reveal_with_fuel(digits_value, 2);
        assert(longer.drop_last() =~= Seq::<char>::empty());
    } else {
        assert(longer.drop_last() =~= seq!['0'] + s.drop_last());
        assert forall|i: int| 0 <= i < s.drop_last().len() implies digit(
            #[trigger] s.drop_last()[i],
        ) by {
            assert(s.drop_last()[i] == s[i]);
        }
        zero_leads(s.drop_last());
    }
}

/// Digits filled up are as wide as they should be, or as they were, and write the same number.
proof fn filled_digits(s: Seq<char>, width: int)
    requires
        all_digits(s),
    ensures
        all_digits(filled(s, width)),
        digits_value(filled(s, width)) == digits_value(s),
        filled(s, width).len() == if s.len() >= width {
            s.len() as int
        } else {
            width
        },
    decreases width - s.len(),
{
    if s.len() < width {
        zero_leads(s);
        filled_digits(seq!['0'] + s, width);
    }
}

/// A number that is not negative is written in digits.
proof fn padded_digits(n: int, width: int)
    requires
        n >= 0,
    ensures
        all_digits(padded(n, width)),
        digits_value(padded(n, width)) == n,
        padded(n, width).len() > 0,
        n < 100 && width == 2 ==> padded(n, width).len() == 2,
        n < 10_000 && width == 4 ==> padded(n, width).len() == 4,
{
    decimal_digits(n as nat);
    filled_digits(decimal_of(n as nat), width);
    reveal_with_fuel(decimal_of, 5);
}

/// No two numbers are written alike.
proof fn padded_injective(a: int, b: int, width: int)
    requires
        padded(a, width) == padded(b, width),
    ensures
        a == b,
{
    reveal_strlit("-");
    let x = padded(a, width);
    if a < 0 {
        let m = (-a) as nat;
        decimal_digits(m);
        filled_digits(decimal_of(m), width - 1);
        assert(x[0] == '-');
        if b < 0 {
            let n = (-b) as nat;
            decimal_digits(n);
            filled_digits(decimal_of(n), width - 1);
            assert(x.skip(1) =~= filled(decimal_of(m), width - 1));
            assert(padded(b, width).skip(1) =~= filled(decimal_of(n), width - 1));
        } else {
            padded_digits(b, width);
            assert(digit(padded(b, width)[0]));
        }
    } else {
        padded_digits(a, width);
        if b < 0 {
            assert(padded(b, width)[0] == '-');
            assert(digit(x[0]));
        } else {
            padded_digits(b, width);
        }
    }
}

/// A minute, counted from the 1st of January 1970, as it is stamped.
spec fn minute_stamp(minute: int) -> Seq<char> {
    let date = date_of(minute / 1440);
    padded(date.year, 4) + "-"@ + padded(date.month, 2) + "-"@ + padded(date.day, 2) + " "@
        + padded(minute % 1440 / 60, 2) + ":"@ + padded(minute % 60, 2) + " UTC"@
}

/// The day, hour and minute of a moment are those of its minute.
proof fn minute_parts(at: int)
    ensures
        ({
            let seconds = at / 1000;
            let minute = at / 60_000;
            &&& seconds / 86_400 == minute / 1440
            &&& seconds % 86_400 / 3600 == minute % 1440 / 60
            &&& (seconds % 86_400) % 3600 / 60 == minute % 60
        }),
{
    let seconds = at / 1000;
    let minute = at / 60_000;
    let rest = at % 60_000 / 1000;
    let day = minute / 1440;
    let within = minute % 1440;
    assert(seconds == 60 * minute + rest && 0 <= rest < 60);
    assert(minute == 1440 * day + within && 0 <= within < 1440);
    assert(seconds == 86_400 * day + (60 * within + rest));
    assert(seconds / 86_400 == day && seconds % 86_400 == 60 * within + rest);
    let hour = within / 60;
    let past = within % 60;
    assert(within == 60 * hour + past);
    assert(60 * within + rest == 3600 * hour + (60 * past + rest));
    assert((60 * within + rest) / 3600 == hour);
    assert((60 * within + rest) % 3600 == 60 * past + rest);
    assert((60 * past + rest) / 60 == past);
    assert(minute == 60 * (24 * day + hour) + past);
    assert(minute % 60 == past);
}

/// A moment is stamped as its minute is.
proof fn stamps_are_of_minutes(at: int)
    ensures
        stamp_of(at) == minute_stamp(at / 60_000),
{
    minute_parts(at);
}

/// The parts of a text that is put together as a stamp is.
proof fn stamp_parts(
    year: Seq<char>,
    month: Seq<char>,
    day: Seq<char>,
    hour: Seq<char>,
    minute: Seq<char>,
)
    requires
        month.len() == 2,
        day.len() == 2,
        hour.len() == 2,
        minute.len() == 2,
    ensures
        ({
            let s = year + "-"@ + month + "-"@ + day + " "@ + hour + ":"@ + minute + " UTC"@;
            let n = year.len() as int;
            &&& s.len() == n + 16
            &&& s.subrange(0, n) == year
            &&& s.subrange(n + 1, n + 3) == month
            &&& s.subrange(n + 4, n + 6) == day
            &&& s.subrange(n + 7, n + 9) == hour
            &&& s.subrange(n + 10, n + 12) == minute
            &&& s.take(n + 1) == year + "-"@
            &&& s.take(n + 4) == year + "-"@ + month + "-"@
            &&& s.take(n + 7) == year + "-"@ + month + "-"@ + day + " "@
            &&& s.take(n + 10) == year + "-"@ + month + "-"@ + day + " "@ + hour + ":"@
        }),
{
    reveal_strlit("-");
    reveal_strlit(" ");
    reveal_strlit(":");
    reveal_strlit(" UTC");
    let s = year + "-"@ + month + "-"@ + day + " "@ + hour + ":"@ + minute + " UTC"@;
    let n = year.len() as int;
    assert(s.subrange(0, n) =~= year);
    assert(s.subrange(n + 1, n + 3) =~= month);
    assert(s.subrange(n + 4, n + 6) =~= day);
    assert(s.subrange(n + 7, n + 9) =~= hour);
    assert(s.subrange(n + 10, n + 12) =~= minute);
    assert(s.take(n + 1) =~= year + "-"@);
    assert(s.take(n + 4) =~= year + "-"@ + month + "-"@);
    assert(s.take(n + 7) =~= year + "-"@ + month + "-"@ + day + " "@);
    assert(s.take(n + 10) =~= year + "-"@ + month + "-"@ + day + " "@ + hour + ":"@);
}

/// The parts of the stamp of a minute.
proof fn minute_stamp_parts(minute: int)
    ensures
        ({
            let date = date_of(minute / 1440);
            let s = minute_stamp(minute);
            let n = padded(date.year, 4).len() as int;
            &&& falls_on(date, minute / 1440)
            &&& s.len() == n + 16
            &&& s.subrange(0, n) == padded(date.year, 4)
            &&& s.subrange(n + 1, n + 3) == padded(date.month, 2)
            &&& s.subrange(n + 4, n + 6) == padded(date.day, 2)
            &&& s.subrange(n + 7, n + 9) == padded(minute % 1440 / 60, 2)
            &&& s.subrange(n + 10, n + 12) == padded(minute % 60, 2)
            &&& s.take(n + 1) == padded(date.year, 4) + "-"@
            &&& s.take(n + 4) == padded(date.year, 4) + "-"@ + padded(date.month, 2) + "-"@
            &&& s.take(n + 7) == padded(date.year, 4) + "-"@ + padded(date.month, 2) + "-"@
                + padded(date.day, 2) + " "@
            &&& s.take(n + 10) == padded(date.year, 4) + "-"@ + padded(date.month, 2) + "-"@
                + padded(date.day, 2) + " "@ + padded(minute % 1440 / 60, 2) + ":"@
        }),
{
    let date = date_of(minute / 1440);
    date_falls(minute / 1440);
    padded_digits(date.month, 2);
    padded_digits(date.day, 2);
    padded_digits(minute % 1440 / 60, 2);
    padded_digits(minute % 60, 2);
    stamp_parts(
        padded(date.year, 4),
        padded(date.month, 2),
        padded(date.day, 2),
        padded(minute % 1440 / 60, 2),
        padded(minute % 60, 2),
    );
}

/// The minutes of a day are its hours' and what is past the last.
proof fn hours_and_minutes(minute: int)
    ensures
        minute == minute / 1440 * 1440 + minute % 1440 / 60 * 60 + minute % 60,
{
    let day = minute / 1440;
    let within = minute % 1440;
    let hour = within / 60;
    let past = within % 60;
    assert(minute == 1440 * day + within);
    assert(within == 60 * hour + past && 0 <= past < 60);
    let hours = 24 * day + hour;
    assert(minute == 60 * hours + past);
    assert(minute % 60 == past);
}

/// Two minutes with the same stamp are the same.
proof fn minute_stamps_differ(a: int, b: int)
    requires
        minute_stamp(a) == minute_stamp(b),
    ensures
        a == b,
{
    let x = date_of(a / 1440);
    let y = date_of(b / 1440);
    minute_stamp_parts(a);
    minute_stamp_parts(b);
    padded_injective(x.year, y.year, 4);
    padded_injective(x.month, y.month, 2);
    padded_injective(x.day, y.day, 2);
    padded_injective(a % 1440 / 60, b % 1440 / 60, 2);
    padded_injective(a % 60, b % 60, 2);
    hours_and_minutes(a);
    hours_and_minutes(b);
}

/// Two moments have the same stamp exactly where they lie in the same minute.
pub proof fn stamps_tell_minutes(a: int, b: int)
    ensures
        stamp_of(a) == stamp_of(b) <==> a / 60_000 == b / 60_000,
{
    stamps_are_of_minutes(a);
    stamps_are_of_minutes(b);
    if stamp_of(a) == stamp_of(b) {
        minute_stamps_differ(a / 60_000, b / 60_000);
    }
}

/// Digits of one width that write the same number are the same.
proof fn digits_same(x: Seq<char>, y: Seq<char>)
    requires
        x.len() == y.len(),
        all_digits(x),
        all_digits(y),
        digits_value(x) == digits_value(y),
    ensures
        x == y,
    decreases x.len(),
{
    if x.len() > 0 {
        let a = x.drop_last();
        let b = y.drop_last();
        assert(digit(x[x.len() - 1]) && digit(y[y.len() - 1]));
        assert(all_digits(a)) by {
            assert forall|i: int| 0 <= i < a.len() implies digit(#[trigger] a[i]) by {
                assert(a[i] == x[i]);
            }
        }
        assert(all_digits(b)) by {
            assert forall|i: int| 0 <= i < b.len() implies digit(#[trigger] b[i]) by {
                assert(b[i] == y[i]);
            }
        }
        digits_same(a, b);
        assert(x =~= a.push(x.last()));
        assert(y =~= b.push(y.last()));
    } else {
        assert(x =~= y);
    }
}

/// Digits of one width are ordered as the numbers that they write.
proof fn digits_ordered(x: Seq<char>, y: Seq<char>)
    requires
        x.len() == y.len(),
        all_digits(x),
        all_digits(y),
        digits_value(x) < digits_value(y),
    ensures
        less(x, y),
    decreases x.len(),
{
    if x.len() > 0 {
        let a = x.drop_last();
        let b = y.drop_last();
        let u = seq![x.last()];
        let v = seq![y.last()];
        assert(digit(x[x.len() - 1]) && digit(y[y.len() - 1]));
        assert(all_digits(a)) by {
            assert forall|i: int| 0 <= i < a.len() implies digit(#[trigger] a[i]) by {
                assert(a[i] == x[i]);
            }
        }
        assert(all_digits(b)) by {
            assert forall|i: int| 0 <= i < b.len() implies digit(#[trigger] b[i]) by {
                assert(b[i] == y[i]);
            }
        }
        assert(x =~= a + u);
        assert(y =~= b + v);
        if digits_value(a) < digits_value(b) {
            digits_ordered(a, b);
            less_extends(a, b, u, v);
        } else {
            digits_same(a, b);
            less_behind(a, u, v);
        }
    }
}

/// Of two numbers of one width the smaller comes first.
proof fn padded_ordered(a: int, b: int, width: int)
    requires
        0 <= a < b,
        width == 2 && b < 100 || width == 4 && b < 10_000,
    ensures
        padded(a, width).len() == padded(b, width).len(),
        less(padded(a, width), padded(b, width)),
{
    padded_digits(a, width);
    padded_digits(b, width);
    digits_ordered(padded(a, width), padded(b, width));
}

/// An earlier date has a smaller year, or the same and a smaller month, or both the same and a
/// smaller day.
proof fn dates_ordered(x: Date, y: Date)
    requires
        valid(x),
        valid(y),
        day_number(x) < day_number(y),
    ensures
        x.year < y.year || x.year == y.year && (x.month < y.month || x.month == y.month && x.day
            < y.day),
{
    month_starts(x.year);
    month_starts(y.year);
    year_start_steps(x.year);
    year_start_steps(y.year);
    if y.year < x.year {
        year_start_grows(y.year + 1, x.year);
    }
}

/// The years from 1970 on that have four digits.
proof fn years_of_four_digits(days: int)
    requires
        0 <= days < 2_932_897,
    ensures
        1970 <= date_of(days).year <= 9999,
{
    let date = date_of(days);
    date_falls(days);
    month_starts(date.year);
    year_start_steps(date.year);
    year_start_steps(9999);
    if date.year < 1970 {
        year_start_grows(date.year + 1, 1970);
    }
    if date.year > 9999 {
        year_start_grows(10_000, date.year);
        assert(year_start(10_000) == 2_932_897);
    }
}

/// Of two minutes within years of four digits, the stamp of the earlier comes first.
proof fn minute_stamps_ordered(a: int, b: int)
    requires
        0 <= a < b < 4_223_371_680,
    ensures
        less(minute_stamp(a), minute_stamp(b)),
{
    let x = date_of(a / 1440);
    let y = date_of(b / 1440);
    let (h, k) = (a % 1440 / 60, b % 1440 / 60);
    let (m, n) = (a % 60, b % 60);
    minute_stamp_parts(a);
    minute_stamp_parts(b);
    years_of_four_digits(a / 1440);
    years_of_four_digits(b / 1440);
    let s = minute_stamp(a);
    let t = minute_stamp(b);
    padded_digits(x.year, 4);
    padded_digits(y.year, 4);
    if a / 1440 < b / 1440 {
        dates_ordered(x, y);
        if x.year < y.year {
            padded_ordered(x.year, y.year, 4);
            stamp_order(s, t, 0, 4);
        } else if x.month < y.month {
            padded_ordered(x.month, y.month, 2);
            stamp_order(s, t, 5, 2);
        } else {
            padded_ordered(x.day, y.day, 2);
            stamp_order(s, t, 8, 2);
        }
    } else {
        hours_and_minutes(a);
        hours_and_minutes(b);
        if h < k {
            padded_ordered(h, k, 2);
            stamp_order(s, t, 11, 2);
        } else {
            padded_ordered(m, n, 2);
            stamp_order(s, t, 14, 2);
        }
    }
}

/// Of two texts the order is that of the first part in which they differ.
proof fn stamp_order(s: Seq<char>, t: Seq<char>, at: int, width: int)
    requires
        0 <= at,
        0 < width,
        at + width <= s.len(),
        at + width <= t.len(),
        s.take(at) =~= t.take(at),
        less(s.subrange(at, at + width), t.subrange(at, at + width)),
    ensures
        less(s, t),
{
    let p = s.take(at);
    let u = s.subrange(at, at + width);
    let v = t.subrange(at, at + width);
    less_behind(p, u, v);
    less_extends(p + u, p + v, s.skip(at + width), t.skip(at + width));
    assert(s =~= p + u + s.skip(at + width));
    assert(t =~= t.take(at) + v + t.skip(at + width));
}

/// Stamps sort by time, as long as years have four digits: of two moments from 1970 on and before
/// the year 10000, the stamp of the later never comes before that of the earlier.
pub proof fn stamps_sort_by_time(a: int, b: int)
    requires
        0 <= a <= b < 253_402_300_800_000,
    ensures
        !less(stamp_of(b), stamp_of(a)),
        a / 60_000 < b / 60_000 ==> less(stamp_of(a), stamp_of(b)),
{
    stamps_are_of_minutes(a);
    stamps_are_of_minutes(b);
    if a / 60_000 < b / 60_000 {
        minute_stamps_ordered(a / 60_000, b / 60_000);
        if less(stamp_of(b), stamp_of(a)) {
            less_transitive(stamp_of(a), stamp_of(b), stamp_of(a));
            less_irreflexive(stamp_of(a));
        }
    } else {
        assert(a / 60_000 == b / 60_000);
        less_irreflexive(stamp_of(a));
    }
}

/// The date of the day after: the next day of the month, after its last the first of the next month, and
/// after the 31st of December the 1st of January. April, June, September and November have 30 days, and
/// February has 29 in the years that four divides, but of those that a hundred divides only in the
/// ones that four hundred divides, and 28 in the others.
pub proof fn days_follow_each_other(days: int)
    ensures
        ({
            let a = date_of(days);
            let b = date_of(days + 1);
            let last: int = if a.month == 4 || a.month == 6 || a.month == 9 || a.month == 11 {
                30
            } else if a.month != 2 {
                31
            } else if a.year % 400 == 0 || (a.year % 4 == 0 && a.year % 100 != 0) {
                29
            } else {
                28
            };
            &&& 1 <= a.month <= 12
            &&& 1 <= a.day <= last
            &&& a.day < last ==> b == Date { day: a.day + 1, ..a }
            &&& a.day == last && a.month < 12 ==> b == Date {
                year: a.year,
                month: a.month + 1,
                day: 1,
            }
            &&& a.day == last && a.month == 12 ==> b == Date {
                year: a.year + 1,
                month: 1,
                day: 1,
            }
        }),
        date_of(0) == (Date { year: 1970, month: 1, day: 1 }),
{
    let a = date_of(days);
    date_falls(days);
    date_falls(days + 1);
    date_falls(0);
    month_starts(a.year);
    month_starts(a.year + 1);
    year_start_steps(a.year);
    let next = if a.day < month_days(a.year, a.month) {
        Date { day: a.day + 1, ..a }
    } else if a.month < 12 {
        Date { year: a.year, month: a.month + 1, day: 1 }
    } else {
        Date { year: a.year + 1, month: 1, day: 1 }
    };
    assert(falls_on(next, days + 1));
    date_unique(next, date_of(days + 1), days + 1);
    let first = Date { year: 1970, month: 1, day: 1 };
    month_starts(1970);
    assert(falls_on(first, 0));
    date_unique(first, date_of(0), 0);
}

/// A stamp reads the year, the month, the day, the hour and the minute of its time.
pub proof fn stamps_read_their_time(days: int, hour: int, minute: int, rest: int)
    requires
        0 <= hour < 24,
        0 <= minute < 60,
        0 <= rest < 60_000,
    ensures
        stamp_of(days * 86_400_000 + hour * 3_600_000 + minute * 60_000 + rest) == padded(
            date_of(days).year,
            4,
        ) + "-"@ + padded(date_of(days).month, 2) + "-"@ + padded(date_of(days).day, 2) + " "@
            + padded(hour, 2) + ":"@ + padded(minute, 2) + " UTC"@,
{
    let at = days * 86_400_000 + hour * 3_600_000 + minute * 60_000 + rest;
    let seconds = at / 1000;
    assert(seconds == days * 86_400 + hour * 3600 + minute * 60 + rest / 1000);
    assert(seconds / 86_400 == days);
    assert(seconds % 86_400 == hour * 3600 + minute * 60 + rest / 1000);
    assert((seconds % 86_400) / 3600 == hour);
    assert(((seconds % 86_400) % 3600) / 60 == minute);
}

} // verus!
