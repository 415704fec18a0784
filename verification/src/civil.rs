//! Calendar dates in UTC.

use crate::calendar;
use crate::number;
use crate::parts;
use crate::text;
use vstd::prelude::*;

verus! {

/// Whether a year of the Gregorian calendar has a leap day.
pub open spec fn is_leap(y: int) -> bool {
    y % 4 == 0 && (y % 100 != 0 || y % 400 == 0)
}

/// The number of days of a month.
pub open spec fn month_days(y: int, m: int) -> int {
    if m == 2 {
        if is_leap(y) {
            29
        } else {
            28
        }
    } else if m == 4 || m == 6 || m == 9 || m == 11 {
        30
    } else {
        31
    }
}

/// Whether year, month and day make a date.
pub open spec fn is_date(y: int, m: int, d: int) -> bool {
    1 <= m <= 12 && 1 <= d <= month_days(y, m)
}

/// The number of a date, counted in days from 1970-01-01.
pub open spec fn day_number(y: int, m: int, d: int) -> int {
    let yy = if m <= 2 {
        y - 1
    } else {
        y
    };
    let mm = if m <= 2 {
        m + 9
    } else {
        m - 3
    };
    365 * yy + yy / 4 - yy / 100 + yy / 400 + (153 * mm + 2) / 5 + d - 719469
}

/// The date of a day number.
pub open spec fn civil_of(n: int) -> (int, int, int) {
    choose|y: int, m: int, d: int| is_date(y, m, d) && #[trigger] day_number(y, m, d) == n
}

/// Day numbers count days: they start at 1970-01-01 and go up by one from
/// each date to the next.
pub proof fn law_day_number_counts(y: int, m: int, d: int)
    requires
        is_date(y, m, d),
    ensures
        day_number(1970, 1, 1) == 0,
        d < month_days(y, m) ==> day_number(y, m, d + 1) == day_number(y, m, d) + 1,
        d == month_days(y, m) && m < 12 ==> day_number(y, m + 1, 1) == day_number(y, m, d) + 1,
        d == month_days(y, m) && m == 12 ==> day_number(y + 1, 1, 1) == day_number(y, m, d) + 1,
{
    lemma_year_step(y);
    assert(m == 1 || m == 2 || m == 3 || m == 4 || m == 5 || m == 6 || m == 7 || m == 8 || m == 9
        || m == 10 || m == 11 || m == 12);
}

/// How the leap-day terms change from one year to the next.
proof fn lemma_year_step(y: int)
    ensures
        (y / 4 - y / 100 + y / 400) - ((y - 1) / 4 - (y - 1) / 100 + (y - 1) / 400) == (if is_leap(
            y,
        ) {
            1int
        } else {
            0
        }),
{
    lemma_step_4(y);
    lemma_step_100(y);
    lemma_step_400(y);
    lemma_multiples(y);
}

proof fn lemma_step_4(y: int)
    ensures
        y % 4 == 0 ==> y / 4 - (y - 1) / 4 == 1,
        y % 4 != 0 ==> y / 4 - (y - 1) / 4 == 0,
{
}

proof fn lemma_step_100(y: int)
    ensures
        y % 100 == 0 ==> y / 100 - (y - 1) / 100 == 1,
        y % 100 != 0 ==> y / 100 - (y - 1) / 100 == 0,
{
}

proof fn lemma_step_400(y: int)
    ensures
        y % 400 == 0 ==> y / 400 - (y - 1) / 400 == 1,
        y % 400 != 0 ==> y / 400 - (y - 1) / 400 == 0,
{
}

proof fn lemma_multiples(y: int)
    ensures
        y % 100 == 0 ==> y % 4 == 0,
        y % 400 == 0 ==> y % 100 == 0,
{
    if y % 100 == 0 {
        assert(y == 4 * (25 * (y / 100)));
    }
    if y % 400 == 0 {
        assert(y == 100 * (4 * (y / 400)));
    }
}

/// A year's dates lie between its first day and the next year's.
proof fn lemma_within_year(y: int, m: int, d: int)
    requires
        is_date(y, m, d),
    ensures
        day_number(y, 1, 1) <= day_number(y, m, d) < day_number(y + 1, 1, 1),
        day_number(y + 1, 1, 1) == day_number(y, 1, 1) + (if is_leap(y) {
            366int
        } else {
            365
        }),
{
    lemma_year_step(y);
    assert(m == 1 || m == 2 || m == 3 || m == 4 || m == 5 || m == 6 || m == 7 || m == 8 || m == 9
        || m == 10 || m == 11 || m == 12);
}

/// Later years begin later.
proof fn lemma_years_increase(a: int, b: int)
    requires
        a <= b,
    ensures
        day_number(a, 1, 1) <= day_number(b, 1, 1),
    decreases b - a,
{
    if a < b {
        lemma_years_increase(a, b - 1);
        lemma_within_year(b - 1, 1, 1);
    }
}

/// A later month of the same year has later dates.
proof fn lemma_within_month(y: int, m: int, d: int, m2: int, d2: int)
    requires
        is_date(y, m, d),
        is_date(y, m2, d2),
        m < m2,
    ensures
        day_number(y, m, d) < day_number(y, m2, d2),
{
    lemma_year_step(y);
    assert(m == 1 || m == 2 || m == 3 || m == 4 || m == 5 || m == 6 || m == 7 || m == 8 || m == 9
        || m == 10 || m == 11 || m == 12);
    assert(m2 == 1 || m2 == 2 || m2 == 3 || m2 == 4 || m2 == 5 || m2 == 6 || m2 == 7 || m2 == 8
        || m2 == 9 || m2 == 10 || m2 == 11 || m2 == 12);
}

/// Two dates with one day number are the same date.
pub proof fn law_day_number_injective(y: int, m: int, d: int, y2: int, m2: int, d2: int)
    requires
        is_date(y, m, d),
        is_date(y2, m2, d2),
        day_number(y, m, d) == day_number(y2, m2, d2),
    ensures
        y == y2 && m == m2 && d == d2,
{
    lemma_within_year(y, m, d);
    lemma_within_year(y2, m2, d2);
    if y < y2 {
        lemma_years_increase(y + 1, y2);
    } else if y2 < y {
        lemma_years_increase(y2 + 1, y);
    } else if m < m2 {
        lemma_within_month(y, m, d, m2, d2);
    } else if m2 < m {
        lemma_within_month(y, m2, d2, m, d);
    }
}

/// The date of a day number.
proof fn lemma_civil_of(n: int, y: int, m: int, d: int)
    requires
        is_date(y, m, d),
        day_number(y, m, d) == n,
    ensures
        civil_of(n) == (y, m, d),
{
    let c = civil_of(n);
    assert(is_date(c.0, c.1, c.2) && day_number(c.0, c.1, c.2) == n);
    law_day_number_injective(c.0, c.1, c.2, y, m, d);
}

/// The month and day behind the day of a year that begins in March.
fn month_of(doy: u64) -> (r: (u64, u64))
    requires
        doy <= 365,
    ensures
        r.0 <= 11,
        1 <= r.1,
        doy == (153 * r.0 + 2) / 5 + r.1 - 1,
        r.0 < 11 ==> r.1 <= month_days(1, if r.0 < 10 {
            r.0 + 3
        } else {
            r.0 - 9
        }),
        r.0 == 11 ==> r.1 <= 29,
        r.0 == 11 && r.1 == 29 ==> doy == 365,
{
    let mp: u64 = (5 * doy + 2) / 153;
    let d: u64 = doy - (153 * mp + 2) / 5 + 1;
    assert(mp == 0 || mp == 1 || mp == 2 || mp == 3 || mp == 4 || mp == 5 || mp == 6 || mp == 7
        || mp == 8 || mp == 9 || mp == 10 || mp == 11);
    (mp, d)
}

/// The date of a day counted from 1970-01-01.
#[verifier::rlimit(60)]
#[verifier::spinoff_prover]
pub fn civil_from_days(days: u64) -> (r: (u64, u32, u32))
    requires
        days <= u64::MAX / 2,
    ensures
        is_date(r.0 as int, r.1 as int, r.2 as int),
        day_number(r.0 as int, r.1 as int, r.2 as int) == days,
        civil_of(days as int) == (r.0 as int, r.1 as int, r.2 as int),
{
    // Years that begin in March put the leap day last; 400 of them make an
    // era of 146097 days.
    let z: u64 = days + 719_468;
    let era: u64 = z / 146_097;
    let doe: u64 = z % 146_097;
    let c: u64 = if doe / 36_524 > 3 {
        3
    } else {
        doe / 36_524
    };
    let doc: u64 = doe - c * 36_524;
    let q: u64 = doc / 1461;
    let doq: u64 = doc - q * 1461;
    let k: u64 = if doq / 365 > 3 {
        3
    } else {
        doq / 365
    };
    let doy: u64 = doq - k * 365;
    assert(doc <= 36_524);
    assert(q <= 24);
    assert(doq <= 1460);
    assert(doy <= 365);
    let yy: u64 = era * 400 + c * 100 + q * 4 + k;
    let (mp, d) = month_of(doy);
    let m: u64 = if mp < 10 {
        mp + 3
    } else {
        mp - 9
    };
    let y: u64 = if m <= 2 {
        yy + 1
    } else {
        yy
    };
    proof {
        assert(yy / 4 == era * 100 + c * 25 + q);
        assert(yy / 100 == era * 4 + c);
        assert(yy / 400 == era);
        assert(day_number(y as int, m as int, d as int) == days);
        if doy == 365 {
            assert(k == 3 && doq == 1460);
            assert(q == 24 ==> c == 3);
            assert((yy + 1) % 4 == 0);
            assert(q != 24 ==> (yy + 1) % 100 == 4 * q + 4);
            assert(q == 24 ==> (yy + 1) % 400 == 0);
            assert(is_leap(yy + 1));
        }
        assert(m == 2 <==> mp == 11);
        assert(is_date(y as int, m as int, d as int));
        lemma_civil_of(days as int, y as int, m as int, d as int);
    }
    (y, m as u32, d as u32)
}

/// The parts of a moment: date, hour, minute and second.
pub struct Moment {
    pub year: u64,
    pub month: u32,
    pub day: u32,
    pub hour: u32,
    pub minute: u32,
    pub second: u32,
}

/// Whether `t` is the moment `secs` seconds after 1970-01-01 00:00:00 UTC.
pub open spec fn is_moment(t: Moment, secs: int) -> bool {
    &&& civil_of(secs / 86_400) == (t.year as int, t.month as int, t.day as int)
    &&& t.hour == secs % 86_400 / 3600
    &&& t.minute == secs % 3600 / 60
    &&& t.second == secs % 60
}

/// Take a time apart.
pub fn split_utc(secs: u64) -> (t: Moment)
    ensures
        is_moment(t, secs as int),
        is_date(t.year as int, t.month as int, t.day as int),
        t.hour < 24 && t.minute < 60 && t.second < 60,
{
    let rem: u64 = secs % 86_400;
    let (year, month, day) = civil_from_days(secs / 86_400);
    let t = Moment {
        year,
        month,
        day,
        hour: (rem / 3600) as u32,
        minute: ((rem % 3600) / 60) as u32,
        second: (rem % 60) as u32,
    };
    assert(rem % 3600 == secs % 3600);
    assert(rem % 60 == secs % 60);
    t
}

/// `20260815T113000Z`, the compact form of a time.
pub open spec fn compact_of(secs: int) -> Seq<char> {
    let (y, m, d) = civil_of(secs / 86_400);
    number::padded(y as nat, 4) + number::padded(m as nat, 2) + number::padded(d as nat, 2) + "T"@
        + number::padded((secs % 86_400 / 3600) as nat, 2) + number::padded(
        (secs % 3600 / 60) as nat,
        2,
    ) + number::padded((secs % 60) as nat, 2) + "Z"@
}

/// `2026-08-15 11:30:00 UTC`, the readable form of a time.
pub open spec fn readable_of(secs: int) -> Seq<char> {
    let (y, m, d) = civil_of(secs / 86_400);
    number::padded(y as nat, 4) + "-"@ + number::padded(m as nat, 2) + "-"@ + number::padded(
        d as nat,
        2,
    ) + " "@ + number::padded((secs % 86_400 / 3600) as nat, 2) + ":"@ + number::padded(
        (secs % 3600 / 60) as nat,
        2,
    ) + ":"@ + number::padded((secs % 60) as nat, 2) + " UTC"@
}

/// `20260815T113000Z`, the compact form of a time.
pub fn compact_utc(secs: u64) -> (r: String)
    ensures
        r@ == compact_of(secs as int),
{
    let t = split_utc(secs);
    let mut s = number::to_padded(t.year, 4);
    s.push_str(number::to_padded(t.month as u64, 2).as_str());
    s.push_str(number::to_padded(t.day as u64, 2).as_str());
    s.push_str("T");
    s.push_str(number::to_padded(t.hour as u64, 2).as_str());
    s.push_str(number::to_padded(t.minute as u64, 2).as_str());
    s.push_str(number::to_padded(t.second as u64, 2).as_str());
    s.push_str("Z");
    s
}

/// `2026-08-15 11:30:00 UTC`, the readable form of a time.
pub fn format_utc(secs: u64) -> (r: String)
    ensures
        r@ == readable_of(secs as int),
{
    let t = split_utc(secs);
    let mut s = number::to_padded(t.year, 4);
    s.push_str("-");
    s.push_str(number::to_padded(t.month as u64, 2).as_str());
    s.push_str("-");
    s.push_str(number::to_padded(t.day as u64, 2).as_str());
    s.push_str(" ");
    s.push_str(number::to_padded(t.hour as u64, 2).as_str());
    s.push_str(":");
    s.push_str(number::to_padded(t.minute as u64, 2).as_str());
    s.push_str(":");
    s.push_str(number::to_padded(t.second as u64, 2).as_str());
    s.push_str(" UTC");
    s
}

// ---------------------------------------------------------------------------
// What the written times say
// ---------------------------------------------------------------------------

/// Every day from 1970-01-01 on has a date.
proof fn lemma_has_date(n: int) -> (r: (int, int, int))
    requires
        0 <= n,
    ensures
        r.0 >= 1970,
        is_date(r.0, r.1, r.2),
        day_number(r.0, r.1, r.2) == n,
    decreases n,
{
    if n == 0 {
        (1970, 1, 1)
    } else {
        let (y, m, d) = lemma_has_date(n - 1);
        law_day_number_counts(y, m, d);
        if d < month_days(y, m) {
            (y, m, d + 1)
        } else if m < 12 {
            (y, m + 1, 1)
        } else {
            (y + 1, 1, 1)
        }
    }
}

proof fn lemma_civil(n: int)
    requires
        0 <= n,
    ensures
        ({
            let (y, m, d) = civil_of(n);
            y >= 1970 && is_date(y, m, d) && day_number(y, m, d) == n
        }),
{
    let (y, m, d) = lemma_has_date(n);
    lemma_civil_of(n, y, m, d);
}

/// Whether digits give a date and a time of day that lie `secs` seconds after
/// 1970-01-01 00:00:00, each but the year in two digits.
pub open spec fn digits_tell(
    secs: int,
    y: Seq<char>,
    m: Seq<char>,
    d: Seq<char>,
    h: Seq<char>,
    mi: Seq<char>,
    s: Seq<char>,
) -> bool {
    let v = |x: Seq<char>| number::digits_value(x) as int;
    &&& number::all_digits(y) && number::all_digits(m) && number::all_digits(d)
    &&& number::all_digits(h) && number::all_digits(mi) && number::all_digits(s)
    &&& m.len() == 2 && d.len() == 2 && h.len() == 2 && mi.len() == 2 && s.len() == 2
    &&& is_date(v(y), v(m), v(d))
    &&& v(h) < 24 && v(mi) < 60 && v(s) < 60
    &&& day_number(v(y), v(m), v(d)) * 86_400 + v(h) * 3600 + v(mi) * 60 + v(s) == secs
}

proof fn lemma_time_of_day(secs: int)
    requires
        0 <= secs,
    ensures
        secs / 86_400 * 86_400 + secs % 86_400 / 3600 * 3600 + secs % 3600 / 60 * 60 + secs % 60
            == secs,
        0 <= secs % 86_400 / 3600 < 24,
        0 <= secs % 3600 / 60 < 60,
        0 <= secs % 60 < 60,
{
    let a = secs % 86_400;
    let b = secs % 3600;
    assert(a % 3600 == b);
    assert(b % 60 == secs % 60);
}

proof fn lemma_digits_tell(secs: int)
    requires
        0 <= secs,
    ensures
        ({
            let (y, m, d) = civil_of(secs / 86_400);
            digits_tell(
                secs,
                number::padded(y as nat, 4),
                number::padded(m as nat, 2),
                number::padded(d as nat, 2),
                number::padded((secs % 86_400 / 3600) as nat, 2),
                number::padded((secs % 3600 / 60) as nat, 2),
                number::padded((secs % 60) as nat, 2),
            )
        }),
{
    let (y, m, d) = civil_of(secs / 86_400);
    lemma_civil(secs / 86_400);
    number::lemma_padded_value(y as nat, 4);
    number::lemma_padded_value(m as nat, 2);
    number::lemma_padded_value(d as nat, 2);
    number::lemma_padded_value((secs % 86_400 / 3600) as nat, 2);
    number::lemma_padded_value((secs % 3600 / 60) as nat, 2);
    number::lemma_padded_value((secs % 60) as nat, 2);
    lemma_time_of_day(secs);
}

/// The readable form of a time gives the date and the time of day in UTC.
pub proof fn law_readable_tells_the_time(secs: int)
    requires
        0 <= secs,
    ensures
        ({
            let w = parts::split_of(readable_of(secs), ' ');
            let date = parts::split_of(w[0], '-');
            let clock = parts::split_of(w[1], ':');
            &&& w.len() == 3 && date.len() == 3 && clock.len() == 3
            &&& w[2] == seq!['U', 'T', 'C']
            &&& digits_tell(secs, date[0], date[1], date[2], clock[0], clock[1], clock[2])
        }),
{
    let (y, m, d) = civil_of(secs / 86_400);
    let yy = number::padded(y as nat, 4);
    let mm = number::padded(m as nat, 2);
    let dd = number::padded(d as nat, 2);
    let hh = number::padded((secs % 86_400 / 3600) as nat, 2);
    let mi = number::padded((secs % 3600 / 60) as nat, 2);
    let ss = number::padded((secs % 60) as nat, 2);
    lemma_digits_tell(secs);
    number::lemma_padded_value(y as nat, 4);
    number::lemma_padded_value(m as nat, 2);
    number::lemma_padded_value(d as nat, 2);
    number::lemma_padded_value((secs % 86_400 / 3600) as nat, 2);
    number::lemma_padded_value((secs % 3600 / 60) as nat, 2);
    number::lemma_padded_value((secs % 60) as nat, 2);
    let date = yy + seq!['-'] + mm + seq!['-'] + dd;
    let clock = hh + seq![':'] + mi + seq![':'] + ss;
    let zone = seq!['U', 'T', 'C'];
    assert(!yy.contains('-') && !mm.contains('-') && !dd.contains('-'));
    assert(!hh.contains(':') && !mi.contains(':') && !ss.contains(':'));
    calendar::lemma_split_three(yy, mm, dd, '-');
    calendar::lemma_split_three(hh, mi, ss, ':');
    lemma_no_space(yy, mm, dd, '-');
    lemma_no_space(hh, mi, ss, ':');
    assert(!zone.contains(' '));
    calendar::lemma_split_three(date, clock, zone, ' ');
    reveal_strlit("-");
    reveal_strlit(":");
    reveal_strlit(" ");
    reveal_strlit(" UTC");
    assert(readable_of(secs) =~= date + seq![' '] + clock + seq![' '] + zone);
}

proof fn lemma_no_space(a: Seq<char>, b: Seq<char>, d: Seq<char>, c: char)
    requires
        number::all_digits(a),
        number::all_digits(b),
        number::all_digits(d),
        c != ' ',
    ensures
        !(a + seq![c] + b + seq![c] + d).contains(' '),
{
    let s = a + seq![c] + b + seq![c] + d;
    assert forall|i: int| 0 <= i < s.len() implies #[trigger] s[i] != ' ' by {
        let k = a.len() as int;
        let n = k + 1 + b.len();
        if i < k {
            assert(text::is_digit(a[i]));
        } else if k < i < n {
            assert(text::is_digit(b[i - k - 1]));
        } else if i > n {
            assert(text::is_digit(d[i - n - 1]));
        }
    }
}

/// The compact form of a time gives the date and the time of day: fields of
/// two digits behind the year, with a `T` between date and time and a `Z` at
/// the end.
pub proof fn law_compact_tells_the_time(secs: int)
    requires
        0 <= secs,
    ensures
        ({
            let c = compact_of(secs);
            let n = c.len() as int;
            &&& n >= 16
            &&& c[n - 8] == 'T' && c[n - 1] == 'Z'
            &&& digits_tell(
                secs,
                c.take(n - 12),
                c.subrange(n - 12, n - 10),
                c.subrange(n - 10, n - 8),
                c.subrange(n - 7, n - 5),
                c.subrange(n - 5, n - 3),
                c.subrange(n - 3, n - 1),
            )
        }),
{
    let (y, m, d) = civil_of(secs / 86_400);
    let yy = number::padded(y as nat, 4);
    let mm = number::padded(m as nat, 2);
    let dd = number::padded(d as nat, 2);
    let hh = number::padded((secs % 86_400 / 3600) as nat, 2);
    let mi = number::padded((secs % 3600 / 60) as nat, 2);
    let ss = number::padded((secs % 60) as nat, 2);
    lemma_digits_tell(secs);
    number::lemma_padded_value(y as nat, 4);
    reveal_strlit("T");
    reveal_strlit("Z");
    let c = compact_of(secs);
    let n = c.len() as int;
    assert(n == yy.len() + 12);
    assert(c.take(n - 12) =~= yy);
    assert(c.subrange(n - 12, n - 10) =~= mm);
    assert(c.subrange(n - 10, n - 8) =~= dd);
    assert(c.subrange(n - 7, n - 5) =~= hh);
    assert(c.subrange(n - 5, n - 3) =~= mi);
    assert(c.subrange(n - 3, n - 1) =~= ss);
}

} // verus!
