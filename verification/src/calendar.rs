//! What an `OnCalendar=` spec means, and that a translated cron expression
//! means what cron means by it.

use crate::cron;
use crate::cron::Kind;
use crate::number;
use crate::parts;
use crate::text;
use vstd::prelude::*;

verus! {

broadcast use vstd::string::group_string_axioms;

// ---------------------------------------------------------------------------
// When a spec matches
// ---------------------------------------------------------------------------

/// A point in time on the calendar. Sunday is weekday 0.
pub struct Instant {
    pub year: int,
    pub month: int,
    pub day: int,
    pub weekday: int,
    pub hour: int,
    pub minute: int,
    pub second: int,
}

impl Instant {
    /// Whether there is such a time on some calendar.
    pub open spec fn is_valid(self) -> bool {
        &&& self.year >= 0
        &&& 1 <= self.month <= 12
        &&& 1 <= self.day <= 31
        &&& 0 <= self.weekday <= 6
        &&& 0 <= self.hour <= 23
        &&& 0 <= self.minute <= 59
        &&& 0 <= self.second <= 59
    }
}

/// Whether a text is the number `v` in digits.
pub open spec fn reads_as(e: Seq<char>, v: int) -> bool {
    e.len() > 0 && number::all_digits(e) && number::digits_value(e) == v
}

/// Whether a part of a date or a time, `*` or a comma list of numbers,
/// matches a value.
pub open spec fn part_matches(part: Seq<char>, v: int) -> bool {
    part == seq!['*'] || exists|i: int|
        0 <= i < parts::split_of(part, ',').len() && reads_as(
            #[trigger] parts::split_of(part, ',')[i],
            v,
        )
}

/// The weekday of a name that systemd knows it by.
pub open spec fn weekday_named(name: Seq<char>) -> Option<int> {
    if name == seq!['S', 'u', 'n'] {
        Some(0)
    } else if name == seq!['M', 'o', 'n'] {
        Some(1)
    } else if name == seq!['T', 'u', 'e'] {
        Some(2)
    } else if name == seq!['W', 'e', 'd'] {
        Some(3)
    } else if name == seq!['T', 'h', 'u'] {
        Some(4)
    } else if name == seq!['F', 'r', 'i'] {
        Some(5)
    } else if name == seq!['S', 'a', 't'] {
        Some(6)
    } else {
        None
    }
}

/// Whether a comma list of weekdays holds one.
pub open spec fn weekdays_match(part: Seq<char>, weekday: int) -> bool {
    exists|i: int|
        0 <= i < parts::split_of(part, ',').len() && weekday_named(
            #[trigger] parts::split_of(part, ',')[i],
        ) == Some(weekday)
}

/// Whether a date, `YEAR-MONTH-DAY`, and a time, `HOUR:MINUTE:SECOND`, match.
pub open spec fn date_and_time_match(date: Seq<char>, time: Seq<char>, t: Instant) -> bool {
    let d = parts::split_of(date, '-');
    let c = parts::split_of(time, ':');
    &&& d.len() == 3
    &&& c.len() == 3
    &&& part_matches(d[0], t.year)
    &&& part_matches(d[1], t.month)
    &&& part_matches(d[2], t.day)
    &&& part_matches(c[0], t.hour)
    &&& part_matches(c[1], t.minute)
    &&& part_matches(c[2], t.second)
}

/// Whether a spec, `[WEEKDAYS] DATE TIME`, matches a time: all of its parts
/// have to.
pub open spec fn spec_matches(spec: Seq<char>, t: Instant) -> bool {
    let w = parts::split_of(spec, ' ');
    if w.len() == 2 {
        date_and_time_match(w[0], w[1], t)
    } else {
        w.len() == 3 && weekdays_match(w[0], t.weekday) && date_and_time_match(w[1], w[2], t)
    }
}

/// Whether one of some specs matches a time.
pub open spec fn one_matches(specs: Seq<Seq<char>>, t: Instant) -> bool {
    exists|i: int| 0 <= i < specs.len() && spec_matches(#[trigger] specs[i], t)
}

// ---------------------------------------------------------------------------
// When cron fires
// ---------------------------------------------------------------------------

/// Whether a field leaves out some value of its range.
pub open spec fn is_restricted(field: Seq<char>, kind: Kind) -> bool {
    exists|v: int|
        kind.least() <= v <= kind.greatest() && !(#[trigger] cron::in_field(field, kind, v))
}

/// Whether cron fires at a time, by the fields for the minute, the hour, the
/// day of the month, the month and the weekday. Where both days are
/// restricted, either of them is enough.
pub open spec fn cron_fires(f: Seq<Seq<char>>, t: Instant) -> bool {
    let dom = cron::in_field(f[2], Kind::Dom, t.day);
    let dow = cron::in_field(f[4], Kind::Dow, t.weekday);
    &&& t.second == 0
    &&& cron::in_field(f[0], Kind::Min, t.minute)
    &&& cron::in_field(f[1], Kind::Hour, t.hour)
    &&& cron::in_field(f[3], Kind::Month, t.month)
    &&& if is_restricted(f[2], Kind::Dom) && is_restricted(f[4], Kind::Dow) {
        dom || dow
    } else {
        dom && dow
    }
}

// ---------------------------------------------------------------------------
// Taking specs apart
// ---------------------------------------------------------------------------

pub proof fn lemma_split_one(a: Seq<char>, c: char)
    requires
        !a.contains(c),
    ensures
        parts::split_of(a, c) == seq![a],
{
    let p = seq![a];
    assert(parts::join_of(p, seq![c]) == a);
    parts::lemma_split_join(p, c);
}

pub proof fn lemma_split_two(a: Seq<char>, b: Seq<char>, c: char)
    requires
        !a.contains(c),
        !b.contains(c),
    ensures
        parts::split_of(a + seq![c] + b, c) == seq![a, b],
{
    let p = seq![a, b];
    assert(p.drop_last() =~= seq![a]);
    assert(parts::join_of(p.drop_last(), seq![c]) == a);
    assert(parts::join_of(p, seq![c]) == a + seq![c] + b);
    parts::lemma_split_join(p, c);
}

pub proof fn lemma_split_three(a: Seq<char>, b: Seq<char>, d: Seq<char>, c: char)
    requires
        !a.contains(c),
        !b.contains(c),
        !d.contains(c),
    ensures
        parts::split_of(a + seq![c] + b + seq![c] + d, c) == seq![a, b, d],
{
    let p = seq![a, b, d];
    let q = seq![a, b];
    assert(p.drop_last() =~= q);
    assert(q.drop_last() =~= seq![a]);
    assert(parts::join_of(seq![a], seq![c]) == a);
    assert(parts::join_of(q, seq![c]) == a + seq![c] + b);
    assert(parts::join_of(p, seq![c]) == a + seq![c] + b + seq![c] + d);
    parts::lemma_split_join(p, c);
}

/// A text of digits, commas and stars.
pub open spec fn is_numeric(s: Seq<char>) -> bool {
    forall|i: int|
        0 <= i < s.len() ==> text::is_digit(#[trigger] s[i]) || s[i] == ',' || s[i] == '*'
}

/// A text of letters and commas.
pub open spec fn is_worded(s: Seq<char>) -> bool {
    forall|i: int|
        0 <= i < s.len() ==> 'A' <= #[trigger] s[i] <= 'Z' || 'a' <= s[i] <= 'z' || s[i] == ','
}

proof fn lemma_join_numeric(p: Seq<Seq<char>>)
    requires
        forall|i: int| 0 <= i < p.len() ==> number::all_digits(#[trigger] p[i]),
    ensures
        is_numeric(parts::join_of(p, seq![','])),
        !parts::join_of(p, seq![',']).contains('*'),
    decreases p.len(),
{
    let s = parts::join_of(p, seq![',']);
    if p.len() == 1 {
        assert(number::all_digits(p[0]));
    } else if p.len() > 1 {
        let q = p.drop_last();
        assert forall|i: int| 0 <= i < q.len() implies number::all_digits(#[trigger] q[i]) by {
            assert(q[i] == p[i]);
        }
        lemma_join_numeric(q);
        let a = parts::join_of(q, seq![',']);
        let b = p[p.len() - 1];
        assert(number::all_digits(b));
        assert forall|i: int| 0 <= i < s.len() implies (text::is_digit(#[trigger] s[i]) || s[i]
            == ',') && s[i] != '*' by {
            if i < a.len() {
                assert(s[i] == a[i]);
                assert(a.contains(a[i]));
            } else if i > a.len() {
                assert(s[i] == b[i - a.len() - 1]);
                assert(text::is_digit(b[i - a.len() - 1]));
            }
        }
    }
}

proof fn lemma_join_worded(p: Seq<Seq<char>>)
    requires
        forall|i: int| 0 <= i < p.len() ==> is_worded(#[trigger] p[i]),
    ensures
        is_worded(parts::join_of(p, seq![','])),
    decreases p.len(),
{
    let s = parts::join_of(p, seq![',']);
    if p.len() == 1 {
        assert(is_worded(p[0]));
    } else if p.len() > 1 {
        let q = p.drop_last();
        assert forall|i: int| 0 <= i < q.len() implies is_worded(#[trigger] q[i]) by {
            assert(q[i] == p[i]);
        }
        lemma_join_worded(q);
        let a = parts::join_of(q, seq![',']);
        let b = p[p.len() - 1];
        assert(is_worded(b));
        assert forall|i: int| 0 <= i < s.len() implies 'A' <= #[trigger] s[i] <= 'Z' || 'a' <= s[i]
            <= 'z' || s[i] == ',' by {
            if i < a.len() {
                assert(s[i] == a[i]);
            } else if i > a.len() {
                assert(s[i] == b[i - a.len() - 1]);
            }
        }
    }
}

proof fn lemma_two_digits(n: int)
    requires
        0 <= n,
    ensures
        reads_as(cron::two_digits(n), n),
{
    let s = cron::two_digits(n);
    let d = number::decimal(n as nat);
    number::lemma_decimal_digits(n as nat);
    number::lemma_decimal_value(n as nat);
    if n < 10 {
        assert(d =~= seq![number::digit_char(n as nat)]);
        assert(s =~= seq!['0', d[0]]);
        assert(text::is_digit(d[0]));
        assert(s.drop_last() =~= seq!['0']);
        assert(s.drop_last().drop_last() =~= seq![]);
        assert(d.drop_last() =~= seq![]);
        reveal_with_fuel(number::digits_value, 3);
        assert(number::all_digits(s)) by {
            assert forall|i: int| 0 <= i < s.len() implies text::is_digit(#[trigger] s[i]) by {
                assert(s[i] == '0' || s[i] == d[0]);
            }
        }
    }
}

/// A number below a hundred in two digits matches that number.
pub proof fn lemma_padded(n: nat)
    requires
        n < 100,
    ensures
        is_numeric(number::padded(n, 2)),
        forall|v: int| #[trigger] part_matches(number::padded(n, 2), v) <==> v == n,
{
    let s = number::padded(n, 2);
    let d = number::decimal(n);
    number::lemma_decimal_digits(n);
    if n < 10 {
        assert(d =~= seq![number::digit_char(n)]);
        assert(number::zeros(1) =~= seq!['0']);
        assert(s =~= cron::two_digits(n as int));
    } else {
        assert(number::decimal(n / 10) =~= seq![number::digit_char(n / 10)]);
        assert(d.len() == 2);
        assert(s =~= cron::two_digits(n as int));
    }
    lemma_two_digits(n as int);
    assert forall|i: int| 0 <= i < s.len() implies text::is_digit(#[trigger] s[i]) by {}
    assert(!s.contains(','));
    lemma_split_one(s, ',');
    assert(s != seq!['*']) by {
        assert(text::is_digit(s[0]));
    }
    assert forall|v: int| #[trigger] part_matches(s, v) <==> v == n by {
        assert(parts::split_of(s, ',')[0] == s);
        if part_matches(s, v) {
            let i = choose|i: int|
                0 <= i < parts::split_of(s, ',').len() && reads_as(
                    #[trigger] parts::split_of(s, ',')[i],
                    v,
                );
            assert(i == 0);
        }
    }
}

/// `*` in any place of a date or a time.
pub proof fn lemma_any()
    ensures
        is_numeric("*"@),
        forall|v: int| #[trigger] part_matches("*"@, v),
{
    reveal_strlit("*");
    assert("*"@ =~= seq!['*']);
}

proof fn lemma_filter_len(s: Seq<int>, p: spec_fn(int) -> bool)
    ensures
        s.filter(p).len() <= s.len(),
        s.filter(p).len() == s.len() <==> forall|i: int| 0 <= i < s.len() ==> p(#[trigger] s[i]),
    decreases s.len(),
{
    reveal(Seq::filter);
    if s.len() > 0 {
        let d = s.drop_last();
        lemma_filter_len(d, p);
        if s.filter(p).len() == s.len() {
            assert forall|i: int| 0 <= i < s.len() implies p(#[trigger] s[i]) by {
                if i < d.len() {
                    assert(d[i] == s[i]);
                }
            }
        }
        if forall|i: int| 0 <= i < s.len() ==> p(#[trigger] s[i]) {
            assert forall|i: int| 0 <= i < d.len() implies p(#[trigger] d[i]) by {
                assert(d[i] == s[i]);
            }
            assert(p(s[s.len() - 1]));
        }
    }
}

/// A field takes the values of its range that belong to it, and all of them
/// where it leaves none out.
proof fn lemma_values(field: Seq<char>, kind: Kind)
    ensures
        forall|v: int|
            #![trigger cron::in_field(field, kind, v)]
            cron::field_values(field, kind).contains(v) <==> kind.least() <= v <= kind.greatest()
                && cron::in_field(field, kind, v),
        cron::field_is_all(field, kind) <==> !is_restricted(field, kind),
{
    let r = cron::range_values(kind);
    let p = |v: int| cron::in_field(field, kind, v);
    let f = cron::field_values(field, kind);
    assert(f == r.filter(p));
    assert forall|v: int|
        #![trigger cron::in_field(field, kind, v)]
        f.contains(v) <==> kind.least() <= v <= kind.greatest() && cron::in_field(
            field,
            kind,
            v,
        ) by {
        if f.contains(v) {
            let i = choose|i: int| 0 <= i < f.len() && f[i] == v;
            r.lemma_filter_pred(p, i);
            cron::law_field_values(field, kind);
            assert(p(v));
        }
        if kind.least() <= v <= kind.greatest() && cron::in_field(field, kind, v) {
            let i = v - kind.least();
            assert(r[i] == v);
            assert(p(r[i]));
            r.lemma_filter_contains(p, i);
        }
    }
    lemma_filter_len(r, p);
    if cron::field_is_all(field, kind) {
        assert forall|v: int| kind.least() <= v <= kind.greatest() implies #[trigger] cron::in_field(
            field,
            kind,
            v,
        ) by {
            assert(p(r[v - kind.least()]));
        }
    } else {
        let i = choose|i: int| 0 <= i < r.len() && !p(#[trigger] r[i]);
        assert(!cron::in_field(field, kind, r[i]));
    }
}

/// The list of a field's values matches what belongs to the field.
proof fn lemma_numeric(field: Seq<char>, kind: Kind)
    ensures
        is_numeric(cron::numeric_of(field, kind)),
        cron::numeric_of(field, kind) == "*"@ <==> !is_restricted(field, kind),
        forall|v: int|
            kind.least() <= v <= kind.greatest() ==> (#[trigger] part_matches(
                cron::numeric_of(field, kind),
                v,
            ) <==> cron::in_field(field, kind, v)),
{
    reveal_strlit("*");
    reveal_strlit(",");
    assert("*"@ =~= seq!['*']);
    assert(","@ =~= seq![',']);
    lemma_values(field, kind);
    let s = cron::numeric_of(field, kind);
    let vals = cron::field_values(field, kind);
    if cron::field_is_all(field, kind) {
        assert forall|v: int| kind.least() <= v <= kind.greatest() implies (#[trigger] part_matches(
            s,
            v,
        ) <==> cron::in_field(field, kind, v)) by {}
    } else {
        let p = Seq::new(vals.len(), |i: int| cron::two_digits(vals[i]));
        cron::law_field_values(field, kind);
        assert forall|i: int| 0 <= i < p.len() implies reads_as(#[trigger] p[i], vals[i]) by {
            lemma_two_digits(vals[i]);
        }
        assert forall|i: int| 0 <= i < p.len() implies number::all_digits(#[trigger] p[i]) by {
            assert(reads_as(p[i], vals[i]));
        }
        lemma_join_numeric(p);
        assert(s == parts::join_of(p, seq![',']));
        if s == seq!['*'] {
            assert(s.contains(s[0]));
        }
        if p.len() == 0 {
            assert(s =~= seq![]);
            lemma_split_one(s, ',');
            assert(parts::split_of(s, ',')[0] == s);
        } else {
            assert forall|i: int| 0 <= i < p.len() implies !(#[trigger] p[i]).contains(',') by {
                assert(number::all_digits(p[i]));
            }
            parts::lemma_split_join(p, ',');
        }
        assert forall|v: int| kind.least() <= v <= kind.greatest() implies (#[trigger] part_matches(
            s,
            v,
        ) <==> cron::in_field(field, kind, v)) by {
            if part_matches(s, v) {
                let i = choose|i: int|
                    0 <= i < parts::split_of(s, ',').len() && reads_as(
                        #[trigger] parts::split_of(s, ',')[i],
                        v,
                    );
                assert(reads_as(p[i], vals[i]));
                assert(vals[i] == v);
                assert(vals.contains(v));
            }
            if cron::in_field(field, kind, v) {
                assert(vals.contains(v));
                let i = choose|i: int| 0 <= i < vals.len() && vals[i] == v;
                assert(reads_as(p[i], vals[i]));
                assert(parts::split_of(s, ',')[i] == p[i]);
            }
        }
    }
}

pub proof fn lemma_day_name(d: int)
    requires
        0 <= d <= 6,
    ensures
        weekday_named(cron::systemd_day(d)) == Some(d),
        is_worded(cron::systemd_day(d)),
        !cron::systemd_day(d).contains(','),
        cron::systemd_day(d).len() == 3,
{
    reveal_strlit("Mon");
    reveal_strlit("Tue");
    reveal_strlit("Wed");
    reveal_strlit("Thu");
    reveal_strlit("Fri");
    reveal_strlit("Sat");
    reveal_strlit("Sun");
    let s = cron::systemd_day(d);
    let want = if d == 0 {
        seq!['S', 'u', 'n']
    } else if d == 1 {
        seq!['M', 'o', 'n']
    } else if d == 2 {
        seq!['T', 'u', 'e']
    } else if d == 3 {
        seq!['W', 'e', 'd']
    } else if d == 4 {
        seq!['T', 'h', 'u']
    } else if d == 5 {
        seq!['F', 'r', 'i']
    } else {
        seq!['S', 'a', 't']
    };
    assert(s =~= want);
    let (a, b, c) = (want[0], want[1], want[2]);
    assert(forall|x: Seq<char>| #![trigger x.len()] x == want ==> x[0] == a && x[1] == b);
    assert(seq!['S', 'u', 'n'][0] == 'S' && seq!['S', 'u', 'n'][1] == 'u');
    assert(seq!['M', 'o', 'n'][0] == 'M');
    assert(seq!['T', 'u', 'e'][0] == 'T' && seq!['T', 'u', 'e'][1] == 'u');
    assert(seq!['W', 'e', 'd'][0] == 'W');
    assert(seq!['T', 'h', 'u'][0] == 'T' && seq!['T', 'h', 'u'][1] == 'h');
    assert(seq!['F', 'r', 'i'][0] == 'F');
    assert(seq!['S', 'a', 't'][0] == 'S' && seq!['S', 'a', 't'][1] == 'a');
}

/// Whether a text is the name of one of the first `n` days of the week that
/// belong to a field.
spec fn is_day_of(field: Seq<char>, n: int, x: Seq<char>) -> bool {
    exists|k: int|
        #![trigger cron::week()[k]]
        0 <= k < n && x == cron::systemd_day(cron::week()[k]) && cron::field_values(
            field,
            Kind::Dow,
        ).contains(cron::week()[k])
}

/// The named days are those that belong to the field.
proof fn lemma_day_list(field: Seq<char>, n: int)
    requires
        0 <= n <= 7,
    ensures
        ({
            let days = cron::day_list(field, n);
            let vals = cron::field_values(field, Kind::Dow);
            &&& forall|i: int| 0 <= i < days.len() ==> is_day_of(field, n, #[trigger] days[i])
            &&& forall|k: int|
                0 <= k < n && vals.contains(#[trigger] cron::week()[k]) ==> days.contains(
                    cron::systemd_day(cron::week()[k]),
                )
        }),
    decreases n,
{
    if n > 0 {
        lemma_day_list(field, n - 1);
        let less = cron::day_list(field, n - 1);
        let days = cron::day_list(field, n);
        let vals = cron::field_values(field, Kind::Dow);
        let w = cron::week();
        assert forall|i: int| 0 <= i < days.len() implies is_day_of(
            field,
            n,
            #[trigger] days[i],
        ) by {
            if i < less.len() {
                assert(days[i] == less[i]);
                assert(is_day_of(field, n - 1, less[i]));
                let k = choose|k: int|
                    #![trigger cron::week()[k]]
                    0 <= k < n - 1 && less[i] == cron::systemd_day(cron::week()[k])
                        && vals.contains(cron::week()[k]);
                assert(days[i] == cron::systemd_day(w[k]));
            } else {
                assert(days[i] == cron::systemd_day(w[n - 1]));
            }
        }
        assert forall|k: int| 0 <= k < n && vals.contains(#[trigger] cron::week()[k]) implies
            days.contains(cron::systemd_day(cron::week()[k])) by {
            let x = cron::systemd_day(w[k]);
            if k < n - 1 {
                assert(less.contains(x));
                let i = choose|i: int| 0 <= i < less.len() && less[i] == x;
                assert(days[i] == x);
            } else {
                assert(days[days.len() - 1] == x);
            }
        }
    }
}

/// The named days of a restricted field, as they are read back.
#[verifier::spinoff_prover]
proof fn lemma_weekdays(field: Seq<char>)
    requires
        exists|v: int| 0 <= v <= 6 && #[trigger] cron::in_field(field, Kind::Dow, v),
        !cron::field_is_all(field, Kind::Dow),
    ensures
        is_worded(cron::dow_of(field)),
        cron::dow_of(field).len() > 0,
        parts::split_of(cron::dow_of(field), ',') == cron::day_list(field, 7),
{
    reveal_strlit(",");
    assert(","@ =~= seq![',']);
    lemma_values(field, Kind::Dow);
    let days = cron::day_list(field, 7);
    let s = cron::dow_of(field);
    let vals = cron::field_values(field, Kind::Dow);
    let w = cron::week();
    lemma_day_list(field, 7);
    assert forall|i: int| 0 <= i < days.len() implies is_worded(#[trigger] days[i])
        && !days[i].contains(',') && days[i].len() == 3 by {
        assert(is_day_of(field, 7, days[i]));
        let k = choose|k: int|
            #![trigger cron::week()[k]]
            0 <= k < 7 && days[i] == cron::systemd_day(cron::week()[k]) && vals.contains(
                cron::week()[k],
            );
        lemma_day_name(w[k]);
    }
    lemma_join_worded(days);
    let v0 = choose|v: int| 0 <= v <= 6 && #[trigger] cron::in_field(field, Kind::Dow, v);
    let k0 = if v0 == 0 {
        6
    } else {
        v0 - 1
    };
    assert(w[k0] == v0);
    assert(vals.contains(w[k0]));
    assert(days.contains(cron::systemd_day(w[k0])));
    assert(days.len() > 0);
    parts::lemma_split_join(days, ',');
    if s.len() == 0 {
        lemma_split_one(s, ',');
        assert(days[0] == s);
        assert(days[0].len() == 3);
    }
}

#[verifier::spinoff_prover]
proof fn lemma_weekday_belongs(field: Seq<char>, v: int)
    requires
        parts::split_of(cron::dow_of(field), ',') == cron::day_list(field, 7),
        0 <= v <= 6,
        weekdays_match(cron::dow_of(field), v),
    ensures
        cron::field_values(field, Kind::Dow).contains(v),
{
    let days = cron::day_list(field, 7);
    let s = cron::dow_of(field);
    let vals = cron::field_values(field, Kind::Dow);
    lemma_day_list(field, 7);
    let i = choose|i: int|
        0 <= i < parts::split_of(s, ',').len() && weekday_named(
            #[trigger] parts::split_of(s, ',')[i],
        ) == Some(v);
    assert(is_day_of(field, 7, days[i]));
    let k = choose|k: int|
        #![trigger cron::week()[k]]
        0 <= k < 7 && days[i] == cron::systemd_day(cron::week()[k]) && vals.contains(
            cron::week()[k],
        );
    lemma_day_name(cron::week()[k]);
}

#[verifier::spinoff_prover]
proof fn lemma_weekday_listed(field: Seq<char>, v: int)
    requires
        parts::split_of(cron::dow_of(field), ',') == cron::day_list(field, 7),
        0 <= v <= 6,
        cron::field_values(field, Kind::Dow).contains(v),
    ensures
        weekdays_match(cron::dow_of(field), v),
{
    let days = cron::day_list(field, 7);
    let s = cron::dow_of(field);
    lemma_day_list(field, 7);
    lemma_day_name(v);
    let k = if v == 0 {
        6
    } else {
        v - 1
    };
    assert(cron::week()[k] == v);
    let x = cron::systemd_day(v);
    assert(days.contains(x));
    let i = choose|i: int| 0 <= i < days.len() && days[i] == x;
    assert(weekday_named(parts::split_of(s, ',')[i]) == Some(v));
}

/// The list of a field's weekdays matches what belongs to the field.
proof fn lemma_weekday_at(field: Seq<char>, v: int)
    requires
        exists|v: int| 0 <= v <= 6 && #[trigger] cron::in_field(field, Kind::Dow, v),
        0 <= v <= 6,
    ensures
        is_worded(cron::dow_of(field)),
        cron::dow_of(field).len() == 0 <==> !is_restricted(field, Kind::Dow),
        is_restricted(field, Kind::Dow) ==> (weekdays_match(cron::dow_of(field), v)
            <==> cron::in_field(field, Kind::Dow, v)),
        !is_restricted(field, Kind::Dow) ==> cron::in_field(field, Kind::Dow, v),
{
    lemma_values(field, Kind::Dow);
    if !cron::field_is_all(field, Kind::Dow) {
        lemma_weekdays(field);
        assert(cron::field_values(field, Kind::Dow).contains(v) <==> cron::in_field(
            field,
            Kind::Dow,
            v,
        ));
        if weekdays_match(cron::dow_of(field), v) {
            lemma_weekday_belongs(field, v);
        }
        if cron::in_field(field, Kind::Dow, v) {
            lemma_weekday_listed(field, v);
        }
    }
}

/// The list of a field's values matches what belongs to the field.
proof fn lemma_part_at(field: Seq<char>, kind: Kind, v: int)
    requires
        kind.least() <= v <= kind.greatest(),
    ensures
        is_numeric(cron::numeric_of(field, kind)),
        cron::numeric_of(field, kind) == "*"@ <==> !is_restricted(field, kind),
        part_matches(cron::numeric_of(field, kind), v) == cron::in_field(field, kind, v),
{
    lemma_numeric(field, kind);
    assert(part_matches(cron::numeric_of(field, kind), v) <==> cron::in_field(field, kind, v));
}

// ---------------------------------------------------------------------------
// What a valid field holds
// ---------------------------------------------------------------------------

proof fn lemma_term_holds_its_first(term: Seq<char>, field: Seq<char>, kind: Kind)
    requires
        cron::term_of(term, field, kind) is Ok,
    ensures
        ({
            let t = cron::term_of(term, field, kind)->Ok_0;
            kind.least() <= t.0 <= kind.greatest() && t.2 >= 1 && cron::in_term(t, t.0)
        }),
{
    let t = cron::term_of(term, field, kind)->Ok_0;
    assert(t.2 >= 1);
    assert(0int % t.2 == 0) by (nonlinear_arith)
        requires
            t.2 >= 1,
    ;
    assert(t.0 - t.0 == 0);
}

proof fn lemma_no_error(terms: Seq<Seq<char>>, field: Seq<char>, kind: Kind)
    requires
        cron::terms_error(terms, field, kind) is None,
    ensures
        forall|i: int|
            0 <= i < terms.len() ==> cron::term_of(#[trigger] terms[i], field, kind) is Ok,
    decreases terms.len(),
{
    if terms.len() > 0 {
        lemma_no_error(terms.drop_last(), field, kind);
        assert forall|i: int| 0 <= i < terms.len() implies cron::term_of(
            #[trigger] terms[i],
            field,
            kind,
        ) is Ok by {
            if i < terms.len() - 1 {
                assert(terms.drop_last()[i] == terms[i]);
            }
        }
    }
}

/// A valid field matches something.
proof fn lemma_not_empty(field: Seq<char>, kind: Kind)
    requires
        cron::field_error(field, kind) is None,
    ensures
        exists|v: int|
            kind.least() <= v <= kind.greatest() && #[trigger] cron::in_field(field, kind, v),
{
    let terms = parts::split_of(field, ',');
    parts::lemma_join_split(field, ',');
    lemma_no_error(terms, field, kind);
    assert(cron::term_of(terms[0], field, kind) is Ok);
    lemma_term_holds_its_first(terms[0], field, kind);
    let t = cron::term_of(terms[0], field, kind)->Ok_0;
    assert(cron::in_field(field, kind, t.0));
}

// ---------------------------------------------------------------------------
// The lines of an expression
// ---------------------------------------------------------------------------

spec fn day_free(s: Seq<char>) -> bool {
    !s.contains(' ') && !s.contains('-') && !s.contains(':')
}

proof fn lemma_numeric_free(s: Seq<char>)
    requires
        is_numeric(s) || is_worded(s),
    ensures
        day_free(s),
{
    assert forall|i: int| 0 <= i < s.len() implies #[trigger] s[i] != ' ' && s[i] != '-' && s[i]
        != ':' by {}
}

/// A line of parts matches where its parts do.
pub proof fn lemma_line(
    dow: Seq<char>,
    month: Seq<char>,
    dom: Seq<char>,
    hour: Seq<char>,
    minute: Seq<char>,
    t: Instant,
)
    requires
        t.is_valid(),
        is_worded(dow),
        is_numeric(month),
        is_numeric(dom),
        is_numeric(hour),
        is_numeric(minute),
    ensures
        ({
            let time = hour + ":"@ + minute + ":00"@;
            let date = "*-"@ + month + "-"@ + dom + " "@ + time;
            let all = part_matches(month, t.month) && part_matches(dom, t.day) && part_matches(
                hour,
                t.hour,
            ) && part_matches(minute, t.minute) && t.second == 0;
            &&& spec_matches(date, t) == all
            &&& dow.len() > 0 ==> spec_matches(
                dow + " *-"@ + month + "-"@ + dom + " "@ + time,
                t,
            ) == (all && weekdays_match(dow, t.weekday))
        }),
{
    reveal_strlit(":");
    reveal_strlit(":00");
    reveal_strlit("*-");
    reveal_strlit("-");
    reveal_strlit(" ");
    reveal_strlit(" *-");
    lemma_numeric_free(dow);
    lemma_numeric_free(month);
    lemma_numeric_free(dom);
    lemma_numeric_free(hour);
    lemma_numeric_free(minute);
    let zero = seq!['0', '0'];
    let star = seq!['*'];
    let time = hour + seq![':'] + minute + seq![':'] + zero;
    let date = star + seq!['-'] + month + seq!['-'] + dom;
    assert(hour + ":"@ + minute + ":00"@ =~= time);
    assert(!zero.contains(':')) by {
        assert(zero[0] == '0' && zero[1] == '0');
    }
    assert(!star.contains('-')) by {
        assert(star[0] == '*');
    }
    lemma_split_three(hour, minute, zero, ':');
    lemma_split_three(star, month, dom, '-');
    assert forall|i: int| 0 <= i < time.len() implies #[trigger] time[i] != ' ' by {
        if i < hour.len() {
            assert(time[i] == hour[i]);
            assert(hour.contains(hour[i]));
        } else if i == hour.len() {
            assert(time[i] == ':');
        } else if i < hour.len() + 1 + minute.len() {
            assert(time[i] == minute[i - hour.len() - 1]);
            assert(minute.contains(minute[i - hour.len() - 1]));
        } else if i == hour.len() + 1 + minute.len() {
            assert(time[i] == ':');
        } else {
            assert(time[i] == '0');
        }
    }
    assert forall|i: int| 0 <= i < date.len() implies #[trigger] date[i] != ' ' by {
        if i == 0 {
            assert(date[i] == '*');
        } else if i == 1 {
            assert(date[i] == '-');
        } else if i < 2 + month.len() {
            assert(date[i] == month[i - 2]);
            assert(month.contains(month[i - 2]));
        } else if i == 2 + month.len() {
            assert(date[i] == '-');
        } else {
            assert(date[i] == dom[i - month.len() - 3]);
            assert(dom.contains(dom[i - month.len() - 3]));
        }
    }
    lemma_split_two(date, time, ' ');
    lemma_split_three(dow, date, time, ' ');
    assert("*-"@ + month + "-"@ + dom + " "@ + time =~= date + seq![' '] + time);
    assert(dow + " *-"@ + month + "-"@ + dom + " "@ + time =~= dow + seq![' '] + date + seq![' ']
        + time);
    assert(part_matches(star, t.year));
    // The seconds.
    assert forall|i: int| 0 <= i < zero.len() implies #[trigger] zero[i] != ',' by {
        assert(zero[i] == '0');
    }
    lemma_split_one(zero, ',');
    assert(zero.drop_last() =~= seq!['0']);
    assert(zero.drop_last().drop_last() =~= seq![]);
    reveal_with_fuel(number::digits_value, 3);
    assert(number::digits_value(zero) == 0);
    assert(number::all_digits(zero)) by {
        assert forall|i: int| 0 <= i < zero.len() implies text::is_digit(#[trigger] zero[i]) by {
            assert(zero[i] == '0');
        }
    }
    assert(zero != seq!['*']) by {
        assert(zero.len() == 2);
    }
    assert(part_matches(zero, t.second) == (t.second == 0)) by {
        assert(parts::split_of(zero, ',')[0] == zero);
        if part_matches(zero, t.second) {
            let i = choose|i: int|
                0 <= i < parts::split_of(zero, ',').len() && reads_as(
                    #[trigger] parts::split_of(zero, ',')[i],
                    t.second,
                );
            assert(i == 0);
        }
    }
}

/// Whether the parts of the time, and the month, match.
spec fn clock_matches(
    month: Seq<char>,
    hour: Seq<char>,
    minute: Seq<char>,
    t: Instant,
) -> bool {
    part_matches(month, t.month) && part_matches(hour, t.hour) && part_matches(minute, t.minute)
        && t.second == 0
}

/// When the lines of five fields match, by the parts they are made of.
proof fn lemma_lines(f: Seq<Seq<char>>, t: Instant)
    requires
        t.is_valid(),
        is_worded(cron::dow_of(f[4])),
        is_numeric(cron::numeric_of(f[0], Kind::Min)),
        is_numeric(cron::numeric_of(f[1], Kind::Hour)),
        is_numeric(cron::numeric_of(f[2], Kind::Dom)),
        is_numeric(cron::numeric_of(f[3], Kind::Month)),
    ensures
        ({
            let dom = cron::numeric_of(f[2], Kind::Dom);
            let dow = cron::dow_of(f[4]);
            let clock = clock_matches(
                cron::numeric_of(f[3], Kind::Month),
                cron::numeric_of(f[1], Kind::Hour),
                cron::numeric_of(f[0], Kind::Min),
                t,
            );
            one_matches(cron::calendar_lines(f), t) == (clock && if dow.len() == 0 {
                part_matches(dom, t.day)
            } else if dom == "*"@ {
                weekdays_match(dow, t.weekday)
            } else {
                part_matches(dom, t.day) || weekdays_match(dow, t.weekday)
            })
        }),
{
    let lines = cron::calendar_lines(f);
    let minute = cron::numeric_of(f[0], Kind::Min);
    let hour = cron::numeric_of(f[1], Kind::Hour);
    let dom = cron::numeric_of(f[2], Kind::Dom);
    let month = cron::numeric_of(f[3], Kind::Month);
    let dow = cron::dow_of(f[4]);
    let any = "*"@;
    reveal_strlit("*");
    assert(any =~= seq!['*']);
    assert(is_numeric(any));
    lemma_line(dow, month, dom, hour, minute, t);
    lemma_line(dow, month, any, hour, minute, t);
    let time = hour + ":"@ + minute + ":00"@;
    assert(dow + " *-"@ + month + "-* "@ + time =~= dow + " *-"@ + month + "-"@ + any + " "@
        + time) by {
        reveal_strlit("-* ");
        reveal_strlit("-");
        reveal_strlit(" ");
    }
    assert(part_matches(any, t.day));
    if dom != "*"@ && dow.len() > 0 {
        assert(lines.len() == 2);
        assert(one_matches(lines, t) == (spec_matches(lines[0], t) || spec_matches(lines[1], t)));
    } else {
        assert(lines.len() == 1);
        assert(one_matches(lines, t) == spec_matches(lines[0], t));
    }
}

/// The calendar lines of five cron fields match a time exactly when cron
/// fires at it.
pub proof fn law_lines_match_when_cron_fires(f: Seq<Seq<char>>, t: Instant)
    requires
        f.len() == 5,
        t.is_valid(),
        cron::fields_calendar(f) is Ok,
    ensures
        cron::fields_calendar(f)->Ok_0 matches Some(lines) && (one_matches(lines, t)
            <==> cron_fires(f, t)),
{
    reveal(cron::fields_calendar);
    lemma_part_at(f[0], Kind::Min, t.minute);
    lemma_part_at(f[1], Kind::Hour, t.hour);
    lemma_part_at(f[2], Kind::Dom, t.day);
    lemma_part_at(f[3], Kind::Month, t.month);
    lemma_not_empty(f[4], Kind::Dow);
    lemma_weekday_at(f[4], t.weekday);
    lemma_lines(f, t);
    if !is_restricted(f[2], Kind::Dom) {
        assert(cron::in_field(f[2], Kind::Dom, t.day));
    }
}

// ---------------------------------------------------------------------------
// What fields match
// ---------------------------------------------------------------------------

proof fn lemma_no_char(s: Seq<char>, c: char)
    requires
        !s.contains(c),
    ensures
        parts::split_once_of(s, c) is None,
{
    assert forall|i: int| 0 <= i < s.len() implies #[trigger] s[i] != c by {
        assert(s.contains(s[i]));
    }
    text::lemma_first_index_at(s, c, s.len() as int);
}

pub proof fn lemma_split_once(a: Seq<char>, b: Seq<char>, c: char)
    requires
        !a.contains(c),
    ensures
        parts::split_once_of(a + seq![c] + b, c) == Some((a, b)),
{
    let s = a + seq![c] + b;
    let k = a.len() as int;
    assert(s[k] == c);
    assert forall|i: int| 0 <= i < k implies #[trigger] s[i] != c by {
        assert(s[i] == a[i]);
        assert(a.contains(a[i]));
    }
    text::lemma_first_index_at(s, c, k);
    assert(s.take(k) =~= a);
    assert(s.skip(k + 1) =~= b);
}

/// A number in digits holds no other character.
pub proof fn lemma_decimal(n: nat)
    ensures
        number::decimal(n).len() > 0,
        number::all_digits(number::decimal(n)),
        number::digits_value(number::decimal(n)) == n,
        text::lower_text(number::decimal(n)) == number::decimal(n),
        forall|c: char| #[trigger] number::decimal(n).contains(c) ==> text::is_digit(c),
{
    let d = number::decimal(n);
    number::lemma_decimal_digits(n);
    number::lemma_decimal_value(n);
    assert(text::lower_text(d) =~= d) by {
        assert forall|i: int| 0 <= i < d.len() implies text::lower_of(#[trigger] d[i]) == d[i] by {
            assert(text::is_digit(d[i]));
        }
    }
    assert forall|c: char| #[trigger] d.contains(c) implies text::is_digit(c) by {
        let i = choose|i: int| 0 <= i < d.len() && d[i] == c;
        assert(text::is_digit(d[i]));
    }
}

proof fn lemma_token(n: nat, kind: Kind)
    requires
        kind.least() <= n <= kind.greatest(),
    ensures
        cron::token_value(number::decimal(n), kind) == Ok::<int, Seq<char>>(n as int),
{
    lemma_decimal(n);
}

/// What the part of a term before its step names.
proof fn lemma_range_star(stepped: bool, kind: Kind)
    ensures
        cron::term_range("*"@, stepped, kind) == Ok::<(int, int), Seq<char>>(
            (kind.least(), kind.greatest()),
        ),
{
}

proof fn lemma_range_number(n: nat, stepped: bool, kind: Kind)
    requires
        kind.least() <= n <= kind.greatest(),
    ensures
        cron::term_range(number::decimal(n), stepped, kind) == Ok::<(int, int), Seq<char>>(
            (
                n as int,
                if stepped {
                    kind.greatest()
                } else {
                    n as int
                },
            ),
        ),
{
    lemma_decimal(n);
    lemma_token(n, kind);
    reveal_strlit("*");
    assert(number::decimal(n) != "*"@) by {
        assert(text::is_digit(number::decimal(n)[0]));
    }
    assert(!number::decimal(n).contains('-'));
    lemma_no_char(number::decimal(n), '-');
}

proof fn lemma_range_pair(a: nat, b: nat, stepped: bool, kind: Kind)
    requires
        kind.least() <= a <= kind.greatest(),
        kind.least() <= b <= kind.greatest(),
    ensures
        cron::term_range(number::decimal(a) + seq!['-'] + number::decimal(b), stepped, kind)
            == Ok::<(int, int), Seq<char>>((a as int, b as int)),
{
    let s = number::decimal(a) + seq!['-'] + number::decimal(b);
    lemma_decimal(a);
    lemma_decimal(b);
    lemma_token(a, kind);
    lemma_token(b, kind);
    reveal_strlit("*");
    assert(s != "*"@) by {
        assert(s[0] == number::decimal(a)[0]);
        assert(text::is_digit(number::decimal(a)[0]));
    }
    lemma_split_once(number::decimal(a), number::decimal(b), '-');
}

/// What a term without a step denotes, by what it names.
proof fn lemma_plain_term(base: Seq<char>, field: Seq<char>, kind: Kind)
    requires
        base.len() > 0,
        !base.contains('/'),
        cron::term_range(base, false, kind) is Ok,
    ensures
        ({
            let r = cron::term_range(base, false, kind)->Ok_0;
            r.0 <= r.1 || kind == Kind::Dow ==> cron::term_of(base, field, kind) == Ok::<
                (int, int, int),
                Seq<char>,
            >((r.0, r.1, 1))
        }),
{
    lemma_no_char(base, '/');
}

/// What a term with a step denotes, by what stands before it.
proof fn lemma_stepped_term(base: Seq<char>, n: nat, field: Seq<char>, kind: Kind)
    requires
        !base.contains('/'),
        1 <= n <= u32::MAX,
        cron::term_range(base, true, kind) is Ok,
    ensures
        ({
            let r = cron::term_range(base, true, kind)->Ok_0;
            r.0 <= r.1 || kind == Kind::Dow ==> cron::term_of(
                base + seq!['/'] + number::decimal(n),
                field,
                kind,
            ) == Ok::<(int, int, int), Seq<char>>((r.0, r.1, n as int))
        }),
{
    let term = base + seq!['/'] + number::decimal(n);
    lemma_decimal(n);
    lemma_split_once(base, number::decimal(n), '/');
    assert(!number::decimal(n).contains('/'));
    assert(term[base.len() as int] == '/');
    assert(term.contains('/'));
}

/// Characters that make up one term.
spec fn is_term_text(s: Seq<char>) -> bool {
    s.len() > 0 && forall|i: int|
        0 <= i < s.len() ==> cron::is_field_char(#[trigger] s[i]) && s[i] != ','
}

proof fn lemma_decimal_text(n: nat)
    ensures
        is_term_text(number::decimal(n)),
{
    lemma_decimal(n);
    let d = number::decimal(n);
    assert forall|i: int| 0 <= i < d.len() implies cron::is_field_char(#[trigger] d[i]) && d[i]
        != ',' by {
        assert(text::is_digit(d[i]));
    }
}

proof fn lemma_text_joined(a: Seq<char>, c: char, b: Seq<char>)
    requires
        is_term_text(a),
        is_term_text(b),
        c == '-' || c == '/',
    ensures
        is_term_text(a + seq![c] + b),
{
    let s = a + seq![c] + b;
    assert forall|i: int| 0 <= i < s.len() implies cron::is_field_char(#[trigger] s[i]) && s[i]
        != ',' by {
        if i < a.len() {
            assert(s[i] == a[i]);
        } else if i > a.len() {
            assert(s[i] == b[i - a.len() - 1]);
        }
    }
}

/// A field of one term matches what the term denotes.
proof fn lemma_one_term(field: Seq<char>, kind: Kind, t: (int, int, int))
    requires
        is_term_text(field),
        cron::term_of(field, field, kind) == Ok::<(int, int, int), Seq<char>>(t),
    ensures
        cron::field_error(field, kind) is None,
        forall|v: int| #[trigger] cron::in_field(field, kind, v) == cron::in_term(t, v),
{
    assert(!field.contains(','));
    lemma_split_one(field, ',');
    let terms = parts::split_of(field, ',');
    assert(terms.drop_last() =~= seq![]);
    reveal_with_fuel(cron::terms_error, 2);
    assert forall|v: int| #[trigger] cron::in_field(field, kind, v) == cron::in_term(t, v) by {
        assert(terms[0] == field);
    }
}

/// The values from `lo` to `hi`, around the end of the week where `lo` comes
/// after `hi`.
pub open spec fn is_between(lo: int, hi: int, v: int) -> bool {
    if lo <= hi {
        lo <= v <= hi
    } else {
        lo <= v <= 6 || 0 <= v <= hi
    }
}

/// Whether `v` is a whole number of steps of `n` after `lo`, on a dial of
/// seven where it comes before `lo`.
pub open spec fn is_step_from(lo: int, n: int, v: int) -> bool {
    exists|k: int| k >= 0 && lo + #[trigger] (k * n) == if v < lo {
        v + 7
    } else {
        v
    }
}

proof fn lemma_steps(lo: int, n: int, v: int)
    requires
        n >= 1,
        v >= lo,
    ensures
        is_step_from(lo, n, v) <==> (v - lo) % n == 0,
{
    vstd::arithmetic::div_mod::lemma_fundamental_div_mod(v - lo, n);
    if (v - lo) % n == 0 {
        let k = (v - lo) / n;
        vstd::arithmetic::div_mod::lemma_div_pos_is_pos(v - lo, n);
        assert(k * n == n * k) by (nonlinear_arith);
        assert(lo + k * n == v);
    }
    if is_step_from(lo, n, v) {
        let k = choose|k: int| k >= 0 && lo + #[trigger] (k * n) == v;
        vstd::arithmetic::div_mod::lemma_mod_multiples_basic(k, n);
    }
}

proof fn lemma_steps_around(lo: int, n: int, v: int)
    requires
        n >= 1,
        0 <= v < lo <= 6,
    ensures
        is_step_from(lo, n, v) <==> ((v - lo) % 7) % n == 0,
{
    lemma_steps(lo, n, v + 7);
    assert((v - lo) % 7 == v + 7 - lo);
    if is_step_from(lo, n, v) {
        let k = choose|k: int| k >= 0 && lo + #[trigger] (k * n) == v + 7;
        assert(is_step_from(lo, n, v + 7));
    }
    if is_step_from(lo, n, v + 7) {
        let k = choose|k: int| k >= 0 && lo + #[trigger] (k * n) == v + 7;
        assert(is_step_from(lo, n, v));
    }
}

/// What the values of a range with a step are.
proof fn lemma_in_term(lo: int, hi: int, n: int, v: int)
    requires
        n >= 1,
        lo > hi ==> 0 <= hi && lo <= 6,
    ensures
        cron::in_term((lo, hi, n), v) <==> is_between(lo, hi, v) && is_step_from(lo, n, v),
{
    if lo <= hi {
        if v >= lo {
            lemma_steps(lo, n, v);
        }
    } else if v >= lo {
        lemma_steps(lo, n, v);
        if v <= 6 {
            assert((v - lo) % 7 == v - lo);
        }
    } else if 0 <= v {
        lemma_steps_around(lo, n, v);
    }
}

proof fn lemma_every_value(lo: int, hi: int, v: int)
    requires
        lo > hi ==> 0 <= hi && lo <= 6,
    ensures
        cron::in_term((lo, hi, 1), v) <==> is_between(lo, hi, v),
{
    lemma_in_term(lo, hi, 1, v);
    if is_between(lo, hi, v) {
        let k = if v < lo {
            v + 7 - lo
        } else {
            v - lo
        };
        assert(lo + k * 1 == if v < lo {
            v + 7
        } else {
            v
        });
    }
}

/// `*` matches every value of the field.
pub proof fn law_star_matches_everything(kind: Kind, v: int)
    ensures
        cron::field_error("*"@, kind) is None,
        cron::in_field("*"@, kind, v) <==> kind.least() <= v <= kind.greatest(),
{
    reveal_strlit("*");
    let s = "*"@;
    assert(s =~= seq!['*']);
    assert(is_term_text(s));
    assert(!s.contains('/'));
    lemma_range_star(false, kind);
    lemma_plain_term(s, s, kind);
    lemma_one_term(s, kind, (kind.least(), kind.greatest(), 1));
    lemma_every_value(kind.least(), kind.greatest(), v);
}

/// A number matches itself and nothing else.
pub proof fn law_number_matches_itself(n: nat, kind: Kind, v: int)
    requires
        kind.least() <= n <= kind.greatest(),
    ensures
        cron::field_error(number::decimal(n), kind) is None,
        cron::in_field(number::decimal(n), kind, v) <==> v == n,
{
    let s = number::decimal(n);
    lemma_decimal(n);
    lemma_decimal_text(n);
    assert(!s.contains('/'));
    lemma_range_number(n, false, kind);
    lemma_plain_term(s, s, kind);
    lemma_one_term(s, kind, (n as int, n as int, 1));
    lemma_every_value(n as int, n as int, v);
}

/// The weekday 7 is Sunday, like 0.
pub proof fn law_seven_is_sunday(v: int)
    ensures
        cron::field_error(number::decimal(7), Kind::Dow) is None,
        cron::in_field(number::decimal(7), Kind::Dow, v) <==> v == 0,
{
    let s = number::decimal(7);
    lemma_decimal(7);
    lemma_decimal_text(7);
    assert(!s.contains('/'));
    assert(!s.contains('-'));
    reveal_strlit("*");
    assert(text::is_digit(s[0]));
    lemma_no_char(s, '-');
    lemma_plain_term(s, s, Kind::Dow);
    lemma_one_term(s, Kind::Dow, (0, 0, 1));
    lemma_every_value(0, 0, v);
}

/// A number beyond the field is refused.
pub proof fn law_numbers_out_of_range_are_refused(n: nat, kind: Kind)
    requires
        !(kind.least() <= n <= kind.greatest()),
        !(kind == Kind::Dow && n == 7),
    ensures
        cron::field_error(number::decimal(n), kind) is Some,
{
    let s = number::decimal(n);
    lemma_decimal(n);
    lemma_decimal_text(n);
    assert(!s.contains('/'));
    assert(!s.contains('-'));
    assert(!s.contains(','));
    reveal_strlit("*");
    assert(text::is_digit(s[0]));
    lemma_no_char(s, '-');
    lemma_no_char(s, '/');
    lemma_split_one(s, ',');
    assert(parts::split_of(s, ',').drop_last() =~= seq![]);
    reveal_with_fuel(cron::terms_error, 2);
}

/// A range matches the values between its ends; one of weekdays may go around
/// the end of the week.
pub proof fn law_range_matches_between(a: nat, b: nat, kind: Kind, v: int)
    requires
        kind.least() <= a <= kind.greatest(),
        kind.least() <= b <= kind.greatest(),
        a <= b || kind == Kind::Dow,
    ensures
        ({
            let field = number::decimal(a) + seq!['-'] + number::decimal(b);
            &&& cron::field_error(field, kind) is None
            &&& cron::in_field(field, kind, v) <==> is_between(a as int, b as int, v)
        }),
{
    let s = number::decimal(a) + seq!['-'] + number::decimal(b);
    lemma_decimal(a);
    lemma_decimal(b);
    lemma_decimal_text(a);
    lemma_decimal_text(b);
    lemma_text_joined(number::decimal(a), '-', number::decimal(b));
    lemma_pair_free(a, b);
    lemma_range_pair(a, b, false, kind);
    lemma_plain_term(s, s, kind);
    lemma_one_term(s, kind, (a as int, b as int, 1));
    lemma_every_value(a as int, b as int, v);
}

proof fn lemma_pair_free(a: nat, b: nat)
    ensures
        !(number::decimal(a) + seq!['-'] + number::decimal(b)).contains('/'),
{
    let s = number::decimal(a) + seq!['-'] + number::decimal(b);
    lemma_decimal(a);
    lemma_decimal(b);
    assert forall|i: int| 0 <= i < s.len() implies #[trigger] s[i] != '/' by {
        if i < number::decimal(a).len() {
            assert(number::decimal(a).contains(s[i]));
        } else if i > number::decimal(a).len() {
            assert(s[i] == number::decimal(b)[i - number::decimal(a).len() - 1]);
            assert(number::decimal(b).contains(s[i]));
        }
    }
}

/// A range with a step matches every `n`-th of its values, from its first.
pub proof fn law_stepped_range(a: nat, b: nat, n: nat, kind: Kind, v: int)
    requires
        kind.least() <= a <= kind.greatest(),
        kind.least() <= b <= kind.greatest(),
        a <= b || kind == Kind::Dow,
        1 <= n <= u32::MAX,
    ensures
        ({
            let field = number::decimal(a) + seq!['-'] + number::decimal(b) + seq!['/']
                + number::decimal(n);
            &&& cron::field_error(field, kind) is None
            &&& cron::in_field(field, kind, v) <==> is_between(a as int, b as int, v)
                && is_step_from(a as int, n as int, v)
        }),
{
    let base = number::decimal(a) + seq!['-'] + number::decimal(b);
    let s = base + seq!['/'] + number::decimal(n);
    lemma_decimal_text(a);
    lemma_decimal_text(b);
    lemma_decimal_text(n);
    lemma_text_joined(number::decimal(a), '-', number::decimal(b));
    lemma_text_joined(base, '/', number::decimal(n));
    lemma_pair_free(a, b);
    lemma_range_pair(a, b, true, kind);
    lemma_stepped_term(base, n, s, kind);
    lemma_one_term(s, kind, (a as int, b as int, n as int));
    lemma_in_term(a as int, b as int, n as int, v);
}

/// `*` with a step matches every `n`-th value of the field, from its least.
pub proof fn law_stepped_star(n: nat, kind: Kind, v: int)
    requires
        1 <= n <= u32::MAX,
    ensures
        ({
            let field = "*"@ + seq!['/'] + number::decimal(n);
            &&& cron::field_error(field, kind) is None
            &&& cron::in_field(field, kind, v) <==> kind.least() <= v <= kind.greatest()
                && is_step_from(kind.least(), n as int, v)
        }),
{
    reveal_strlit("*");
    let base = "*"@;
    let s = base + seq!['/'] + number::decimal(n);
    assert(base =~= seq!['*']);
    assert(is_term_text(base));
    assert(!base.contains('/'));
    lemma_decimal_text(n);
    lemma_text_joined(base, '/', number::decimal(n));
    lemma_range_star(true, kind);
    lemma_stepped_term(base, n, s, kind);
    lemma_one_term(s, kind, (kind.least(), kind.greatest(), n as int));
    lemma_in_term(kind.least(), kind.greatest(), n as int, v);
}

/// A number with a step matches every `n`-th value from it to the end of the
/// field.
pub proof fn law_stepped_number(a: nat, n: nat, kind: Kind, v: int)
    requires
        kind.least() <= a <= kind.greatest(),
        1 <= n <= u32::MAX,
    ensures
        ({
            let field = number::decimal(a) + seq!['/'] + number::decimal(n);
            &&& cron::field_error(field, kind) is None
            &&& cron::in_field(field, kind, v) <==> a <= v <= kind.greatest() && is_step_from(
                a as int,
                n as int,
                v,
            )
        }),
{
    let base = number::decimal(a);
    let s = base + seq!['/'] + number::decimal(n);
    lemma_decimal(a);
    assert(!base.contains('/'));
    lemma_decimal_text(a);
    lemma_decimal_text(n);
    lemma_text_joined(base, '/', number::decimal(n));
    lemma_range_number(a, true, kind);
    lemma_stepped_term(base, n, s, kind);
    lemma_one_term(s, kind, (a as int, kind.greatest(), n as int));
    lemma_in_term(a as int, kind.greatest(), n as int, v);
}

pub proof fn lemma_split_list(x: Seq<char>, y: Seq<char>, c: char)
    ensures
        parts::split_of(x + seq![c] + y, c) == parts::split_of(x, c) + parts::split_of(y, c),
    decreases x.len(),
{
    let s = x + seq![c] + y;
    let k = text::first_index(x, c);
    text::lemma_first_index(x, c);
    assert forall|i: int| 0 <= i < k implies #[trigger] s[i] != c by {
        assert(s[i] == x[i]);
    }
    assert(s[k] == c) by {
        if k < x.len() {
            assert(s[k] == x[k]);
        }
    }
    text::lemma_first_index_at(s, c, k);
    assert(s.take(k) =~= x.take(k));
    if k < x.len() {
        let rest = x.skip(k + 1);
        lemma_split_list(rest, y, c);
        assert(s.skip(k + 1) =~= rest + seq![c] + y);
        assert(parts::split_of(s, c) =~= parts::split_of(x, c) + parts::split_of(y, c));
    } else {
        assert(x.take(k) =~= x);
        assert(s.skip(k + 1) =~= y);
        assert(parts::split_of(s, c) =~= parts::split_of(x, c) + parts::split_of(y, c));
    }
}

/// What a term denotes does not depend on the field it stands in.
proof fn lemma_term_alone(term: Seq<char>, f: Seq<char>, g: Seq<char>, kind: Kind)
    ensures
        cron::term_of(term, f, kind) is Ok <==> cron::term_of(term, g, kind) is Ok,
        cron::term_of(term, f, kind) is Ok ==> cron::term_of(term, f, kind) == cron::term_of(
            term,
            g,
            kind,
        ),
{
}

proof fn lemma_all_valid(terms: Seq<Seq<char>>, field: Seq<char>, kind: Kind)
    requires
        forall|i: int| 0 <= i < terms.len() ==> cron::term_of(#[trigger] terms[i], field, kind) is Ok,
    ensures
        cron::terms_error(terms, field, kind) is None,
    decreases terms.len(),
{
    if terms.len() > 0 {
        let d = terms.drop_last();
        assert forall|i: int| 0 <= i < d.len() implies cron::term_of(
            #[trigger] d[i],
            field,
            kind,
        ) is Ok by {
            assert(d[i] == terms[i]);
        }
        lemma_all_valid(d, field, kind);
        assert(cron::term_of(terms[terms.len() - 1], field, kind) is Ok);
    }
}

/// The terms of a list are those of its two parts.
#[verifier::spinoff_prover]
#[verifier::rlimit(50)]
proof fn lemma_list_terms(x: Seq<char>, y: Seq<char>, kind: Kind)
    requires
        cron::field_error(x, kind) is None,
        cron::field_error(y, kind) is None,
    ensures
        ({
            let s = x + seq![','] + y;
            let a = parts::split_of(x, ',');
            let b = parts::split_of(y, ',');
            let all = parts::split_of(s, ',');
            &&& all.len() == a.len() + b.len()
            &&& forall|i: int|
                0 <= i < a.len() ==> cron::term_of(#[trigger] a[i], x, kind) is Ok && cron::term_of(
                    all[i],
                    s,
                    kind,
                ) == cron::term_of(a[i], x, kind)
            &&& forall|i: int|
                0 <= i < b.len() ==> cron::term_of(#[trigger] b[i], y, kind) is Ok && cron::term_of(
                    all[a.len() + i],
                    s,
                    kind,
                ) == cron::term_of(b[i], y, kind)
        }),
{
    let s = x + seq![','] + y;
    let a = parts::split_of(x, ',');
    let b = parts::split_of(y, ',');
    let all = parts::split_of(s, ',');
    lemma_split_list(x, y, ',');
    lemma_no_error(a, x, kind);
    lemma_no_error(b, y, kind);
    assert forall|i: int| 0 <= i < a.len() implies cron::term_of(#[trigger] a[i], x, kind) is Ok
        && cron::term_of(all[i], s, kind) == cron::term_of(a[i], x, kind) by {
        assert(all[i] == a[i]);
        lemma_term_alone(a[i], x, s, kind);
    }
    assert forall|i: int| 0 <= i < b.len() implies cron::term_of(#[trigger] b[i], y, kind) is Ok
        && cron::term_of(all[a.len() + i], s, kind) == cron::term_of(b[i], y, kind) by {
        assert(all[a.len() + i] == b[i]);
        lemma_term_alone(b[i], y, s, kind);
    }
}

#[verifier::spinoff_prover]
#[verifier::rlimit(50)]
proof fn lemma_list_valid(x: Seq<char>, y: Seq<char>, kind: Kind)
    requires
        cron::field_error(x, kind) is None,
        cron::field_error(y, kind) is None,
    ensures
        cron::field_error(x + seq![','] + y, kind) is None,
{
    let s = x + seq![','] + y;
    let a = parts::split_of(x, ',');
    let b = parts::split_of(y, ',');
    let all = parts::split_of(s, ',');
    lemma_list_terms(x, y, kind);
    assert forall|i: int| 0 <= i < all.len() implies cron::term_of(
        #[trigger] all[i],
        s,
        kind,
    ) is Ok by {
        if i < a.len() {
            assert(cron::term_of(a[i], x, kind) is Ok);
        } else {
            assert(cron::term_of(b[i - a.len()], y, kind) is Ok);
        }
    }
    lemma_all_valid(all, s, kind);
    assert forall|i: int| 0 <= i < s.len() implies cron::is_field_char(#[trigger] s[i]) by {
        if i < x.len() {
            assert(s[i] == x[i]);
        } else if i > x.len() {
            assert(s[i] == y[i - x.len() - 1]);
        }
    }
}

#[verifier::spinoff_prover]
#[verifier::rlimit(50)]
proof fn lemma_from_list(x: Seq<char>, y: Seq<char>, kind: Kind, v: int)
    requires
        cron::field_error(x, kind) is None,
        cron::field_error(y, kind) is None,
        cron::in_field(x + seq![','] + y, kind, v),
    ensures
        cron::in_field(x, kind, v) || cron::in_field(y, kind, v),
{
    let s = x + seq![','] + y;
    let a = parts::split_of(x, ',');
    let b = parts::split_of(y, ',');
    let all = parts::split_of(s, ',');
    lemma_list_terms(x, y, kind);
    let i = choose|i: int|
        0 <= i < all.len() && (cron::term_of(#[trigger] all[i], s, kind) matches Ok(t)
            && cron::in_term(t, v));
    if i < a.len() {
        assert(cron::term_of(a[i], x, kind) is Ok);
        assert(cron::in_term(cron::term_of(a[i], x, kind)->Ok_0, v));
    } else {
        assert(cron::term_of(b[i - a.len()], y, kind) is Ok);
        assert(cron::in_term(cron::term_of(b[i - a.len()], y, kind)->Ok_0, v));
    }
}

#[verifier::spinoff_prover]
#[verifier::rlimit(50)]
proof fn lemma_to_list(x: Seq<char>, y: Seq<char>, kind: Kind, v: int)
    requires
        cron::field_error(x, kind) is None,
        cron::field_error(y, kind) is None,
        cron::in_field(x, kind, v) || cron::in_field(y, kind, v),
    ensures
        cron::in_field(x + seq![','] + y, kind, v),
{
    let s = x + seq![','] + y;
    let a = parts::split_of(x, ',');
    let b = parts::split_of(y, ',');
    let all = parts::split_of(s, ',');
    lemma_list_terms(x, y, kind);
    if cron::in_field(x, kind, v) {
        let i = choose|i: int|
            0 <= i < a.len() && (cron::term_of(#[trigger] a[i], x, kind) matches Ok(t)
                && cron::in_term(t, v));
        assert(cron::in_term(cron::term_of(all[i], s, kind)->Ok_0, v));
    } else {
        let i = choose|i: int|
            0 <= i < b.len() && (cron::term_of(#[trigger] b[i], y, kind) matches Ok(t)
                && cron::in_term(t, v));
        let k = a.len() + i;
        assert(cron::in_term(cron::term_of(all[k], s, kind)->Ok_0, v));
    }
}

/// A list matches what one of its two parts matches.
pub proof fn law_list_matches_either(x: Seq<char>, y: Seq<char>, kind: Kind, v: int)
    requires
        cron::field_error(x, kind) is None,
        cron::field_error(y, kind) is None,
    ensures
        ({
            let field = x + seq![','] + y;
            &&& cron::field_error(field, kind) is None
            &&& cron::in_field(field, kind, v) <==> cron::in_field(x, kind, v) || cron::in_field(
                y,
                kind,
                v,
            )
        }),
{
    let field = x + seq![','] + y;
    lemma_list_valid(x, y, kind);
    if cron::in_field(field, kind, v) {
        lemma_from_list(x, y, kind, v);
    }
    if cron::in_field(x, kind, v) || cron::in_field(y, kind, v) {
        lemma_to_list(x, y, kind, v);
    }
}

// ---------------------------------------------------------------------------
// Names
// ---------------------------------------------------------------------------

/// The months by name.
pub open spec fn month_names() -> Seq<Seq<char>> {
    seq![
        seq!['j', 'a', 'n'],
        seq!['f', 'e', 'b'],
        seq!['m', 'a', 'r'],
        seq!['a', 'p', 'r'],
        seq!['m', 'a', 'y'],
        seq!['j', 'u', 'n'],
        seq!['j', 'u', 'l'],
        seq!['a', 'u', 'g'],
        seq!['s', 'e', 'p'],
        seq!['o', 'c', 't'],
        seq!['n', 'o', 'v'],
        seq!['d', 'e', 'c'],
    ]
}

/// The weekdays by name, from Sunday on.
pub open spec fn weekday_names() -> Seq<Seq<char>> {
    seq![
        seq!['s', 'u', 'n'],
        seq!['m', 'o', 'n'],
        seq!['t', 'u', 'e'],
        seq!['w', 'e', 'd'],
        seq!['t', 'h', 'u'],
        seq!['f', 'r', 'i'],
        seq!['s', 'a', 't'],
    ]
}

spec fn is_letters(s: Seq<char>) -> bool {
    s.len() > 0 && forall|i: int| 0 <= i < s.len() ==> 'a' <= #[trigger] s[i] <= 'z'
}

/// A name in any case is one term, and no number.
proof fn lemma_name_text(raw: Seq<char>)
    requires
        is_letters(text::lower_text(raw)),
    ensures
        is_term_text(raw),
        !raw.contains('/'),
        !raw.contains('-'),
        raw != "*"@,
        !number::all_digits(text::lower_text(raw)),
{
    reveal_strlit("*");
    let low = text::lower_text(raw);
    assert forall|i: int| 0 <= i < raw.len() implies cron::is_field_char(#[trigger] raw[i])
        && raw[i] != ',' && raw[i] != '/' && raw[i] != '-' && raw[i] != '*' by {
        assert(low[i] == text::lower_of(raw[i]));
    }
    assert(low.len() == raw.len());
    if raw == "*"@ {
        assert(raw[0] == '*');
    }
    assert(!text::is_digit(low[0]));
}

proof fn lemma_name_matches(raw: Seq<char>, kind: Kind, n: int, v: int)
    requires
        is_letters(text::lower_text(raw)),
        cron::token_value(raw, kind) == Ok::<int, Seq<char>>(n),
    ensures
        cron::field_error(raw, kind) is None,
        cron::in_field(raw, kind, v) <==> v == n,
{
    lemma_name_text(raw);
    lemma_no_char(raw, '-');
    lemma_plain_term(raw, raw, kind);
    lemma_one_term(raw, kind, (n, n, 1));
    lemma_every_value(n, n, v);
}

#[verifier::spinoff_prover]
#[verifier::rlimit(40)]
proof fn lemma_month_number(i: int)
    requires
        0 <= i < 12,
    ensures
        cron::month_number(month_names()[i]) == Some(i + 1),
        is_letters(month_names()[i]),
{
    reveal_strlit("jan");
    reveal_strlit("feb");
    reveal_strlit("mar");
    reveal_strlit("apr");
    reveal_strlit("may");
    reveal_strlit("jun");
    reveal_strlit("jul");
    reveal_strlit("aug");
    reveal_strlit("sep");
    reveal_strlit("oct");
    reveal_strlit("nov");
    reveal_strlit("dec");
    let m = month_names();
    let s = m[i];
    assert(m[0] =~= "jan"@);
    assert(m[1] =~= "feb"@);
    assert(m[2] =~= "mar"@);
    assert(m[3] =~= "apr"@);
    assert(m[4] =~= "may"@);
    assert(m[5] =~= "jun"@);
    assert(m[6] =~= "jul"@);
    assert(m[7] =~= "aug"@);
    assert(m[8] =~= "sep"@);
    assert(m[9] =~= "oct"@);
    assert(m[10] =~= "nov"@);
    assert(m[11] =~= "dec"@);
    let (a, b, c) = (s[0], s[1], s[2]);
    assert(s.len() == 3);
}

#[verifier::spinoff_prover]
proof fn lemma_weekday_number(i: int)
    requires
        0 <= i < 7,
    ensures
        cron::day_number(weekday_names()[i]) == Some(i),
        is_letters(weekday_names()[i]),
{
    reveal_strlit("sun");
    reveal_strlit("mon");
    reveal_strlit("tue");
    reveal_strlit("wed");
    reveal_strlit("thu");
    reveal_strlit("fri");
    reveal_strlit("sat");
    let m = weekday_names();
    let s = m[i];
    assert(m[0] =~= "sun"@);
    assert(m[1] =~= "mon"@);
    assert(m[2] =~= "tue"@);
    assert(m[3] =~= "wed"@);
    assert(m[4] =~= "thu"@);
    assert(m[5] =~= "fri"@);
    assert(m[6] =~= "sat"@);
    let (a, b, c) = (s[0], s[1], s[2]);
    assert(s.len() == 3);
}

/// A month's name, in any case, matches that month.
pub proof fn law_month_names_match(raw: Seq<char>, i: int, v: int)
    requires
        0 <= i < 12,
        text::lower_text(raw) == month_names()[i],
    ensures
        cron::field_error(raw, Kind::Month) is None,
        cron::in_field(raw, Kind::Month, v) <==> v == i + 1,
{
    lemma_month_number(i);
    lemma_name_text(raw);
    lemma_name_matches(raw, Kind::Month, i + 1, v);
}

/// A weekday's name, in any case, matches that weekday; Sunday is 0.
pub proof fn law_weekday_names_match(raw: Seq<char>, i: int, v: int)
    requires
        0 <= i < 7,
        text::lower_text(raw) == weekday_names()[i],
    ensures
        cron::field_error(raw, Kind::Dow) is None,
        cron::in_field(raw, Kind::Dow, v) <==> v == i,
{
    lemma_weekday_number(i);
    lemma_name_text(raw);
    lemma_name_matches(raw, Kind::Dow, i, v);
}

// ---------------------------------------------------------------------------
// Expressions
// ---------------------------------------------------------------------------

spec fn no_macro(m: Seq<char>) -> bool {
    m != "@reboot"@ && cron::macro_fields(m) is None
}

proof fn lemma_blank_is_no_macro(m: Seq<char>, k: int)
    requires
        0 <= k < m.len(),
        m[k] == ' ',
    ensures
        no_macro(m),
{
    reveal_strlit("@reboot");
    reveal_strlit("@yearly");
    reveal_strlit("@annually");
    reveal_strlit("@monthly");
    reveal_strlit("@weekly");
    reveal_strlit("@daily");
    reveal_strlit("@midnight");
    reveal_strlit("@hourly");
}

/// The calendar lines that a five-field expression translates to match a time
/// exactly when cron fires at it.
pub proof fn law_translation_fires_as_cron(expr: Seq<char>, t: Instant)
    requires
        t.is_valid(),
        parts::words_of(expr).len() == 5,
        cron::translation_of(expr) is Ok,
    ensures
        cron::translation_of(expr)->Ok_0 matches Some(lines) && (one_matches(lines, t)
            <==> cron_fires(parts::words_of(expr), t)),
{
    let f = parts::words_of(expr);
    let joined = parts::join_of(f, " "@);
    let m = text::lower_text(joined);
    reveal_strlit(" ");
    parts::lemma_join_front(f, " "@);
    let k = f[0].len() as int;
    assert(joined[k] == ' ');
    assert(m[k] == ' ');
    lemma_blank_is_no_macro(m, k);
    law_lines_match_when_cron_fires(f, t);
}

/// When a macro fires.
pub open spec fn macro_fires(m: Seq<char>, t: Instant) -> bool {
    let midnight = t.second == 0 && t.minute == 0 && t.hour == 0;
    if m == "@hourly"@ {
        t.second == 0 && t.minute == 0
    } else if m == "@daily"@ || m == "@midnight"@ {
        midnight
    } else if m == "@weekly"@ {
        midnight && t.weekday == 0
    } else if m == "@monthly"@ {
        midnight && t.day == 1
    } else {
        midnight && t.day == 1 && t.month == 1
    }
}

proof fn lemma_zero_and_one(kind: Kind, v: int)
    ensures
        kind.least() == 0 ==> cron::field_error("0"@, kind) is None && (cron::in_field(
            "0"@,
            kind,
            v,
        ) <==> v == 0),
        cron::field_error("1"@, kind) is None && (cron::in_field("1"@, kind, v) <==> v == 1),
{
    reveal_strlit("0");
    reveal_strlit("1");
    assert(number::decimal(0) =~= "0"@);
    assert(number::decimal(1) =~= "1"@);
    if kind.least() == 0 {
        law_number_matches_itself(0, kind, v);
    }
    law_number_matches_itself(1, kind, v);
}

/// A macro, in any case, translates to calendar lines that match exactly when
/// it fires: at the start of every hour, day, week, month or year.
pub proof fn law_macros_fire(expr: Seq<char>, t: Instant)
    requires
        t.is_valid(),
        ({
            let m = text::lower_text(parts::join_of(parts::words_of(expr), " "@));
            m == "@hourly"@ || m == "@daily"@ || m == "@midnight"@ || m == "@weekly"@ || m
                == "@monthly"@ || m == "@yearly"@ || m == "@annually"@
        }),
    ensures
        cron::translation_of(expr) matches Ok(Some(lines)) && (one_matches(lines, t)
            <==> macro_fires(
            text::lower_text(parts::join_of(parts::words_of(expr), " "@)),
            t,
        )),
{
    reveal_strlit("@reboot");
    reveal_strlit("@yearly");
    reveal_strlit("@annually");
    reveal_strlit("@monthly");
    reveal_strlit("@weekly");
    reveal_strlit("@daily");
    reveal_strlit("@midnight");
    reveal_strlit("@hourly");
    let m = text::lower_text(parts::join_of(parts::words_of(expr), " "@));
    assert(m.len() == 7 || m.len() == 6 || m.len() == 9 || m.len() == 8);
    assert(m[1] != 'r');
    assert(m != "@reboot"@);
    lemma_macro_names(m);
    let f = cron::macro_fields(m)->0;
    lemma_macro_fields(m, t);
    law_lines_match_when_cron_fires(f, t);
}

/// The macros are told apart.
proof fn lemma_macro_names(m: Seq<char>)
    ensures
        m == "@hourly"@ ==> m.len() == 7 && m[1] == 'h',
        m == "@daily"@ ==> m.len() == 6 && m[1] == 'd',
        m == "@midnight"@ ==> m.len() == 9 && m[1] == 'm',
        m == "@weekly"@ ==> m.len() == 7 && m[1] == 'w',
        m == "@monthly"@ ==> m.len() == 8 && m[1] == 'm',
        m == "@yearly"@ ==> m.len() == 7 && m[1] == 'y',
        m == "@annually"@ ==> m.len() == 9 && m[1] == 'a',
{
    reveal_strlit("@yearly");
    reveal_strlit("@annually");
    reveal_strlit("@monthly");
    reveal_strlit("@weekly");
    reveal_strlit("@daily");
    reveal_strlit("@midnight");
    reveal_strlit("@hourly");
}

/// Whether a field that is `*`, `0` or `1` matches a value.
spec fn short_matches(x: Seq<char>, v: int) -> bool {
    x == "*"@ || (x == "0"@ && v == 0) || (x == "1"@ && v == 1)
}

proof fn lemma_short_field(x: Seq<char>, kind: Kind, v: int)
    requires
        kind.least() <= v <= kind.greatest(),
        x == "*"@ || x == "1"@ || (x == "0"@ && kind.least() == 0),
    ensures
        cron::field_error(x, kind) is None,
        cron::in_field(x, kind, v) == short_matches(x, v),
        x == "*"@ ==> !is_restricted(x, kind),
{
    reveal_strlit("*");
    reveal_strlit("0");
    reveal_strlit("1");
    assert("*"@[0] == '*' && "0"@[0] == '0' && "1"@[0] == '1');
    if x == "*"@ {
        law_star_matches_everything(kind, v);
        assert forall|w: int| kind.least() <= w <= kind.greatest() implies #[trigger] cron::in_field(
            x,
            kind,
            w,
        ) by {
            law_star_matches_everything(kind, w);
        }
    } else {
        lemma_zero_and_one(kind, v);
    }
}

proof fn lemma_short_fields(
    a: Seq<char>,
    b: Seq<char>,
    c: Seq<char>,
    d: Seq<char>,
    e: Seq<char>,
    t: Instant,
)
    requires
        t.is_valid(),
        a == "*"@ || a == "0"@,
        b == "*"@ || b == "0"@,
        c == "*"@ || c == "1"@,
        d == "*"@ || d == "1"@,
        e == "*"@ || e == "0"@,
        c == "*"@ || e == "*"@,
    ensures
        cron::fields_calendar(seq![a, b, c, d, e]) is Ok,
        cron_fires(seq![a, b, c, d, e], t) == (t.second == 0 && short_matches(a, t.minute)
            && short_matches(b, t.hour) && short_matches(c, t.day) && short_matches(d, t.month)
            && short_matches(e, t.weekday)),
{
    let f = seq![a, b, c, d, e];
    lemma_short_field(a, Kind::Min, t.minute);
    lemma_short_field(b, Kind::Hour, t.hour);
    lemma_short_field(c, Kind::Dom, t.day);
    lemma_short_field(d, Kind::Month, t.month);
    lemma_short_field(e, Kind::Dow, t.weekday);
    assert(cron::fields_error(f) is None);
    reveal(cron::fields_calendar);
}

proof fn lemma_macro_fields(m: Seq<char>, t: Instant)
    requires
        t.is_valid(),
        m == "@hourly"@ || m == "@daily"@ || m == "@midnight"@ || m == "@weekly"@ || m
            == "@monthly"@ || m == "@yearly"@ || m == "@annually"@,
    ensures
        cron::macro_fields(m) is Some,
        cron::macro_fields(m)->0.len() == 5,
        cron::fields_calendar(cron::macro_fields(m)->0) is Ok,
        cron_fires(cron::macro_fields(m)->0, t) <==> macro_fires(m, t),
{
    lemma_macro_names(m);
    assert("0"@ != "*"@ && "1"@ != "*"@ && "0"@ != "1"@) by {
        reveal_strlit("*");
        reveal_strlit("0");
        reveal_strlit("1");
        assert("*"@[0] == '*' && "0"@[0] == '0' && "1"@[0] == '1');
    }
    if m == "@hourly"@ {
        lemma_short_fields("0"@, "*"@, "*"@, "*"@, "*"@, t);
    } else if m == "@daily"@ || m == "@midnight"@ {
        lemma_short_fields("0"@, "0"@, "*"@, "*"@, "*"@, t);
    } else if m == "@weekly"@ {
        lemma_short_fields("0"@, "0"@, "*"@, "*"@, "0"@, t);
    } else if m == "@monthly"@ {
        lemma_short_fields("0"@, "0"@, "1"@, "*"@, "*"@, t);
    } else {
        lemma_short_fields("0"@, "0"@, "1"@, "1"@, "*"@, t);
    }
}

/// `@reboot`, in any case, is no calendar time.
pub proof fn law_reboot_has_no_lines(expr: Seq<char>)
    requires
        text::lower_text(parts::join_of(parts::words_of(expr), " "@)) == "@reboot"@,
    ensures
        cron::translation_of(expr) == Ok::<Option<Seq<Seq<char>>>, Seq<char>>(None),
{
}

} // verus!
