//! cron to systemd `OnCalendar` translation.
//!
//! ```text
//! cron fields:  minute hour day-of-month month day-of-week
//! systemd:      [DOW] YYYY-MM-DD HH:MM:SS
//! ```
//!
//! Supported: `*`, fixed values, `*/N` and `a-b/N` and `a/N` steps, ranges,
//! comma lists, month and day names, and the `@hourly` .. `@reboot` macros.

use crate::number;
use crate::parts;
use crate::text;
use vstd::prelude::*;

verus! {

broadcast use vstd::string::group_string_axioms;

/// Why an expression was refused.
#[derive(Debug, Clone, PartialEq, Eq)]
pub struct CronError(pub String);

impl CronError {
    /// The message.
    pub fn to_string(&self) -> (r: String)
        ensures
            r@ == self.0@,
    {
        self.0.clone()
    }
}

/// What a cron expression translates to.
#[derive(Debug, Clone, PartialEq, Eq)]
pub enum Translation {
    /// One or more `OnCalendar=` values. More than one means the expression
    /// restricted both day-of-month and day-of-week, which cron ORs and
    /// systemd ANDs -- so each branch gets its own line.
    Calendar(Vec<String>),
    /// `@reboot`, which becomes an `OnBootSec=` timer.
    Reboot,
}

/// Which cron field is being read; drives name lookups and range rules.
#[derive(Debug, Clone, Copy, PartialEq, Eq, Structural)]
pub enum Kind {
    Min,
    Hour,
    Dom,
    Month,
    Dow,
}

/// One expanded field: the whole range, or the values it matches in order.
#[derive(Debug, Clone, PartialEq, Eq)]
pub enum Expanded {
    All,
    Values(Vec<u32>),
}

// ---------------------------------------------------------------------------
// What a field means
// ---------------------------------------------------------------------------

impl Kind {
    /// The least value of the field.
    pub open spec fn least(self) -> int {
        match self {
            Kind::Min | Kind::Hour | Kind::Dow => 0,
            Kind::Dom | Kind::Month => 1,
        }
    }

    /// The greatest value of the field.
    pub open spec fn greatest(self) -> int {
        match self {
            Kind::Min => 59,
            Kind::Hour => 23,
            Kind::Dom => 31,
            Kind::Month => 12,
            Kind::Dow => 6,
        }
    }

    /// The least and the greatest value of the field.
    fn range(self) -> (r: (u32, u32))
        ensures
            r.0 == self.least(),
            r.1 == self.greatest(),
    {
        match self {
            Kind::Min => (0, 59),
            Kind::Hour => (0, 23),
            Kind::Dom => (1, 31),
            Kind::Month => (1, 12),
            Kind::Dow => (0, 6),
        }
    }
}

/// The number of a month by its cron name.
pub open spec fn month_number(tok: Seq<char>) -> Option<int> {
    if tok == "jan"@ {
        Some(1)
    } else if tok == "feb"@ {
        Some(2)
    } else if tok == "mar"@ {
        Some(3)
    } else if tok == "apr"@ {
        Some(4)
    } else if tok == "may"@ {
        Some(5)
    } else if tok == "jun"@ {
        Some(6)
    } else if tok == "jul"@ {
        Some(7)
    } else if tok == "aug"@ {
        Some(8)
    } else if tok == "sep"@ {
        Some(9)
    } else if tok == "oct"@ {
        Some(10)
    } else if tok == "nov"@ {
        Some(11)
    } else if tok == "dec"@ {
        Some(12)
    } else {
        None
    }
}

/// The number of a weekday by its cron name, Sunday being 0.
pub open spec fn day_number(tok: Seq<char>) -> Option<int> {
    if tok == "sun"@ {
        Some(0)
    } else if tok == "mon"@ {
        Some(1)
    } else if tok == "tue"@ {
        Some(2)
    } else if tok == "wed"@ {
        Some(3)
    } else if tok == "thu"@ {
        Some(4)
    } else if tok == "fri"@ {
        Some(5)
    } else if tok == "sat"@ {
        Some(6)
    } else {
        None
    }
}

fn month_named(tok: &str) -> (r: Option<u32>)
    ensures
        match r {
            Some(n) => month_number(tok@) == Some(n as int),
            None => month_number(tok@) is None,
        },
{
    if text::same(tok, "jan") {
        Some(1)
    } else if text::same(tok, "feb") {
        Some(2)
    } else if text::same(tok, "mar") {
        Some(3)
    } else if text::same(tok, "apr") {
        Some(4)
    } else if text::same(tok, "may") {
        Some(5)
    } else if text::same(tok, "jun") {
        Some(6)
    } else if text::same(tok, "jul") {
        Some(7)
    } else if text::same(tok, "aug") {
        Some(8)
    } else if text::same(tok, "sep") {
        Some(9)
    } else if text::same(tok, "oct") {
        Some(10)
    } else if text::same(tok, "nov") {
        Some(11)
    } else if text::same(tok, "dec") {
        Some(12)
    } else {
        None
    }
}

fn day_named(tok: &str) -> (r: Option<u32>)
    ensures
        match r {
            Some(n) => day_number(tok@) == Some(n as int),
            None => day_number(tok@) is None,
        },
{
    if text::same(tok, "sun") {
        Some(0)
    } else if text::same(tok, "mon") {
        Some(1)
    } else if text::same(tok, "tue") {
        Some(2)
    } else if text::same(tok, "wed") {
        Some(3)
    } else if text::same(tok, "thu") {
        Some(4)
    } else if text::same(tok, "fri") {
        Some(5)
    } else if text::same(tok, "sat") {
        Some(6)
    } else {
        None
    }
}

/// The number a token stands for before it is held to the field's range.
pub open spec fn token_number(raw: Seq<char>, kind: Kind) -> Result<int, Seq<char>> {
    let tok = text::lower_text(raw);
    if tok.len() > 0 && number::all_digits(tok) {
        // cron accepts both 0 and 7 for Sunday. Leading zeros are padding.
        if kind == Kind::Dow && number::digits_value(tok) == 7 {
            Ok(0)
        } else {
            Ok(number::digits_value(tok) as int)
        }
    } else {
        match kind {
            Kind::Month => match month_number(tok) {
                Some(n) => Ok(n),
                None => Err("invalid month name '"@ + raw + "'"@),
            },
            Kind::Dow => match day_number(tok) {
                Some(n) => Ok(n),
                None => Err("invalid day-of-week name '"@ + raw + "'"@),
            },
            _ => Err("invalid value '"@ + raw + "' (expected a number)"@),
        }
    }
}

/// The value a token stands for in a field.
pub open spec fn token_value(raw: Seq<char>, kind: Kind) -> Result<int, Seq<char>> {
    match token_number(raw, kind) {
        Err(e) => Err(e),
        Ok(n) => if kind.least() <= n <= kind.greatest() {
            Ok(n)
        } else {
            Err(
                "value '"@ + raw + "' out of range ("@ + number::decimal(kind.least() as nat) + "-"@
                    + number::decimal(kind.greatest() as nat) + ")"@,
            )
        },
    }
}

/// A term of a field: the values from `lo` to `hi`, every `step`-th of them.
pub struct Term {
    pub lo: u32,
    pub hi: u32,
    pub step: u32,
}

impl Term {
    /// Whether the term can be told from its values: it has a step, and wraps
    /// only within the week.
    pub open spec fn is_valid(self) -> bool {
        self.step >= 1 && (self.lo > self.hi ==> self.lo <= 6)
    }
}

/// The text of a term before its step, and the step, which fits in 32 bits.
pub open spec fn term_step(term: Seq<char>, field: Seq<char>) -> Result<
    (Seq<char>, int),
    Seq<char>,
> {
    match parts::split_once_of(term, '/') {
        None => Ok((term, 1)),
        Some((head, tail)) => if tail.contains('/') {
            Err("invalid nested step in cron field '"@ + field + "'"@)
        } else if tail.len() == 0 || !number::all_digits(tail) {
            Err("invalid step '/"@ + tail + "' in cron field '"@ + field + "'"@)
        } else if !(1 <= number::digits_value(tail) <= u32::MAX) {
            Err("step must be >= 1 in cron field '"@ + field + "'"@)
        } else {
            Ok((head, number::digits_value(tail) as int))
        },
    }
}

/// The first and last value a term's range names. A single value with a step
/// runs to the end of the field.
pub open spec fn term_range(range: Seq<char>, stepped: bool, kind: Kind) -> Result<
    (int, int),
    Seq<char>,
> {
    if range == "*"@ {
        Ok((kind.least(), kind.greatest()))
    } else {
        match parts::split_once_of(range, '-') {
            Some((a, b)) => match token_value(a, kind) {
                Err(e) => Err(e),
                Ok(lo) => match token_value(b, kind) {
                    Err(e) => Err(e),
                    Ok(hi) => Ok((lo, hi)),
                },
            },
            None => match token_value(range, kind) {
                Err(e) => Err(e),
                Ok(v) => Ok(
                    (
                        v,
                        if stepped {
                            kind.greatest()
                        } else {
                            v
                        },
                    ),
                ),
            },
        }
    }
}

/// What a term denotes, as first value, last value and step.
pub open spec fn term_of(term: Seq<char>, field: Seq<char>, kind: Kind) -> Result<
    (int, int, int),
    Seq<char>,
> {
    if term.len() == 0 {
        Err("empty term in cron field '"@ + field + "'"@)
    } else {
        match term_step(term, field) {
            Err(e) => Err(e),
            Ok((range, step)) => match term_range(range, term.contains('/'), kind) {
                Err(e) => Err(e),
                Ok((lo, hi)) => if lo > hi && kind != Kind::Dow {
                    Err("inverted range '"@ + range + "' in cron field '"@ + field + "'"@)
                } else {
                    Ok((lo, hi, step))
                },
            },
        }
    }
}

/// Whether a value belongs to a term. An inverted range, which only weekdays
/// have, wraps past Saturday, and its steps go on across the wrap.
pub open spec fn in_term(t: (int, int, int), v: int) -> bool {
    if t.0 <= t.1 {
        t.0 <= v <= t.1 && (v - t.0) % t.2 == 0
    } else {
        (t.0 <= v <= 6 || 0 <= v <= t.1) && ((v - t.0) % 7) % t.2 == 0
    }
}

/// The error of the first term that has one.
pub open spec fn terms_error(terms: Seq<Seq<char>>, field: Seq<char>, kind: Kind) -> Option<
    Seq<char>,
>
    decreases terms.len(),
{
    if terms.len() == 0 {
        None
    } else {
        match terms_error(terms.drop_last(), field, kind) {
            Some(e) => Some(e),
            None => match term_of(terms.last(), field, kind) {
                Err(e) => Some(e),
                Ok(_) => None,
            },
        }
    }
}

/// The characters a cron field may hold.
pub open spec fn is_field_char(c: char) -> bool {
    text::is_alnum(c) || c == '*' || c == ',' || c == '/' || c == '-'
}

/// Why a field is refused, if it is.
pub open spec fn field_error(field: Seq<char>, kind: Kind) -> Option<Seq<char>> {
    if field.len() == 0 {
        Some("empty cron field"@)
    } else if exists|i: int| 0 <= i < field.len() && !is_field_char(#[trigger] field[i]) {
        Some("invalid character in cron field '"@ + field + "'"@)
    } else {
        terms_error(parts::split_of(field, ','), field, kind)
    }
}

/// Whether a value belongs to one of the terms.
pub open spec fn in_terms(terms: Seq<Seq<char>>, field: Seq<char>, kind: Kind, v: int) -> bool {
    exists|i: int|
        0 <= i < terms.len() && (term_of(#[trigger] terms[i], field, kind) matches Ok(t)
            && in_term(t, v))
}

/// Whether a field matches a value.
pub open spec fn in_field(field: Seq<char>, kind: Kind, v: int) -> bool {
    in_terms(parts::split_of(field, ','), field, kind, v)
}

/// The values of a field's range, in order.
pub open spec fn range_values(kind: Kind) -> Seq<int> {
    Seq::new((kind.greatest() - kind.least() + 1) as nat, |i: int| kind.least() + i)
}

/// The values a field matches, in order.
pub open spec fn field_values(field: Seq<char>, kind: Kind) -> Seq<int> {
    range_values(kind).filter(|v: int| in_field(field, kind, v))
}

/// Whether a field matches its whole range.
pub open spec fn field_is_all(field: Seq<char>, kind: Kind) -> bool {
    field_values(field, kind).len() == kind.greatest() - kind.least() + 1
}

/// A number in at least two digits.
pub open spec fn two_digits(n: int) -> Seq<char> {
    if n < 10 {
        seq!['0'] + number::decimal(n as nat)
    } else {
        number::decimal(n as nat)
    }
}

/// `*` or a zero-padded comma list.
pub open spec fn numeric_of(field: Seq<char>, kind: Kind) -> Seq<char> {
    if field_is_all(field, kind) {
        "*"@
    } else {
        parts::join_of(
            Seq::new(
                field_values(field, kind).len(),
                |i: int| two_digits(field_values(field, kind)[i]),
            ),
            ","@,
        )
    }
}

/// systemd's name for a cron weekday number.
pub open spec fn systemd_day(d: int) -> Seq<char> {
    if d == 1 {
        "Mon"@
    } else if d == 2 {
        "Tue"@
    } else if d == 3 {
        "Wed"@
    } else if d == 4 {
        "Thu"@
    } else if d == 5 {
        "Fri"@
    } else if d == 6 {
        "Sat"@
    } else {
        "Sun"@
    }
}

/// The weekdays in systemd's order.
pub open spec fn week() -> Seq<int> {
    seq![1, 2, 3, 4, 5, 6, 0]
}

/// The weekdays among the first `n` of the week that a field matches, by name.
pub open spec fn day_list(field: Seq<char>, n: int) -> Seq<Seq<char>>
    decreases n,
{
    if n <= 0 {
        seq![]
    } else if field_values(field, Kind::Dow).contains(week()[n - 1]) {
        day_list(field, n - 1).push(systemd_day(week()[n - 1]))
    } else {
        day_list(field, n - 1)
    }
}

/// Nothing for "any day", else `Mon,Wed` in systemd's order.
pub open spec fn dow_of(field: Seq<char>) -> Seq<char> {
    if field_is_all(field, Kind::Dow) {
        seq![]
    } else {
        parts::join_of(day_list(field, 7), ","@)
    }
}

/// The five fields a macro stands for.
pub open spec fn macro_fields(m: Seq<char>) -> Option<Seq<Seq<char>>> {
    if m == "@yearly"@ || m == "@annually"@ {
        Some(seq!["0"@, "0"@, "1"@, "1"@, "*"@])
    } else if m == "@monthly"@ {
        Some(seq!["0"@, "0"@, "1"@, "*"@, "*"@])
    } else if m == "@weekly"@ {
        Some(seq!["0"@, "0"@, "*"@, "*"@, "0"@])
    } else if m == "@daily"@ || m == "@midnight"@ {
        Some(seq!["0"@, "0"@, "*"@, "*"@, "*"@])
    } else if m == "@hourly"@ {
        Some(seq!["0"@, "*"@, "*"@, "*"@, "*"@])
    } else {
        None
    }
}

/// The error of the first of the five fields that has one.
pub open spec fn fields_error(f: Seq<Seq<char>>) -> Option<Seq<char>> {
    if field_error(f[0], Kind::Min) is Some {
        field_error(f[0], Kind::Min)
    } else if field_error(f[1], Kind::Hour) is Some {
        field_error(f[1], Kind::Hour)
    } else if field_error(f[2], Kind::Dom) is Some {
        field_error(f[2], Kind::Dom)
    } else if field_error(f[3], Kind::Month) is Some {
        field_error(f[3], Kind::Month)
    } else {
        field_error(f[4], Kind::Dow)
    }
}

/// The calendar lines for five valid fields: one line, or two where both the
/// day of the month and the weekday are restricted.
pub open spec fn calendar_lines(f: Seq<Seq<char>>) -> Seq<Seq<char>> {
    let time = numeric_of(f[1], Kind::Hour) + ":"@ + numeric_of(f[0], Kind::Min) + ":00"@;
    let dom = numeric_of(f[2], Kind::Dom);
    let month = numeric_of(f[3], Kind::Month);
    let dow = dow_of(f[4]);
    if dom != "*"@ && dow.len() > 0 {
        seq![
            "*-"@ + month + "-"@ + dom + " "@ + time,
            dow + " *-"@ + month + "-* "@ + time,
        ]
    } else if dow.len() == 0 {
        seq!["*-"@ + month + "-"@ + dom + " "@ + time]
    } else {
        seq![dow + " *-"@ + month + "-"@ + dom + " "@ + time]
    }
}

/// What five fields translate to.
#[verifier::opaque]
pub open spec fn fields_calendar(f: Seq<Seq<char>>) -> Result<Option<Seq<Seq<char>>>, Seq<char>> {
    match fields_error(f) {
        Some(e) => Err(e),
        None => Ok(Some(calendar_lines(f))),
    }
}

/// What an expression translates to: its calendar lines, or `None` for
/// `@reboot`.
pub open spec fn translation_of(expr: Seq<char>) -> Result<Option<Seq<Seq<char>>>, Seq<char>> {
    let fields = parts::words_of(expr);
    let m = text::lower_text(parts::join_of(fields, " "@));
    if m == "@reboot"@ {
        Ok(None)
    } else if macro_fields(m) is Some {
        fields_calendar(macro_fields(m)->0)
    } else if m.len() > 0 && m[0] == '@' {
        Err(
            "unknown cron macro '"@ + expr
                + "' (try @hourly, @daily, @weekly, @monthly, @yearly, @reboot)"@,
        )
    } else if fields.len() != 5 {
        Err(
            "cron expression needs 5 fields (minute hour day-of-month month day-of-week), got "@
                + number::decimal(fields.len()) + " in '"@ + expr + "'"@,
        )
    } else {
        fields_calendar(fields)
    }
}

// ---------------------------------------------------------------------------
// Reading a field
// ---------------------------------------------------------------------------

/// Whether a result is what a specification says, text by text.
pub open spec fn agrees(r: Result<u32, CronError>, want: Result<int, Seq<char>>) -> bool {
    match r {
        Ok(n) => want == Ok::<int, Seq<char>>(n as int),
        Err(e) => want == Err::<int, Seq<char>>(e.0@),
    }
}

/// Whether all characters of `s` are digits.
fn only_digits(s: &str) -> (r: bool)
    ensures
        r == number::all_digits(s@),
{
    let v = text::chars_of(s);
    let mut i: usize = 0;
    while i < v.len()
        invariant
            v@ == s@,
            i <= v@.len(),
            forall|k: int| 0 <= k < i ==> text::is_digit(#[trigger] v@[k]),
        decreases v@.len() - i,
    {
        if !text::digit(v[i]) {
            assert(!text::is_digit(s@[i as int]));
            return false;
        }
        i += 1;
    }
    true
}

/// The value of a digit sequence, where it fits in 32 bits.
fn small(s: &str) -> (r: Option<u32>)
    requires
        s@.len() > 0,
        number::all_digits(s@),
    ensures
        match r {
            Some(n) => n == number::digits_value(s@),
            None => number::digits_value(s@) > u32::MAX,
        },
{
    assert(text::is_digit(s@[0]));
    match number::parse_up_to(s, 0xffff_ffff) {
        Some(n) => Some(n as u32),
        None => None,
    }
}

fn resolve_token(raw: &str, kind: Kind) -> (r: Result<u32, CronError>)
    ensures
        agrees(r, token_value(raw@, kind)),
{
    let tok = text::to_lower(raw);
    let num: Option<u32> = if !tok.as_str().is_empty() && only_digits(tok.as_str()) {
        match small(tok.as_str()) {
            Some(n) => if kind == Kind::Dow && n == 7 {
                Some(0)
            } else {
                Some(n)
            },
            None => None,
        }
    } else {
        match kind {
            Kind::Month => match month_named(tok.as_str()) {
                Some(n) => Some(n),
                None => {
                    return Err(CronError(text::cat3("invalid month name '", raw, "'")));
                },
            },
            Kind::Dow => match day_named(tok.as_str()) {
                Some(n) => Some(n),
                None => {
                    return Err(CronError(text::cat3("invalid day-of-week name '", raw, "'")));
                },
            },
            _ => {
                return Err(
                    CronError(text::cat3("invalid value '", raw, "' (expected a number)")),
                );
            },
        }
    };
    let (min, max) = kind.range();
    match num {
        Some(n) => if min <= n && n <= max {
            return Ok(n);
        },
        None => {},
    }
    let mut e = text::cat3("value '", raw, "' out of range (");
    e.push_str(number::to_decimal(min as u64).as_str());
    e.push_str("-");
    e.push_str(number::to_decimal(max as u64).as_str());
    e.push_str(")");
    Err(CronError(e))
}

/// Read one term.
fn read_term(term: &str, field: &str, kind: Kind) -> (r: Result<Term, CronError>)
    ensures
        match r {
            Ok(t) => term_of(term@, field@, kind) == Ok::<(int, int, int), Seq<char>>(
                (t.lo as int, t.hi as int, t.step as int),
            ) && t.step >= 1 && kind.least() <= t.lo <= kind.greatest() && kind.least() <= t.hi
                <= kind.greatest(),
            Err(e) => term_of(term@, field@, kind) == Err::<(int, int, int), Seq<char>>(e.0@),
        },
{
    if term.is_empty() {
        return Err(CronError(text::cat3("empty term in cron field '", field, "'")));
    }
    let mut step: u32 = 1;
    let mut range: &str = term;
    let stepped = text::has_char(term, '/');
    match parts::split_once(term, '/') {
        Some((head, tail)) => {
            if text::has_char(tail, '/') {
                return Err(
                    CronError(text::cat3("invalid nested step in cron field '", field, "'")),
                );
            }
            if tail.is_empty() || !only_digits(tail) {
                return Err(
                    CronError(
                        text::cat5("invalid step '/", tail, "' in cron field '", field, "'"),
                    ),
                );
            }
            step = match small(tail) {
                Some(n) => n,
                None => 0,
            };
            if step < 1 {
                return Err(
                    CronError(text::cat3("step must be >= 1 in cron field '", field, "'")),
                );
            }
            range = head;
        },
        None => {},
    }
    let (min, max) = kind.range();
    let lo: u32;
    let hi: u32;
    if text::same(range, "*") {
        lo = min;
        hi = max;
    } else {
        match parts::split_once(range, '-') {
            Some((a, b)) => {
                match resolve_token(a, kind) {
                    Ok(v) => {
                        lo = v;
                    },
                    Err(e) => {
                        return Err(e);
                    },
                }
                match resolve_token(b, kind) {
                    Ok(v) => {
                        hi = v;
                    },
                    Err(e) => {
                        return Err(e);
                    },
                }
            },
            None => match resolve_token(range, kind) {
                Ok(v) => {
                    lo = v;
                    hi = if stepped {
                        max
                    } else {
                        v
                    };
                },
                Err(e) => {
                    return Err(e);
                },
            },
        }
    }
    if lo > hi && kind != Kind::Dow {
        return Err(
            CronError(text::cat5("inverted range '", range, "' in cron field '", field, "'")),
        );
    }
    Ok(Term { lo, hi, step })
}

/// Whether a value belongs to a term.
fn term_has(t: &Term, v: u32) -> (r: bool)
    requires
        t.is_valid(),
    ensures
        r == in_term((t.lo as int, t.hi as int, t.step as int), v as int),
{
    if t.lo <= t.hi {
        t.lo <= v && v <= t.hi && (v - t.lo) % t.step == 0
    } else {
        let turn: u32 = if t.lo <= v {
            v - t.lo
        } else if v <= t.hi {
            7 - t.lo + v
        } else {
            return false;
        };
        v <= 6 && turn % t.step == 0
    }
}

/// Read every term of a field.
fn read_terms(terms: &Vec<String>, field: &str, kind: Kind) -> (r: Result<Vec<Term>, CronError>)
    ensures
        match r {
            Ok(ts) => {
                &&& terms_error(text::texts(terms@), field@, kind) is None
                &&& ts@.len() == terms@.len()
                &&& forall|i: int|
                    0 <= i < ts@.len() ==> (#[trigger] ts@[i]).is_valid() && term_of(
                        text::texts(terms@)[i],
                        field@,
                        kind,
                    ) == Ok::<(int, int, int), Seq<char>>(
                        (ts@[i].lo as int, ts@[i].hi as int, ts@[i].step as int),
                    )
            },
            Err(e) => terms_error(text::texts(terms@), field@, kind) == Some(e.0@),
        },
{
    let ghost all = text::texts(terms@);
    let mut out: Vec<Term> = Vec::new();
    let mut i: usize = 0;
    assert(all.take(0) =~= seq![]);
    while i < terms.len()
        invariant
            i <= terms@.len(),
            all == text::texts(terms@),
            terms_error(all.take(i as int), field@, kind) is None,
            out@.len() == i,
            forall|k: int|
                0 <= k < i ==> (#[trigger] out@[k]).is_valid() && term_of(all[k], field@, kind)
                    == Ok::<(int, int, int), Seq<char>>(
                    (out@[k].lo as int, out@[k].hi as int, out@[k].step as int),
                ),
        decreases terms@.len() - i,
    {
        proof {
            assert(all.take(i + 1).drop_last() =~= all.take(i as int));
            assert(all.take(i + 1).last() == all[i as int]);
        }
        match read_term(terms[i].as_str(), field, kind) {
            Ok(t) => {
                out.push(t);
            },
            Err(e) => {
                proof {
                    lemma_error_stays(all, field@, kind, i + 1);
                }
                return Err(e);
            },
        }
        i += 1;
    }
    assert(all.take(terms@.len() as int) =~= all);
    Ok(out)
}

/// An error among the first terms is the error of all of them.
proof fn lemma_error_stays(terms: Seq<Seq<char>>, field: Seq<char>, kind: Kind, k: int)
    requires
        0 <= k <= terms.len(),
        terms_error(terms.take(k), field, kind) is Some,
    ensures
        terms_error(terms, field, kind) == terms_error(terms.take(k), field, kind),
    decreases terms.len(),
{
    if k == terms.len() {
        assert(terms.take(k) =~= terms);
    } else {
        assert(terms.drop_last().take(k) =~= terms.take(k));
        lemma_error_stays(terms.drop_last(), field, kind, k);
    }
}

/// The values of the range that the terms match, in order.
fn matched(terms: &Vec<Term>, kind: Kind) -> (r: Vec<u32>)
    requires
        forall|i: int| 0 <= i < terms@.len() ==> (#[trigger] terms@[i]).is_valid(),
    ensures
        forall|i: int|
            0 <= i < r@.len() ==> kind.least() <= #[trigger] r@[i] <= kind.greatest(),
        Seq::new(r@.len(), |i: int| r@[i] as int) == range_values(kind).filter(
            |v: int|
                exists|i: int|
                    0 <= i < terms@.len() && in_term(
                        ((#[trigger] terms@[i]).lo as int, terms@[i].hi as int, terms@[i].step as int),
                        v,
                    ),
        ),
{
    let (min, max) = kind.range();
    let ghost keep = |v: int|
        exists|i: int|
            0 <= i < terms@.len() && in_term(
                ((#[trigger] terms@[i]).lo as int, terms@[i].hi as int, terms@[i].step as int),
                v,
            );
    let ghost all = range_values(kind);
    let mut out: Vec<u32> = Vec::new();
    let mut v: u32 = min;
    proof {
        assert(all.take(0) =~= seq![]);
        reveal(Seq::filter);
        assert(Seq::new(out@.len(), |i: int| out@[i] as int) =~= all.take(0).filter(keep));
    }
    while v <= max
        invariant
            min == kind.least(),
            max == kind.greatest(),
            min <= v <= max + 1,
            all == range_values(kind),
            forall|i: int| 0 <= i < terms@.len() ==> (#[trigger] terms@[i]).is_valid(),
            keep == (|x: int|
                exists|i: int|
                    0 <= i < terms@.len() && in_term(
                        ((#[trigger] terms@[i]).lo as int, terms@[i].hi as int, terms@[i].step as int),
                        x,
                    )),
            forall|i: int| 0 <= i < out@.len() ==> min <= #[trigger] out@[i] <= max,
            Seq::new(out@.len(), |i: int| out@[i] as int) == all.take(v - min).filter(keep),
        decreases max + 1 - v,
    {
        let mut hit = false;
        let mut i: usize = 0;
        while i < terms.len()
            invariant
                i <= terms@.len(),
                forall|k: int| 0 <= k < terms@.len() ==> (#[trigger] terms@[k]).is_valid(),
                hit == exists|k: int|
                    0 <= k < i && in_term(
                        ((#[trigger] terms@[k]).lo as int, terms@[k].hi as int, terms@[k].step as int),
                        v as int,
                    ),
            decreases terms@.len() - i,
        {
            if term_has(&terms[i], v) {
                hit = true;
            }
            i += 1;
        }
        let ghost before = Seq::new(out@.len(), |i: int| out@[i] as int);
        proof {
            let t = all.take(v - min + 1);
            assert(t.drop_last() =~= all.take(v - min));
            assert(t.last() == v as int);
            assert(hit == keep(v as int));
            reveal(Seq::filter);
        }
        if hit {
            out.push(v);
            assert(Seq::new(out@.len(), |i: int| out@[i] as int) =~= before.push(v as int));
        }
        v += 1;
    }
    assert(all.take(max - min + 1) =~= all);
    out
}

impl Expanded {
    /// The matched values, where they are not the whole range.
    pub open spec fn values(self) -> Seq<int> {
        match self {
            Expanded::All => seq![],
            Expanded::Values(v) => Seq::new(v@.len(), |i: int| v@[i] as int),
        }
    }
}

/// Whether an expanded field holds what the field says.
pub open spec fn expands(e: Expanded, field: Seq<char>, kind: Kind) -> bool {
    match e {
        Expanded::All => field_is_all(field, kind),
        Expanded::Values(v) => !field_is_all(field, kind) && e.values() == field_values(field, kind),
    }
}

/// Expand one cron field, a comma list of terms, into the values it matches.
pub fn expand_field(field: &str, kind: Kind) -> (r: Result<Expanded, CronError>)
    ensures
        match r {
            Ok(e) => field_error(field@, kind) is None && expands(e, field@, kind),
            Err(e) => field_error(field@, kind) == Some(e.0@),
        },
{
    if field.is_empty() {
        return Err(CronError("empty cron field".to_owned()));
    }
    let v = text::chars_of(field);
    let mut i: usize = 0;
    while i < v.len()
        invariant
            v@ == field@,
            field@.len() > 0,
            i <= v@.len(),
            forall|k: int| 0 <= k < i ==> is_field_char(#[trigger] v@[k]),
        decreases v@.len() - i,
    {
        let c = v[i];
        if !(text::alnum(c) || c == '*' || c == ',' || c == '/' || c == '-') {
            assert(!is_field_char(field@[i as int]));
            return Err(
                CronError(text::cat3("invalid character in cron field '", field, "'")),
            );
        }
        i += 1;
    }
    let terms = parts::split(field, ',');
    let read = match read_terms(&terms, field, kind) {
        Ok(t) => t,
        Err(e) => {
            return Err(e);
        },
    };
    let out = matched(&read, kind);
    proof {
        let names = text::texts(terms@);
        let p = |x: int|
            exists|i: int|
                0 <= i < read@.len() && in_term(
                    ((#[trigger] read@[i]).lo as int, read@[i].hi as int, read@[i].step as int),
                    x,
                );
        let q = |x: int| in_field(field@, kind, x);
        assert forall|x: int| #[trigger] p(x) == q(x) by {
            if p(x) {
                let i = choose|i: int|
                    0 <= i < read@.len() && in_term(
                        ((#[trigger] read@[i]).lo as int, read@[i].hi as int, read@[i].step as int),
                        x,
                    );
                assert(term_of(names[i], field@, kind) is Ok);
            }
            if q(x) {
                let i = choose|i: int|
                    0 <= i < names.len() && (term_of(#[trigger] names[i], field@, kind) matches Ok(t)
                        && in_term(t, x));
                assert(read@[i].is_valid());
            }
        }
        assert(p =~= q);
    }
    let (min, max) = kind.range();
    if out.len() == (max - min + 1) as usize {
        Ok(Expanded::All)
    } else {
        Ok(Expanded::Values(out))
    }
}

// ---------------------------------------------------------------------------
// Writing calendar lines
// ---------------------------------------------------------------------------

fn two(n: u32) -> (r: String)
    ensures
        r@ == two_digits(n as int),
{
    let d = number::to_decimal(n as u64);
    if n < 10 {
        let mut out = String::new();
        out.push('0');
        out.push_str(d.as_str());
        assert(out@ =~= seq!['0'] + d@);
        out
    } else {
        d
    }
}

/// `*` or a zero-padded comma list, e.g. `00,15,30,45`.
fn fmt_numeric(e: &Expanded, Ghost(field): Ghost<Seq<char>>, Ghost(kind): Ghost<Kind>) -> (r: String)
    requires
        expands(*e, field, kind),
    ensures
        r@ == numeric_of(field, kind),
{
    match e {
        Expanded::All => "*".to_owned(),
        Expanded::Values(v) => {
            let mut pieces: Vec<String> = Vec::new();
            let mut i: usize = 0;
            while i < v.len()
                invariant
                    i <= v@.len(),
                    pieces@.len() == i,
                    forall|k: int| 0 <= k < i ==> (#[trigger] pieces@[k])@ == two_digits(v@[k] as int),
                decreases v@.len() - i,
            {
                pieces.push(two(v[i]));
                i += 1;
            }
            proof {
                assert(text::texts(pieces@) =~= Seq::new(
                    field_values(field, kind).len(),
                    |i: int| two_digits(field_values(field, kind)[i]),
                )) by {
                    assert forall|k: int| 0 <= k < v@.len() implies field_values(field, kind)[k]
                        == #[trigger] v@[k] as int by {
                        assert(e.values()[k] == v@[k] as int);
                    }
                    assert forall|k: int| 0 <= k < v@.len() implies #[trigger] text::texts(
                        pieces@,
                    )[k] == two_digits(field_values(field, kind)[k]) by {
                        assert(pieces@[k]@ == two_digits(v@[k] as int));
                    }
                }
            }
            parts::join(&pieces, ",")
        },
    }
}

fn day_name(d: u32) -> (r: &'static str)
    ensures
        r@ == systemd_day(d as int),
{
    if d == 1 {
        "Mon"
    } else if d == 2 {
        "Tue"
    } else if d == 3 {
        "Wed"
    } else if d == 4 {
        "Thu"
    } else if d == 5 {
        "Fri"
    } else if d == 6 {
        "Sat"
    } else {
        "Sun"
    }
}

/// Nothing for "any day", else `Mon,Wed` in systemd's Mon..Sun order.
fn fmt_dow(e: &Expanded, Ghost(field): Ghost<Seq<char>>) -> (r: String)
    requires
        expands(*e, field, Kind::Dow),
    ensures
        r@ == dow_of(field),
{
    match e {
        Expanded::All => String::new(),
        Expanded::Values(v) => {
            let ghost vals = field_values(field, Kind::Dow);
            let mut names: Vec<String> = Vec::new();
            let mut n: u32 = 0;
            assert(text::texts(names@) =~= day_list(field, 0));
            while n < 7
                invariant
                    n <= 7,
                    vals == field_values(field, Kind::Dow),
                    vals == Seq::new(v@.len(), |i: int| v@[i] as int),
                    text::texts(names@) == day_list(field, n as int),
                decreases 7 - n,
            {
                let d: u32 = if n == 6 {
                    0
                } else {
                    n + 1
                };
                assert(d == week()[n as int]);
                let mut i: usize = 0;
                let mut hit = false;
                while i < v.len()
                    invariant
                        i <= v@.len(),
                        hit == exists|k: int| 0 <= k < i && #[trigger] v@[k] == d,
                    decreases v@.len() - i,
                {
                    if v[i] == d {
                        hit = true;
                    }
                    i += 1;
                }
                proof {
                    if hit {
                        let k = choose|k: int| 0 <= k < v@.len() && #[trigger] v@[k] == d;
                        assert(vals[k] == d as int);
                        assert(vals.contains(d as int));
                    } else if vals.contains(d as int) {
                        let k = choose|k: int| 0 <= k < vals.len() && vals[k] == d as int;
                        assert(v@[k] == d);
                    }
                }
                let ghost before = text::texts(names@);
                if hit {
                    names.push(day_name(d).to_owned());
                    assert(text::texts(names@) =~= before.push(systemd_day(d as int)));
                }
                n += 1;
            }
            parts::join(&names, ",")
        },
    }
}

fn strings5(a: &str, b: &str, c: &str, d: &str, e: &str) -> (r: Vec<String>)
    ensures
        text::texts(r@) == seq![a@, b@, c@, d@, e@],
{
    let mut v: Vec<String> = Vec::new();
    v.push(a.to_owned());
    v.push(b.to_owned());
    v.push(c.to_owned());
    v.push(d.to_owned());
    v.push(e.to_owned());
    assert(text::texts(v@) =~= seq![a@, b@, c@, d@, e@]);
    v
}

fn expand_macro(m: &str) -> (r: Option<Vec<String>>)
    ensures
        match r {
            Some(f) => macro_fields(m@) == Some(text::texts(f@)),
            None => macro_fields(m@) is None,
        },
{
    if text::same(m, "@yearly") || text::same(m, "@annually") {
        Some(strings5("0", "0", "1", "1", "*"))
    } else if text::same(m, "@monthly") {
        Some(strings5("0", "0", "1", "*", "*"))
    } else if text::same(m, "@weekly") {
        Some(strings5("0", "0", "*", "*", "0"))
    } else if text::same(m, "@daily") || text::same(m, "@midnight") {
        Some(strings5("0", "0", "*", "*", "*"))
    } else if text::same(m, "@hourly") {
        Some(strings5("0", "*", "*", "*", "*"))
    } else {
        None
    }
}

/// Whether a translation is what a specification says, text by text.
pub open spec fn translates(
    r: Result<Translation, CronError>,
    want: Result<Option<Seq<Seq<char>>>, Seq<char>>,
) -> bool {
    match r {
        Ok(Translation::Calendar(v)) => want == Ok::<Option<Seq<Seq<char>>>, Seq<char>>(
            Some(text::texts(v@)),
        ),
        Ok(Translation::Reboot) => want == Ok::<Option<Seq<Seq<char>>>, Seq<char>>(None),
        Err(e) => want == Err::<Option<Seq<Seq<char>>>, Seq<char>>(e.0@),
    }
}

/// Translate five fields.
fn translate_fields(f: &Vec<String>) -> (r: Result<Translation, CronError>)
    requires
        f@.len() == 5,
    ensures
        translates(r, fields_calendar(text::texts(f@))),
{
    reveal(fields_calendar);
    let ghost t = text::texts(f@);
    assert(t[0] == f@[0]@ && t[1] == f@[1]@ && t[2] == f@[2]@ && t[3] == f@[3]@ && t[4] == f@[4]@);
    let e_min = match expand_field(f[0].as_str(), Kind::Min) {
        Ok(e) => e,
        Err(e) => {
            return Err(e);
        },
    };
    let e_hour = match expand_field(f[1].as_str(), Kind::Hour) {
        Ok(e) => e,
        Err(e) => {
            return Err(e);
        },
    };
    let e_dom = match expand_field(f[2].as_str(), Kind::Dom) {
        Ok(e) => e,
        Err(e) => {
            return Err(e);
        },
    };
    let e_month = match expand_field(f[3].as_str(), Kind::Month) {
        Ok(e) => e,
        Err(e) => {
            return Err(e);
        },
    };
    let e_dow = match expand_field(f[4].as_str(), Kind::Dow) {
        Ok(e) => e,
        Err(e) => {
            return Err(e);
        },
    };
    let minute = fmt_numeric(&e_min, Ghost(t[0]), Ghost(Kind::Min));
    let hour = fmt_numeric(&e_hour, Ghost(t[1]), Ghost(Kind::Hour));
    let dom = fmt_numeric(&e_dom, Ghost(t[2]), Ghost(Kind::Dom));
    let month = fmt_numeric(&e_month, Ghost(t[3]), Ghost(Kind::Month));
    let dow = fmt_dow(&e_dow, Ghost(t[4]));
    let mut time = text::cat3(hour.as_str(), ":", minute.as_str());
    time.push_str(":00");

    let mut lines: Vec<String> = Vec::new();
    // cron treats a restricted day-of-month and day-of-week as OR; systemd's
    // OnCalendar joins them with AND. Two OnCalendar= lines in one timer are
    // ORed by systemd, so one per branch preserves the cron meaning.
    if !text::same(dom.as_str(), "*") && !dow.as_str().is_empty() {
        let mut a = text::cat5("*-", month.as_str(), "-", dom.as_str(), " ");
        a.push_str(time.as_str());
        let mut b = text::cat3(dow.as_str(), " *-", month.as_str());
        b.push_str("-* ");
        b.push_str(time.as_str());
        lines.push(a);
        lines.push(b);
    } else if dow.as_str().is_empty() {
        let mut a = text::cat5("*-", month.as_str(), "-", dom.as_str(), " ");
        a.push_str(time.as_str());
        lines.push(a);
    } else {
        let mut a = text::cat3(dow.as_str(), " *-", month.as_str());
        a.push_str("-");
        a.push_str(dom.as_str());
        a.push_str(" ");
        a.push_str(time.as_str());
        lines.push(a);
    }
    assert(text::texts(lines@) =~= calendar_lines(t));
    Ok(Translation::Calendar(lines))
}

/// Translate a 5-field cron expression or an `@macro` to `OnCalendar` values.
pub fn to_calendar(expr: &str) -> (r: Result<Translation, CronError>)
    ensures
        translates(r, translation_of(expr@)),
{
    let fields = parts::words(expr);
    let squeezed = parts::join(&fields, " ");
    let m = text::to_lower(squeezed.as_str());
    if text::same(m.as_str(), "@reboot") {
        return Ok(Translation::Reboot);
    }
    match expand_macro(m.as_str()) {
        Some(f) => {
            assert(text::texts(f@).len() == 5);
            return translate_fields(&f);
        },
        None => {},
    }
    if text::starts_with(m.as_str(), "@") {
        proof {
            reveal_strlit("@");
            assert(m@[0] == "@"@[0]);
        }
        return Err(
            CronError(
                text::cat3(
                    "unknown cron macro '",
                    expr,
                    "' (try @hourly, @daily, @weekly, @monthly, @yearly, @reboot)",
                ),
            ),
        );
    }
    proof {
        reveal_strlit("@");
        assert(m@.len() > 0 && m@[0] == '@' ==> "@"@.is_prefix_of(m@)) by {
            if m@.len() > 0 && m@[0] == '@' {
                assert("@"@ =~= m@.take(1));
            }
        }
    }
    if fields.len() != 5 {
        let n = number::usize_decimal(fields.len());
        return Err(
            CronError(
                text::cat5(
                    "cron expression needs 5 fields (minute hour day-of-month month day-of-week), got ",
                    n.as_str(),
                    " in '",
                    expr,
                    "'",
                ),
            ),
        );
    }
    translate_fields(&fields)
}

// ---------------------------------------------------------------------------
// Laws
// ---------------------------------------------------------------------------

/// A filtered sequence keeps the order of a strictly increasing one.
proof fn lemma_filter_increasing(s: Seq<int>, p: spec_fn(int) -> bool)
    requires
        forall|i: int, j: int| 0 <= i < j < s.len() ==> s[i] < s[j],
    ensures
        forall|i: int, j: int|
            0 <= i < j < s.filter(p).len() ==> s.filter(p)[i] < s.filter(p)[j],
        forall|i: int| 0 <= i < s.filter(p).len() ==> s.contains(#[trigger] s.filter(p)[i]),
    decreases s.len(),
{
    reveal(Seq::filter);
    let f = s.filter(p);
    if s.len() > 0 {
        let d = s.drop_last();
        lemma_filter_increasing(d, p);
        let g = d.filter(p);
        assert forall|i: int| 0 <= i < f.len() implies s.contains(#[trigger] f[i]) by {
            if i < g.len() {
                assert(f[i] == g[i]);
                let k = choose|k: int| 0 <= k < d.len() && d[k] == g[i];
                assert(s[k] == f[i]);
            } else {
                assert(s[s.len() - 1] == f[i]);
            }
        }
        assert forall|i: int, j: int| 0 <= i < j < f.len() implies f[i] < f[j] by {
            if j < g.len() {
                assert(f[i] == g[i] && f[j] == g[j]);
            } else {
                assert(f[i] == g[i]);
                let k = choose|k: int| 0 <= k < d.len() && d[k] == g[i];
                assert(s[k] == f[i] && s[s.len() - 1] == f[j]);
            }
        }
    }
}

/// The values a field expands to lie in its range and are strictly
/// increasing, so none occurs twice.
pub proof fn law_field_values(field: Seq<char>, kind: Kind)
    ensures
        forall|i: int|
            0 <= i < field_values(field, kind).len() ==> kind.least() <= #[trigger] field_values(
                field,
                kind,
            )[i] <= kind.greatest(),
        forall|i: int, j: int|
            0 <= i < j < field_values(field, kind).len() ==> field_values(field, kind)[i]
                < field_values(field, kind)[j],
{
    lemma_filter_increasing(range_values(kind), |v: int| in_field(field, kind, v));
    assert forall|i: int|
        0 <= i < field_values(field, kind).len() implies kind.least() <= #[trigger] field_values(
        field,
        kind,
    )[i] <= kind.greatest() by {
        let x = field_values(field, kind)[i];
        assert(range_values(kind).contains(x));
    }
}

proof fn lemma_leading_zero(s: Seq<char>)
    ensures
        number::digits_value(seq!['0'] + s) == number::digits_value(s),
    decreases s.len(),
{
    let z = seq!['0'] + s;
    if s.len() == 0 {
        assert(z.drop_last() =~= seq![]);
        assert(number::digits_value(z.drop_last()) == 0);
        assert(number::digits_value(s) == 0);
    } else {
        lemma_leading_zero(s.drop_last());
        assert(z.drop_last() =~= seq!['0'] + s.drop_last());
        assert(z.last() == s.last());
    }
}

/// A leading zero is padding: it does not change the number a token of
/// digits stands for.
pub proof fn law_leading_zero_is_padding(tok: Seq<char>, kind: Kind)
    requires
        tok.len() > 0,
        number::all_digits(tok),
    ensures
        token_number(seq!['0'] + tok, kind) == token_number(tok, kind),
{
    let z = seq!['0'] + tok;
    assert(text::lower_text(tok) =~= tok) by {
        assert forall|i: int| 0 <= i < tok.len() implies text::lower_of(#[trigger] tok[i])
            == tok[i] by {
            assert(text::is_digit(tok[i]));
        }
    }
    assert forall|i: int| 0 <= i < z.len() implies text::is_digit(#[trigger] z[i]) by {
        if i > 0 {
            assert(z[i] == tok[i - 1]);
        }
    }
    assert(text::lower_text(z) =~= z);
    lemma_leading_zero(tok);
}

} // verus!
