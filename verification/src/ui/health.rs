//! Last-run result and next elapse for the unit list.
//!
//! Two sources, one call each:
//!
//! * `systemctl show` gives `ActiveState`, `SubState`, `Result` and
//!   `ExecMainStatus` -- everything needed to say whether the last run was
//!   clean and, when it was not, how it failed.
//! * `systemctl list-timers --output=json` gives the next elapse and last
//!   trigger as raw epoch microseconds. The human-readable
//!   `NextElapseUSecRealtime` that `show` returns is a formatted local
//!   timestamp with only a timezone *abbreviation*, which cannot be turned
//!   back into an instant without a date library; the JSON form can.

use crate::number;
use crate::parts;
use crate::strmap;
use crate::strmap::StrMap;
use crate::text;
use crate::unit::escape;
use vstd::prelude::*;

verus! {

broadcast use vstd::string::group_string_axioms;

/// The properties one `systemctl show` call asks for.
pub const SHOW_PROPERTIES: &'static str =
    "--property=Id,ActiveState,SubState,Result,ExecMainStatus,ExecMainExitTimestamp";

/// What the list needs to know about a unit's health.
#[derive(Debug, PartialEq, Eq)]
pub struct Health {
    pub active: String,
    pub sub: String,
    /// systemd's `Result`: `success`, `exit-code`, `signal`, `timeout`, ...
    pub result: String,
    /// The process exit status of the last run, when there was one.
    pub exit_status: Option<i32>,
    /// Next elapse, epoch microseconds. Timers only.
    pub next: Option<u64>,
    /// Last trigger, epoch microseconds. Timers only.
    pub last: Option<u64>,
    /// `ExecMainExitTimestamp` as systemd formatted it, for units the timer
    /// listing does not cover.
    pub last_stamp: String,
}

/// The contents of a [`Health`].
#[verifier::ext_equal]
pub struct HealthView {
    pub active: Seq<char>,
    pub sub: Seq<char>,
    pub result: Seq<char>,
    pub exit_status: Option<i32>,
    pub next: Option<u64>,
    pub last: Option<u64>,
    pub last_stamp: Seq<char>,
}

impl View for Health {
    type V = HealthView;

    open spec fn view(&self) -> HealthView {
        HealthView {
            active: self.active@,
            sub: self.sub@,
            result: self.result@,
            exit_status: self.exit_status,
            next: self.next,
            last: self.last,
            last_stamp: self.last_stamp@,
        }
    }
}

impl Clone for Health {
    fn clone(&self) -> (r: Health)
        ensures
            r@ == self@,
    {
        Health {
            active: self.active.clone(),
            sub: self.sub.clone(),
            result: self.result.clone(),
            exit_status: self.exit_status,
            next: self.next,
            last: self.last,
            last_stamp: self.last_stamp.clone(),
        }
    }
}

/// A health of which nothing is known.
pub open spec fn unknown() -> HealthView {
    HealthView {
        active: seq![],
        sub: seq![],
        result: seq![],
        exit_status: None,
        next: None,
        last: None,
        last_stamp: seq![],
    }
}

impl Default for Health {
    fn default() -> (r: Health)
        ensures
            r@ == unknown(),
    {
        let r = Health {
            active: String::new(),
            sub: String::new(),
            result: String::new(),
            exit_status: None,
            next: None,
            last: None,
            last_stamp: String::new(),
        };
        assert(r@ =~= unknown());
        r
    }
}

impl HealthView {
    /// Whether the last run did not end cleanly, or the unit itself failed.
    pub open spec fn has_failed(self) -> bool {
        ||| self.active == "failed"@
        ||| self.sub == "failed"@
        ||| (self.result.len() > 0 && self.result != "success"@)
        ||| (self.exit_status is Some && self.exit_status->0 != 0)
    }

    /// Whether the unit is mid-run.
    pub open spec fn is_running(self) -> bool {
        self.sub == "running"@ || self.active == "activating"@
    }

    /// Whether anything is known.
    pub open spec fn is_known(self) -> bool {
        self.active.len() > 0 || self.next is Some || self.last is Some
    }

    /// The outcome of the most recent run, in a word.
    pub open spec fn last_label_of(self) -> Seq<char> {
        if self.is_running() {
            "running"@
        } else if !self.is_known() {
            "-"@
        } else if self.result == "success"@ || self.result.len() == 0 {
            if self.active == "failed"@ {
                "failed"@
            } else if self.last is Some || self.last_stamp.len() > 0 {
                "ok"@
            } else {
                "-"@
            }
        } else if self.result == "exit-code"@ {
            match self.exit_status {
                Some(s) => "exit "@ + number::signed_decimal(s as int),
                None => "exit"@,
            }
        } else if self.result == "signal"@ || self.result == "core-dump"@ {
            "killed"@
        } else if self.result == "start-limit-hit"@ {
            "throttled"@
        } else {
            self.result
        }
    }

    /// When the unit fires next, relative to `now`.
    pub open spec fn next_label_of(self, now: u64) -> Seq<char> {
        match self.next {
            Some(t) => "in "@ + span_of(until(now, t)),
            None => "-"@,
        }
    }

    /// What is said of the state.
    pub open spec fn state_part(self) -> Seq<Seq<char>> {
        if self.active.len() == 0 {
            seq![]
        } else if self.sub.len() == 0 {
            seq![self.active]
        } else {
            seq![self.active + " ("@ + self.sub + ")"@]
        }
    }

    /// What is said of the last run.
    pub open spec fn last_part(self, now: u64) -> Seq<Seq<char>> {
        if self.last is Some && self.last->0 > 0 {
            seq!["last "@ + span_of(until(self.last->0, now)) + " ago, "@ + self.last_label_of()]
        } else if self.last_stamp.len() > 0 {
            seq!["last "@ + short_stamp_of(self.last_stamp) + ", "@ + self.last_label_of()]
        } else {
            seq![]
        }
    }

    /// What is said of the next run.
    pub open spec fn next_part(self, now: u64) -> Seq<Seq<char>> {
        match self.next {
            Some(t) => seq!["next in "@ + span_of(until(now, t))],
            None => seq![],
        }
    }

    /// A sentence about the unit.
    pub open spec fn detail_of(self, now: u64) -> Seq<char> {
        parts::join_of(self.state_part() + self.last_part(now) + self.next_part(now), "  --  "@)
    }
}

/// The time from `a` to `b`; none where `b` has passed.
pub open spec fn until(a: u64, b: u64) -> nat {
    if a < b {
        (b - a) as nat
    } else {
        0
    }
}

fn time_until(a: u64, b: u64) -> (r: u64)
    ensures
        r == until(a, b),
{
    if a < b {
        b - a
    } else {
        0
    }
}

impl Health {
    /// True when this unit's last run did not end cleanly, or when the unit
    /// itself is in the failed state.
    pub fn failed(&self) -> (r: bool)
        ensures
            r == self@.has_failed(),
    {
        let exit = match self.exit_status {
            Some(s) => s != 0,
            None => false,
        };
        text::same(self.active.as_str(), "failed") || text::same(self.sub.as_str(), "failed") || (
        !self.result.as_str().is_empty() && !text::same(self.result.as_str(), "success")) || exit
    }

    /// True when the unit is mid-run right now.
    pub fn running(&self) -> (r: bool)
        ensures
            r == self@.is_running(),
    {
        text::same(self.sub.as_str(), "running") || text::same(self.active.as_str(), "activating")
    }

    /// Whether anything is known at all -- an empty `Health` means the
    /// manager did not answer, and the columns should stay blank rather than
    /// claim the unit is fine.
    pub fn known(&self) -> (r: bool)
        ensures
            r == self@.is_known(),
    {
        !self.active.as_str().is_empty() || self.next.is_some() || self.last.is_some()
    }

    /// The "Last" column: the outcome of the most recent run, short enough to
    /// live in ten characters.
    pub fn last_label(&self) -> (r: String)
        ensures
            r@ == self@.last_label_of(),
    {
        if self.running() {
            return "running".to_owned();
        }
        if !self.known() {
            return "-".to_owned();
        }
        let result = self.result.as_str();
        if text::same(result, "success") || result.is_empty() {
            if text::same(self.active.as_str(), "failed") {
                "failed".to_owned()
            } else if self.last.is_some() || !self.last_stamp.as_str().is_empty() {
                "ok".to_owned()
            } else {
                "-".to_owned()
            }
        } else if text::same(result, "exit-code") {
            match self.exit_status {
                Some(s) => {
                    let n = number::i32_decimal(s);
                    text::cat2("exit ", n.as_str())
                },
                None => "exit".to_owned(),
            }
        } else if text::same(result, "signal") || text::same(result, "core-dump") {
            "killed".to_owned()
        } else if text::same(result, "start-limit-hit") {
            "throttled".to_owned()
        } else {
            self.result.clone()
        }
    }

    /// The "Next" column: when this fires next, relative to `now_usec`.
    pub fn next_label(&self, now_usec: u64) -> (r: String)
        ensures
            r@ == self@.next_label_of(now_usec),
    {
        match self.next {
            Some(t) => {
                let s = span(time_until(now_usec, t));
                text::cat2("in ", s.as_str())
            },
            None => "-".to_owned(),
        }
    }

    /// A sentence for the detail line under the list.
    pub fn detail(&self, now_usec: u64) -> (r: String)
        ensures
            r@ == self@.detail_of(now_usec),
    {
        let mut out: Vec<String> = Vec::new();
        if !self.active.as_str().is_empty() {
            if self.sub.as_str().is_empty() {
                out.push(self.active.clone());
            } else {
                let head = text::cat3(self.active.as_str(), " (", self.sub.as_str());
                out.push(text::cat2(head.as_str(), ")"));
            }
        }
        assert(text::texts(out@) =~= self@.state_part());
        let ghost before = text::texts(out@);
        let label = self.last_label();
        let triggered = match self.last {
            Some(t) => t > 0,
            None => false,
        };
        if triggered {
            let t: u64 = match self.last {
                Some(t) => t,
                None => 0,
            };
            let s = span(time_until(t, now_usec));
            let head = text::cat3("last ", s.as_str(), " ago, ");
            out.push(text::cat2(head.as_str(), label.as_str()));
        } else if !self.last_stamp.as_str().is_empty() {
            let s = short_stamp(self.last_stamp.as_str());
            let head = text::cat3("last ", s.as_str(), ", ");
            out.push(text::cat2(head.as_str(), label.as_str()));
        }
        assert(text::texts(out@) =~= before + self@.last_part(now_usec));
        let ghost before = text::texts(out@);
        if let Some(t) = self.next {
            let s = span(time_until(now_usec, t));
            out.push(text::cat2("next in ", s.as_str()));
        }
        assert(text::texts(out@) =~= before + self@.next_part(now_usec));
        parts::join(&out, "  --  ")
    }
}

/// A duration in microseconds: its two largest units, and no more.
pub open spec fn span_of(usec: nat) -> Seq<char> {
    let secs = usec / 1_000_000;
    let d = secs / 86_400;
    let h = (secs % 86_400) / 3600;
    let m = (secs % 3600) / 60;
    let s = secs % 60;
    if secs == 0 {
        "now"@
    } else if d > 0 {
        if h > 0 {
            number::decimal(d) + "d "@ + number::decimal(h) + "h"@
        } else {
            number::decimal(d) + "d"@
        }
    } else if h > 0 {
        if m > 0 {
            number::decimal(h) + "h "@ + number::decimal(m) + "m"@
        } else {
            number::decimal(h) + "h"@
        }
    } else if m > 0 {
        number::decimal(m) + "m"@
    } else {
        number::decimal(s) + "s"@
    }
}

/// A duration in microseconds, as systemd would phrase it: the two largest
/// units that matter and no more.
pub fn span(usec: u64) -> (r: String)
    ensures
        r@ == span_of(usec as nat),
{
    let secs: u64 = usec / 1_000_000;
    if secs == 0 {
        return "now".to_owned();
    }
    let d: u64 = secs / 86_400;
    let h: u64 = (secs % 86_400) / 3600;
    let m: u64 = (secs % 3600) / 60;
    let s: u64 = secs % 60;
    if d > 0 {
        let ds = number::to_decimal(d);
        if h > 0 {
            let hs = number::to_decimal(h);
            let head = text::cat3(ds.as_str(), "d ", hs.as_str());
            text::cat2(head.as_str(), "h")
        } else {
            text::cat2(ds.as_str(), "d")
        }
    } else if h > 0 {
        let hs = number::to_decimal(h);
        if m > 0 {
            let ms = number::to_decimal(m);
            let head = text::cat3(hs.as_str(), "h ", ms.as_str());
            text::cat2(head.as_str(), "m")
        } else {
            text::cat2(hs.as_str(), "h")
        }
    } else if m > 0 {
        let ms = number::to_decimal(m);
        text::cat2(ms.as_str(), "m")
    } else {
        let ss = number::to_decimal(s);
        text::cat2(ss.as_str(), "s")
    }
}

/// A date in digits: `2026-08-14`.
pub open spec fn is_date(s: Seq<char>) -> bool {
    &&& s.len() == 10
    &&& forall|i: int|
        0 <= i < 10 ==> if i == 4 || i == 7 {
            #[trigger] s[i] == '-'
        } else {
            text::is_digit(s[i])
        }
}

/// Hours and minutes in digits, and whatever follows them: `19:44:20`.
pub open spec fn is_clock(s: Seq<char>) -> bool {
    &&& s.len() >= 5
    &&& forall|i: int|
        0 <= i < 5 ==> if i == 2 {
            #[trigger] s[i] == ':'
        } else {
            text::is_digit(s[i])
        }
}

/// A timestamp without its weekday, year, seconds and zone. What does not
/// have a date as its second word and a time as its third is clipped.
pub open spec fn short_stamp_of(s: Seq<char>) -> Seq<char> {
    let w = parts::words_of(s);
    if w.len() >= 3 && is_date(w[1]) && is_clock(w[2]) {
        w[1].skip(5) + " "@ + w[2].take(5)
    } else {
        escape::clip_of(s, 11)
    }
}

fn reads_as_date(s: &str) -> (r: bool)
    ensures
        r == is_date(s@),
{
    let v = text::chars_of(s);
    if v.len() != 10 {
        return false;
    }
    let mut i: usize = 0;
    while i < 10
        invariant
            v@ == s@,
            s@.len() == 10,
            i <= 10,
            forall|k: int|
                0 <= k < i ==> if k == 4 || k == 7 {
                    #[trigger] s@[k] == '-'
                } else {
                    text::is_digit(s@[k])
                },
        decreases 10 - i,
    {
        let fits = if i == 4 || i == 7 {
            v[i] == '-'
        } else {
            text::digit(v[i])
        };
        if !fits {
            assert(v@[i as int] == s@[i as int]);
            return false;
        }
        i += 1;
    }
    true
}

fn reads_as_clock(s: &str) -> (r: bool)
    ensures
        r == is_clock(s@),
{
    let v = text::chars_of(s);
    if v.len() < 5 {
        return false;
    }
    let mut i: usize = 0;
    while i < 5
        invariant
            v@ == s@,
            s@.len() >= 5,
            i <= 5,
            forall|k: int|
                0 <= k < i ==> if k == 2 {
                    #[trigger] s@[k] == ':'
                } else {
                    text::is_digit(s@[k])
                },
        decreases 5 - i,
    {
        let fits = if i == 2 {
            v[i] == ':'
        } else {
            text::digit(v[i])
        };
        if !fits {
            assert(v@[i as int] == s@[i as int]);
            return false;
        }
        i += 1;
    }
    true
}

/// `Fri 2026-08-14 19:44:20 CEST` -> `08-14 19:44`. Anything that does not
/// look like that comes back unchanged, clipped.
pub fn short_stamp(s: &str) -> (r: String)
    ensures
        r@ == short_stamp_of(s@),
{
    let w = parts::words(s);
    let ghost words = text::texts(w@);
    if w.len() < 3 {
        return escape::clip(s, 11);
    }
    assert(words[1] == w@[1]@);
    assert(words[2] == w@[2]@);
    let date = w[1].as_str();
    let time = w[2].as_str();
    if !reads_as_date(date) || !reads_as_clock(time) {
        return escape::clip(s, 11);
    }
    assert(date@.subrange(5, 10) =~= date@.skip(5));
    assert(time@.subrange(0, 5) =~= time@.take(5));
    text::cat3(date.substring_char(5, 10), " ", time.substring_char(0, 5))
}

// ---------------------------------------------------------------------------
// `systemctl show`
// ---------------------------------------------------------------------------

/// The properties that some lines give.
pub open spec fn props_of(lines: Seq<Seq<char>>) -> Map<Seq<char>, Seq<char>>
    decreases lines.len(),
{
    if lines.len() == 0 {
        Map::empty()
    } else {
        let rest = props_of(lines.drop_last());
        match parts::split_once_of(lines.last(), '=') {
            Some((k, v)) => rest.insert(text::trim_of(k), v),
            None => rest,
        }
    }
}

/// The properties that some blocks give, by the unit each speaks of.
pub open spec fn show_of(blocks: Seq<Seq<char>>) -> Map<Seq<char>, Map<Seq<char>, Seq<char>>>
    decreases blocks.len(),
{
    if blocks.len() == 0 {
        Map::empty()
    } else {
        let rest = show_of(blocks.drop_last());
        let p = props_of(parts::lines_of(blocks.last()));
        if p.dom().contains("Id"@) && p["Id"@].len() > 0 {
            rest.insert(p["Id"@], p)
        } else {
            rest
        }
    }
}

fn read_props(block: &str) -> (r: StrMap<String>)
    ensures
        r@ == props_of(parts::lines_of(block@)),
{
    let lines = parts::lines(block);
    let ghost all = text::texts(lines@);
    let mut props: StrMap<String> = StrMap::new();
    let mut i: usize = 0;
    assert(all.take(0) =~= seq![]);
    while i < lines.len()
        invariant
            i <= lines@.len(),
            all == text::texts(lines@),
            props@ == props_of(all.take(i as int)),
        decreases lines@.len() - i,
    {
        proof {
            assert(all.take(i + 1).drop_last() =~= all.take(i as int));
            assert(all.take(i + 1).last() == lines@[i as int]@);
        }
        if let Some((k, v)) = parts::split_once(lines[i].as_str(), '=') {
            props.insert(text::trim(k).to_owned(), v.to_owned());
        }
        i += 1;
    }
    assert(all.take(lines@.len() as int) =~= all);
    props
}

/// Split `systemctl show` output into one property map per unit, keyed by
/// `Id`. Blocks are separated by a blank line; a block without an `Id` is
/// dropped, since there is nothing to attach it to.
pub fn parse_show(output: &str) -> (r: StrMap<StrMap<String>>)
    ensures
        r@ == show_of(parts::split_str_of(output@, "\n\n"@)),
{
    proof {
        reveal_strlit("\n\n");
    }
    let blocks = parts::split_str(output, "\n\n");
    let ghost all = text::texts(blocks@);
    let mut out: StrMap<StrMap<String>> = StrMap::new();
    let mut i: usize = 0;
    assert(all.take(0) =~= seq![]);
    while i < blocks.len()
        invariant
            i <= blocks@.len(),
            all == text::texts(blocks@),
            out@ == show_of(all.take(i as int)),
        decreases blocks@.len() - i,
    {
        proof {
            assert(all.take(i + 1).drop_last() =~= all.take(i as int));
            assert(all.take(i + 1).last() == blocks@[i as int]@);
        }
        let props = read_props(blocks[i].as_str());
        let id = match props.get("Id") {
            Some(s) => s.clone(),
            None => String::new(),
        };
        if !id.as_str().is_empty() {
            out.insert(id, props);
        }
        i += 1;
    }
    assert(all.take(blocks@.len() as int) =~= all);
    out
}

/// The value of a property; nothing where it is not given.
pub open spec fn prop_of(props: Map<Seq<char>, Seq<char>>, key: Seq<char>) -> Seq<char> {
    if props.dom().contains(key) {
        props[key]
    } else {
        seq![]
    }
}

/// The health that some properties give.
pub open spec fn health_of(props: Map<Seq<char>, Seq<char>>) -> HealthView {
    let stamp = prop_of(props, "ExecMainExitTimestamp"@);
    HealthView {
        active: prop_of(props, "ActiveState"@),
        sub: prop_of(props, "SubState"@),
        result: prop_of(props, "Result"@),
        exit_status: if props.dom().contains("ExecMainStatus"@) {
            match number::parse_signed(
                text::trim_of(props["ExecMainStatus"@]),
                0x8000_0000,
                0x7fff_ffff,
            ) {
                Some(n) => Some(n as i32),
                None => None,
            }
        } else {
            None
        },
        next: None,
        last: None,
        last_stamp: if stamp == "n/a"@ {
            seq![]
        } else {
            stamp
        },
    }
}

fn prop(props: &StrMap<String>, key: &str) -> (r: String)
    ensures
        r@ == prop_of(props@, key@),
{
    match props.get(key) {
        Some(v) => v.clone(),
        None => String::new(),
    }
}

/// Turn one unit's properties into a [`Health`].
pub fn health_from_props(props: &StrMap<String>) -> (r: Health)
    ensures
        r@ == health_of(props@),
{
    let stamp = prop(props, "ExecMainExitTimestamp");
    let exit_status = match props.get("ExecMainStatus") {
        Some(s) => number::parse_i32(text::trim(s.as_str())),
        None => None,
    };
    let r = Health {
        active: prop(props, "ActiveState"),
        sub: prop(props, "SubState"),
        result: prop(props, "Result"),
        exit_status,
        next: None,
        last: None,
        // systemd prints `n/a` for a unit that has never run.
        last_stamp: if text::same(stamp.as_str(), "n/a") {
            String::new()
        } else {
            stamp
        },
    };
    assert(r@ =~= health_of(props@));
    r
}

// ---------------------------------------------------------------------------
// `systemctl list-timers --output=json`
// ---------------------------------------------------------------------------

/// What a character stands for behind a backslash.
pub open spec fn unescaped(c: char) -> char {
    if c == 'n' {
        '\n'
    } else if c == 't' {
        '\t'
    } else {
        c
    }
}

/// A string, from behind its opening quote: what it holds, and the text
/// behind its closing quote. The end of the text ends it too.
pub open spec fn string_of(s: Seq<char>) -> (Seq<char>, Seq<char>)
    decreases s.len(),
{
    if s.len() == 0 {
        (seq![], seq![])
    } else if s[0] == '"' {
        (seq![], s.skip(1))
    } else if s[0] == '\\' && s.len() > 1 {
        let (v, rest) = string_of(s.skip(2));
        (seq![unescaped(s[1])] + v, rest)
    } else {
        let (v, rest) = string_of(s.skip(1));
        (seq![s[0]] + v, rest)
    }
}

/// The text from the first quote or closing brace on.
pub open spec fn from_key(s: Seq<char>) -> Seq<char>
    decreases s.len(),
{
    if s.len() == 0 || s[0] == '"' || s[0] == '}' {
        s
    } else {
        from_key(s.skip(1))
    }
}

/// The text behind the first colon.
pub open spec fn behind_colon(s: Seq<char>) -> Seq<char>
    decreases s.len(),
{
    if s.len() == 0 {
        s
    } else if s[0] == ':' {
        s.skip(1)
    } else {
        behind_colon(s.skip(1))
    }
}

/// The number of characters before the first comma or closing brace.
pub open spec fn bare_len(s: Seq<char>) -> int
    decreases s.len(),
{
    if s.len() == 0 || s[0] == ',' || s[0] == '}' {
        0
    } else {
        1 + bare_len(s.skip(1))
    }
}

/// A value and the text behind it: a string, or what stands before the next
/// comma or brace.
pub open spec fn value_of(s: Seq<char>) -> (Seq<char>, Seq<char>) {
    if s.len() > 0 && s[0] == '"' {
        string_of(s.skip(1))
    } else {
        (text::trim_of(s.take(bare_len(s))), s.skip(bare_len(s)))
    }
}

/// The text behind the white space and the comma that follow a value.
pub open spec fn behind_comma(s: Seq<char>) -> Seq<char> {
    let t = text::trim_start_of(s);
    if t.len() > 0 && t[0] == ',' {
        t.skip(1)
    } else {
        t
    }
}

/// The text where the value of a member starts, from behind its opening
/// quote.
pub open spec fn to_value(s: Seq<char>) -> Seq<char> {
    text::trim_start_of(behind_colon(string_of(s).1))
}

/// An object, from behind its opening brace or behind some of its members:
/// all members, and the text behind its closing brace. `None` where the text
/// ends in it.
pub open spec fn object_of(s: Seq<char>, m: Map<Seq<char>, Seq<char>>) -> Option<
    (Map<Seq<char>, Seq<char>>, Seq<char>),
>
    decreases s.len(),
    via object_of_terminates
{
    let t = from_key(s);
    if t.len() == 0 {
        None
    } else if t[0] == '}' {
        Some((m, t.skip(1)))
    } else {
        let key = string_of(t.skip(1)).0;
        let v = to_value(t.skip(1));
        if v.len() == 0 {
            None
        } else {
            object_of(behind_comma(value_of(v).1), m.insert(key, value_of(v).0))
        }
    }
}

#[via_fn]
proof fn object_of_terminates(s: Seq<char>, m: Map<Seq<char>, Seq<char>>) {
    let t = from_key(s);
    lemma_from_key(s);
    if t.len() > 0 {
        lemma_member_shrinks(t.skip(1));
    }
}

proof fn lemma_string_shrinks(s: Seq<char>)
    ensures
        string_of(s).1.len() <= s.len(),
    decreases s.len(),
{
    if s.len() > 0 && s[0] != '"' {
        if s[0] == '\\' && s.len() > 1 {
            lemma_string_shrinks(s.skip(2));
        } else {
            lemma_string_shrinks(s.skip(1));
        }
    }
}

proof fn lemma_from_key(s: Seq<char>)
    ensures
        from_key(s).len() <= s.len(),
    decreases s.len(),
{
    if s.len() > 0 && s[0] != '"' && s[0] != '}' {
        lemma_from_key(s.skip(1));
    }
}

proof fn lemma_behind_colon(s: Seq<char>)
    ensures
        behind_colon(s).len() <= s.len(),
    decreases s.len(),
{
    if s.len() > 0 && s[0] != ':' {
        lemma_behind_colon(s.skip(1));
    }
}

proof fn lemma_bare_len(s: Seq<char>)
    ensures
        0 <= bare_len(s) <= s.len(),
    decreases s.len(),
{
    if s.len() > 0 && s[0] != ',' && s[0] != '}' {
        lemma_bare_len(s.skip(1));
    }
}

proof fn lemma_member_shrinks(s: Seq<char>)
    ensures
        to_value(s).len() <= s.len(),
        behind_comma(value_of(to_value(s)).1).len() <= s.len(),
{
    lemma_string_shrinks(s);
    lemma_behind_colon(string_of(s).1);
    text::lemma_trim_start(behind_colon(string_of(s).1));
    let v = to_value(s);
    if v.len() > 0 {
        lemma_string_shrinks(v.skip(1));
    }
    lemma_bare_len(v);
    text::lemma_trim_start(value_of(v).1);
}

proof fn lemma_object_shrinks(s: Seq<char>, m: Map<Seq<char>, Seq<char>>)
    ensures
        object_of(s, m) matches Some(r) ==> r.1.len() < s.len(),
    decreases s.len(),
{
    let t = from_key(s);
    lemma_from_key(s);
    if t.len() > 0 && t[0] != '}' {
        lemma_member_shrinks(t.skip(1));
        let v = to_value(t.skip(1));
        if v.len() > 0 {
            lemma_object_shrinks(
                behind_comma(value_of(v).1),
                m.insert(string_of(t.skip(1)).0, value_of(v).0),
            );
        }
    }
}

/// The objects of a text, up to one that does not end.
pub open spec fn objects_of(s: Seq<char>) -> Seq<Map<Seq<char>, Seq<char>>>
    decreases s.len(),
    via objects_of_terminates
{
    if s.len() == 0 {
        seq![]
    } else if s[0] != '{' {
        objects_of(s.skip(1))
    } else {
        match object_of(s.skip(1), Map::empty()) {
            Some((m, rest)) => seq![m] + objects_of(rest),
            None => seq![],
        }
    }
}

#[via_fn]
proof fn objects_of_terminates(s: Seq<char>) {
    if s.len() > 0 {
        lemma_object_shrinks(s.skip(1), Map::empty());
    }
}

/// Read one JSON string starting at the opening quote.
fn scan_string(chars: &[char], start: usize) -> (r: (String, usize))
    requires
        start < chars@.len(),
    ensures
        start < r.1 <= chars@.len(),
        (r.0@, chars@.skip(r.1 as int)) == string_of(chars@.skip(start + 1)),
{
    let n: usize = chars.len();
    let ghost whole = string_of(chars@.skip(start + 1));
    let mut out = String::new();
    let mut i: usize = start + 1;
    assert(Seq::<char>::empty() + whole.0 =~= whole.0);
    while i < n
        invariant
            n == chars@.len(),
            start < i <= n,
            out@ + string_of(chars@.skip(i as int)).0 == whole.0,
            string_of(chars@.skip(i as int)).1 == whole.1,
            whole == string_of(chars@.skip(start + 1)),
        decreases n - i,
    {
        let c = chars[i];
        let ghost s = chars@.skip(i as int);
        let ghost before = out@;
        assert(s[0] == c);
        assert(s.skip(1) =~= chars@.skip(i + 1));
        if c == '"' {
            assert(out@ =~= whole.0);
            return (out, i + 1);
        }
        if c == '\\' && i + 1 < n {
            let e = chars[i + 1];
            assert(s[1] == e);
            assert(s.skip(2) =~= chars@.skip(i + 2));
            let u = if e == 'n' {
                '\n'
            } else if e == 't' {
                '\t'
            } else {
                e
            };
            out.push(u);
            assert(before.push(u) + string_of(s.skip(2)).0 =~= before + (seq![u] + string_of(
                s.skip(2),
            ).0));
            i += 2;
        } else {
            out.push(c);
            assert(before.push(c) + string_of(s.skip(1)).0 =~= before + (seq![c] + string_of(
                s.skip(1),
            ).0));
            i += 1;
        }
    }
    assert(chars@.skip(n as int) =~= seq![]);
    assert(out@ =~= whole.0);
    (out, i)
}

/// The index of the first quote or closing brace.
fn find_key(chars: &[char], from: usize) -> (r: usize)
    requires
        from <= chars@.len(),
    ensures
        from <= r <= chars@.len(),
        chars@.skip(r as int) == from_key(chars@.skip(from as int)),
{
    let mut i: usize = from;
    while i < chars.len() && chars[i] != '"' && chars[i] != '}'
        invariant
            from <= i <= chars@.len(),
            from_key(chars@.skip(i as int)) == from_key(chars@.skip(from as int)),
        decreases chars@.len() - i,
    {
        assert(chars@.skip(i as int)[0] == chars@[i as int]);
        assert(chars@.skip(i as int).skip(1) =~= chars@.skip(i + 1));
        i += 1;
    }
    proof {
        if i < chars@.len() {
            assert(chars@.skip(i as int)[0] == chars@[i as int]);
        }
    }
    i
}

/// The index behind the first colon.
fn find_value(chars: &[char], from: usize) -> (r: usize)
    requires
        from <= chars@.len(),
    ensures
        from <= r <= chars@.len(),
        chars@.skip(r as int) == behind_colon(chars@.skip(from as int)),
{
    let mut i: usize = from;
    while i < chars.len()
        invariant
            from <= i <= chars@.len(),
            behind_colon(chars@.skip(i as int)) == behind_colon(chars@.skip(from as int)),
        decreases chars@.len() - i,
    {
        assert(chars@.skip(i as int)[0] == chars@[i as int]);
        assert(chars@.skip(i as int).skip(1) =~= chars@.skip(i + 1));
        if chars[i] == ':' {
            return i + 1;
        }
        i += 1;
    }
    assert(chars@.skip(i as int) =~= seq![]);
    i
}

/// The index of the first character that is not white.
fn skip_white(chars: &[char], from: usize) -> (r: usize)
    requires
        from <= chars@.len(),
    ensures
        from <= r <= chars@.len(),
        chars@.skip(r as int) == text::trim_start_of(chars@.skip(from as int)),
{
    let mut i: usize = from;
    while i < chars.len() && text::white(chars[i])
        invariant
            from <= i <= chars@.len(),
            text::trim_start_of(chars@.skip(i as int)) == text::trim_start_of(
                chars@.skip(from as int),
            ),
        decreases chars@.len() - i,
    {
        assert(chars@.skip(i as int)[0] == chars@[i as int]);
        assert(chars@.skip(i as int).skip(1) =~= chars@.skip(i + 1));
        i += 1;
    }
    proof {
        if i < chars@.len() {
            assert(chars@.skip(i as int)[0] == chars@[i as int]);
        }
    }
    i
}

/// A value starting at `from`, and the index behind it.
fn scan_value(chars: &[char], from: usize) -> (r: (String, usize))
    requires
        from < chars@.len(),
    ensures
        from <= r.1 <= chars@.len(),
        (r.0@, chars@.skip(r.1 as int)) == value_of(chars@.skip(from as int)),
{
    let ghost s = chars@.skip(from as int);
    assert(s[0] == chars@[from as int]);
    if chars[from] == '"' {
        assert(s.skip(1) =~= chars@.skip(from + 1));
        return scan_string(chars, from);
    }
    let mut raw = String::new();
    let mut i: usize = from;
    assert(s.take(0) =~= seq![]);
    while i < chars.len() && chars[i] != ',' && chars[i] != '}'
        invariant
            from <= i <= chars@.len(),
            s == chars@.skip(from as int),
            raw@ == s.take(i - from),
            bare_len(s) == (i - from) + bare_len(chars@.skip(i as int)),
        decreases chars@.len() - i,
    {
        assert(chars@.skip(i as int)[0] == chars@[i as int]);
        assert(chars@.skip(i as int).skip(1) =~= chars@.skip(i + 1));
        raw.push(chars[i]);
        assert(raw@ =~= s.take(i + 1 - from));
        i += 1;
    }
    proof {
        if i < chars@.len() {
            assert(chars@.skip(i as int)[0] == chars@[i as int]);
        }
        assert(bare_len(s) == i - from);
        assert(s.skip(i - from) =~= chars@.skip(i as int));
    }
    (text::trim(raw.as_str()).to_owned(), i)
}

/// Read one `{...}` starting at `start`, returning it and the index after it.
fn scan_object(chars: &[char], start: usize) -> (r: (Option<StrMap<String>>, usize))
    requires
        start < chars@.len(),
    ensures
        start < r.1 <= chars@.len(),
        match r.0 {
            Some(m) => object_of(chars@.skip(start + 1), Map::empty()) == Some(
                (m@, chars@.skip(r.1 as int)),
            ),
            None => object_of(chars@.skip(start + 1), Map::empty()) is None,
        },
{
    let n: usize = chars.len();
    let ghost whole = object_of(chars@.skip(start + 1), Map::empty());
    let mut map: StrMap<String> = StrMap::new();
    let mut i: usize = start + 1;
    loop
        invariant
            n == chars@.len(),
            start < i <= n,
            whole == object_of(chars@.skip(start + 1), Map::empty()),
            whole == object_of(chars@.skip(i as int), map@),
        decreases n - i,
    {
        let k = find_key(chars, i);
        let ghost t = chars@.skip(k as int);
        if k >= n {
            return (None, n);
        }
        assert(t[0] == chars@[k as int]);
        assert(t.skip(1) =~= chars@.skip(k + 1));
        if chars[k] == '}' {
            return (Some(map), k + 1);
        }
        let (key, next) = scan_string(chars, k);
        let at = skip_white(chars, find_value(chars, next));
        assert(chars@.skip(at as int) == to_value(t.skip(1)));
        if at >= n {
            return (None, n);
        }
        let (val, end) = scan_value(chars, at);
        map.insert(key, val);
        let c = skip_white(chars, end);
        let ghost rest = chars@.skip(c as int);
        let after: usize = if c < n && chars[c] == ',' {
            c + 1
        } else {
            c
        };
        proof {
            if c < n {
                assert(rest[0] == chars@[c as int]);
                assert(rest.skip(1) =~= chars@.skip(c + 1));
            }
            assert(chars@.skip(after as int) == behind_comma(chars@.skip(end as int)));
        }
        i = after;
    }
}

/// The objects of a text: what each holds, by key. String values are unquoted
/// and unescaped; numbers, booleans and null come back as their literal text.
fn parse_flat_objects(output: &str) -> (r: Vec<StrMap<String>>)
    ensures
        Seq::new(r@.len(), |i: int| r@[i]@) == objects_of(output@),
{
    let chars = text::chars_of(output);
    let n: usize = chars.len();
    let mut out: Vec<StrMap<String>> = Vec::new();
    let ghost mut done: Seq<Map<Seq<char>, Seq<char>>> = seq![];
    let mut i: usize = 0;
    assert(chars@.skip(0) =~= chars@);
    assert(done + objects_of(chars@) =~= objects_of(chars@));
    assert(Seq::new(out@.len(), |i: int| out@[i]@) =~= done);
    while i < n
        invariant
            n == chars@.len(),
            chars@ == output@,
            i <= n,
            done == Seq::new(out@.len(), |i: int| out@[i]@),
            done + objects_of(chars@.skip(i as int)) == objects_of(output@),
        decreases n - i,
    {
        let ghost s = chars@.skip(i as int);
        assert(s[0] == chars@[i as int]);
        assert(s.skip(1) =~= chars@.skip(i + 1));
        if chars[i] != '{' {
            i += 1;
        } else {
            let (obj, next) = scan_object(&chars, i);
            match obj {
                Some(m) => {
                    let ghost rest = objects_of(chars@.skip(next as int));
                    out.push(m);
                    proof {
                        assert(done + (seq![m@] + rest) =~= done.push(m@) + rest);
                        done = done.push(m@);
                        assert(Seq::new(out@.len(), |i: int| out@[i]@) =~= done);
                    }
                    i = next;
                },
                None => {
                    assert(done + seq![] =~= done);
                    return out;
                },
            }
        }
    }
    assert(chars@.skip(n as int) =~= seq![]);
    assert(done + seq![] =~= done);
    out
}

/// One row of `systemctl list-timers --output=json`.
#[derive(Debug, PartialEq, Eq)]
pub struct TimerRow {
    pub unit: String,
    /// Next elapse, epoch microseconds. `None` for a timer that will not fire.
    pub next: Option<u64>,
    /// Last trigger, epoch microseconds. `None` if it never has.
    pub last: Option<u64>,
}

/// The contents of a [`TimerRow`].
#[verifier::ext_equal]
pub struct RowView {
    pub unit: Seq<char>,
    pub next: Option<u64>,
    pub last: Option<u64>,
}

impl View for TimerRow {
    type V = RowView;

    open spec fn view(&self) -> RowView {
        RowView { unit: self.unit@, next: self.next, last: self.last }
    }
}

/// The contents of a list of rows.
pub open spec fn row_views(v: Seq<TimerRow>) -> Seq<RowView> {
    Seq::new(v.len(), |i: int| v[i]@)
}

/// A timestamp field: a positive epoch value, or `None` for null, zero and
/// the greatest number, which systemd uses to mean "never".
pub open spec fn usec_of(m: Map<Seq<char>, Seq<char>>, key: Seq<char>) -> Option<u64> {
    if m.dom().contains(key) {
        match number::parse_number(m[key], u64::MAX as nat) {
            Some(n) => if n == 0 || n == u64::MAX {
                None
            } else {
                Some(n as u64)
            },
            None => None,
        }
    } else {
        None
    }
}

/// The rows that some objects make: those that name a unit.
pub open spec fn rows_of(objects: Seq<Map<Seq<char>, Seq<char>>>) -> Seq<RowView>
    decreases objects.len(),
{
    if objects.len() == 0 {
        seq![]
    } else {
        let rest = rows_of(objects.drop_last());
        let m = objects.last();
        if prop_of(m, "unit"@).len() > 0 {
            rest.push(
                RowView {
                    unit: m["unit"@],
                    next: usec_of(m, "next"@),
                    last: usec_of(m, "last"@),
                },
            )
        } else {
            rest
        }
    }
}

fn usec(m: &StrMap<String>, key: &str) -> (r: Option<u64>)
    ensures
        r == usec_of(m@, key@),
{
    match m.get(key) {
        Some(s) => match number::parse_up_to(s.as_str(), u64::MAX) {
            Some(n) => if n == 0 || n == u64::MAX {
                None
            } else {
                Some(n)
            },
            None => None,
        },
        None => None,
    }
}

/// Parse `systemctl list-timers --output=json`.
///
/// The shape is an array of flat objects, so a full JSON parser would be
/// three orders of magnitude more machinery than the job needs. Anything that
/// does not scan cleanly yields no rows and the columns simply stay blank.
pub fn parse_list_timers(output: &str) -> (r: Vec<TimerRow>)
    ensures
        row_views(r@) == rows_of(objects_of(output@)),
{
    let objects = parse_flat_objects(output);
    let ghost all = Seq::new(objects@.len(), |i: int| objects@[i]@);
    let mut out: Vec<TimerRow> = Vec::new();
    let mut i: usize = 0;
    assert(all.take(0) =~= seq![]);
    assert(row_views(out@) =~= seq![]);
    while i < objects.len()
        invariant
            i <= objects@.len(),
            all == Seq::new(objects@.len(), |i: int| objects@[i]@),
            row_views(out@) == rows_of(all.take(i as int)),
        decreases objects@.len() - i,
    {
        proof {
            assert(all.take(i + 1).drop_last() =~= all.take(i as int));
            assert(all.take(i + 1).last() == objects@[i as int]@);
        }
        let unit = prop(&objects[i], "unit");
        if !unit.as_str().is_empty() {
            let row = TimerRow {
                unit,
                next: usec(&objects[i], "next"),
                last: usec(&objects[i], "last"),
            };
            let ghost before = row_views(out@);
            out.push(row);
            assert(row_views(out@) =~= before.push(row@));
        }
        i += 1;
    }
    assert(all.take(objects@.len() as int) =~= all);
    out
}

// ---------------------------------------------------------------------------
// Putting the answers together
// ---------------------------------------------------------------------------

/// The arguments that ask for the properties of some units.
pub fn show_args(units: &[String]) -> (r: Vec<String>)
    ensures
        text::texts(r@) == seq!["show"@, SHOW_PROPERTIES@] + text::texts(units@),
{
    let mut out: Vec<String> = vec!["show".to_owned(), SHOW_PROPERTIES.to_owned()];
    let ghost head = seq!["show"@, SHOW_PROPERTIES@];
    let ghost all = text::texts(units@);
    let mut i: usize = 0;
    assert(text::texts(out@) =~= head + all.take(0));
    while i < units.len()
        invariant
            i <= units@.len(),
            all == text::texts(units@),
            text::texts(out@) == head + all.take(i as int),
        decreases units@.len() - i,
    {
        let ghost before = text::texts(out@);
        out.push(units[i].clone());
        assert(text::texts(out@) =~= before.push(all[i as int]));
        assert(before.push(all[i as int]) =~= head + all.take(i + 1));
        i += 1;
    }
    assert(all.take(units@.len() as int) =~= all);
    out
}

/// Whether the timer listing is worth asking for: only if there are timers to
/// look up.
pub fn wants_timers(units: &[String]) -> (r: bool)
    ensures
        r == exists|i: int| 0 <= i < units@.len() && ".timer"@.is_suffix_of(#[trigger] units@[i]@),
{
    let mut i: usize = 0;
    while i < units.len()
        invariant
            i <= units@.len(),
            forall|k: int| 0 <= k < i ==> !".timer"@.is_suffix_of(#[trigger] units@[k]@),
        decreases units@.len() - i,
    {
        if text::ends_with(units[i].as_str(), ".timer") {
            return true;
        }
        i += 1;
    }
    false
}

/// The health of each unit that properties were given for.
pub open spec fn healths_of(show: Map<Seq<char>, Map<Seq<char>, Seq<char>>>) -> Map<
    Seq<char>,
    HealthView,
> {
    Map::new(|k: Seq<char>| show.dom().contains(k), |k: Seq<char>| health_of(show[k]))
}

/// The healths with the times of one timer.
pub open spec fn with_row(m: Map<Seq<char>, HealthView>, row: RowView) -> Map<
    Seq<char>,
    HealthView,
> {
    let h = if m.dom().contains(row.unit) {
        m[row.unit]
    } else {
        unknown()
    };
    m.insert(row.unit, HealthView { next: row.next, last: row.last, ..h })
}

/// The healths with the times of some timers.
pub open spec fn with_rows(m: Map<Seq<char>, HealthView>, rows: Seq<RowView>) -> Map<
    Seq<char>,
    HealthView,
>
    decreases rows.len(),
{
    if rows.len() == 0 {
        m
    } else {
        with_row(with_rows(m, rows.drop_last()), rows.last())
    }
}

/// The healths that the two answers give; an answer that did not come gives
/// nothing.
pub open spec fn fetched_of(show: Option<Seq<char>>, timers: Option<Seq<char>>) -> Map<
    Seq<char>,
    HealthView,
> {
    let base = match show {
        Some(s) => healths_of(show_of(parts::split_str_of(s, "\n\n"@))),
        None => Map::empty(),
    };
    match timers {
        Some(s) => with_rows(base, rows_of(objects_of(s))),
        None => base,
    }
}

proof fn lemma_healths_push(
    m: Map<Seq<char>, Map<Seq<char>, Seq<char>>>,
    k: Seq<char>,
    p: Map<Seq<char>, Seq<char>>,
)
    ensures
        healths_of(m.insert(k, p)) == healths_of(m).insert(k, health_of(p)),
{
    assert(healths_of(m.insert(k, p)) =~= healths_of(m).insert(k, health_of(p)));
}

/// Health for every unit that the manager reported on, keyed by unit name.
///
/// `show` is what `systemctl show` printed and `timers` what the timer
/// listing printed, where they succeeded. Nothing here is fatal: a host with
/// no running systemd gives an empty map and the columns stay blank.
pub fn fetch(show: &Option<String>, timers: &Option<String>) -> (r: StrMap<Health>)
    ensures
        r@ == fetched_of(text::opt_text(*show), text::opt_text(*timers)),
{
    let mut out: StrMap<Health> = StrMap::new();
    if let Some(s) = show {
        let read = parse_show(s.as_str());
        let ghost all = read.items@;
        let mut i: usize = 0;
        assert(all.take(0) =~= seq![]);
        assert(out@ =~= healths_of(strmap::map_of(all.take(0))));
        while i < read.items.len()
            invariant
                i <= read.items@.len(),
                all == read.items@,
                out@ == healths_of(strmap::map_of(all.take(i as int))),
            decreases read.items@.len() - i,
        {
            proof {
                assert(all.take(i + 1).drop_last() =~= all.take(i as int));
                lemma_healths_push(
                    strmap::map_of(all.take(i as int)),
                    all[i as int].0@,
                    all[i as int].1@,
                );
            }
            out.insert(read.items[i].0.clone(), health_from_props(&read.items[i].1));
            i += 1;
        }
        assert(all.take(read.items@.len() as int) =~= all);
    }
    let ghost base = out@;
    if let Some(s) = timers {
        let rows = parse_list_timers(s.as_str());
        let ghost all = row_views(rows@);
        let mut i: usize = 0;
        assert(all.take(0) =~= seq![]);
        while i < rows.len()
            invariant
                i <= rows@.len(),
                all == row_views(rows@),
                out@ == with_rows(base, all.take(i as int)),
            decreases rows@.len() - i,
        {
            proof {
                assert(all.take(i + 1).drop_last() =~= all.take(i as int));
                assert(all.take(i + 1).last() == rows@[i as int]@);
            }
            let mut h = match out.get(rows[i].unit.as_str()) {
                Some(h) => h.clone(),
                None => Health::default(),
            };
            h.next = rows[i].next;
            h.last = rows[i].last;
            out.insert(rows[i].unit.clone(), h);
            i += 1;
        }
        assert(all.take(rows@.len() as int) =~= all);
    }
    out
}

/// The picture with one more file's health. The timer owns "next"; whichever
/// file has one first owns "last". The outcome comes from the unit that
/// actually runs a process, which is the service; but once one has failed,
/// only another failure takes its place.
pub open spec fn merge_one(m: HealthView, file: Seq<char>, h: HealthView) -> HealthView {
    let is_exec = !".timer"@.is_suffix_of(file);
    let takes_state = h.has_failed() || (!m.has_failed() && (is_exec || m.active.len() == 0));
    let takes_result = h.has_failed() || (!m.has_failed() && (is_exec || (m.active.len() == 0
        && m.result.len() == 0)));
    HealthView {
        next: if h.next is Some {
            h.next
        } else {
            m.next
        },
        last: if m.last is None {
            h.last
        } else {
            m.last
        },
        last_stamp: if m.last_stamp.len() == 0 {
            h.last_stamp
        } else {
            m.last_stamp
        },
        result: if takes_result {
            h.result
        } else {
            m.result
        },
        exit_status: if takes_result {
            h.exit_status
        } else {
            m.exit_status
        },
        active: if takes_state {
            h.active
        } else {
            m.active
        },
        sub: if takes_state {
            h.sub
        } else {
            m.sub
        },
    }
}

/// The picture that some files of one entry make together.
pub open spec fn merged_of(files: Seq<Seq<char>>, by_unit: Map<Seq<char>, HealthView>) -> HealthView
    decreases files.len(),
{
    if files.len() == 0 {
        unknown()
    } else {
        let m = merged_of(files.drop_last(), by_unit);
        if by_unit.dom().contains(files.last()) {
            merge_one(m, files.last(), by_unit[files.last()])
        } else {
            m
        }
    }
}

/// Merge the health of every file in one entry into the single picture the
/// row shows: the timer supplies the schedule, the service the outcome.
pub fn merge(files: &[String], by_unit: &StrMap<Health>) -> (r: Health)
    ensures
        r@ == merged_of(text::texts(files@), by_unit@),
{
    let ghost all = text::texts(files@);
    let mut merged = Health::default();
    let mut i: usize = 0;
    assert(all.take(0) =~= seq![]);
    while i < files.len()
        invariant
            i <= files@.len(),
            all == text::texts(files@),
            merged@ == merged_of(all.take(i as int), by_unit@),
        decreases files@.len() - i,
    {
        proof {
            assert(all.take(i + 1).drop_last() =~= all.take(i as int));
            assert(all.take(i + 1).last() == files@[i as int]@);
        }
        if let Some(h) = by_unit.get(files[i].as_str()) {
            let ghost m = merged@;
            if h.next.is_some() {
                merged.next = h.next;
            }
            if h.last.is_some() && merged.last.is_none() {
                merged.last = h.last;
            }
            if merged.last_stamp.as_str().is_empty() {
                merged.last_stamp = h.last_stamp.clone();
            }
            let is_exec = !text::ends_with(files[i].as_str(), ".timer");
            if !merged.failed() && (is_exec || merged.active.as_str().is_empty()) {
                if is_exec || merged.result.as_str().is_empty() {
                    merged.result = h.result.clone();
                    merged.exit_status = h.exit_status;
                }
                merged.active = h.active.clone();
                merged.sub = h.sub.clone();
            }
            if h.failed() {
                merged.result = h.result.clone();
                merged.exit_status = h.exit_status;
                merged.active = h.active.clone();
                merged.sub = h.sub.clone();
            }
            assert(merged@ =~= merge_one(m, files@[i as int]@, h@));
        }
        i += 1;
    }
    assert(all.take(files@.len() as int) =~= all);
    merged
}

/// Sort key: failed units first, then everything else, each group left in the
/// order it arrived (which is alphabetical, from the directory listing).
pub fn sort_rank(h: &Health) -> (r: u8)
    ensures
        r == if h@.has_failed() {
            0u8
        } else {
            1u8
        },
{
    if h.failed() {
        0
    } else {
        1
    }
}

// ---------------------------------------------------------------------------
// What merging promises
// ---------------------------------------------------------------------------

/// A failure of any file is a failure of the row.
pub proof fn law_a_failure_shows(files: Seq<Seq<char>>, by_unit: Map<Seq<char>, HealthView>)
    ensures
        (exists|i: int|
            0 <= i < files.len() && by_unit.dom().contains(#[trigger] files[i])
                && by_unit[files[i]].has_failed()) ==> merged_of(files, by_unit).has_failed(),
    decreases files.len(),
{
    if exists|i: int|
        0 <= i < files.len() && by_unit.dom().contains(#[trigger] files[i])
            && by_unit[files[i]].has_failed() {
        let i = choose|i: int|
            0 <= i < files.len() && by_unit.dom().contains(#[trigger] files[i])
                && by_unit[files[i]].has_failed();
        let rest = files.drop_last();
        law_a_failure_shows(rest, by_unit);
        if i < files.len() - 1 {
            assert(rest[i] == files[i]);
        }
    }
}

/// A timer and its service give one picture in either order: the timer has
/// the times, the service has the outcome, and at most one of them failed.
pub proof fn law_merge_pair(
    timer: Seq<char>,
    service: Seq<char>,
    by_unit: Map<Seq<char>, HealthView>,
)
    requires
        ".timer"@.is_suffix_of(timer),
        !".timer"@.is_suffix_of(service),
        by_unit.dom().contains(timer),
        by_unit.dom().contains(service),
        !(by_unit[timer].has_failed() && by_unit[service].has_failed()),
        by_unit[timer].last_stamp.len() == 0,
        by_unit[service].next is None,
        by_unit[service].last is None,
        by_unit[service].active.len() > 0,
    ensures
        merged_of(seq![timer, service], by_unit) == merged_of(seq![service, timer], by_unit),
{
    let a = seq![timer, service];
    let b = seq![service, timer];
    let none = Seq::<Seq<char>>::empty();
    assert(a.drop_last() =~= seq![timer]);
    assert(b.drop_last() =~= seq![service]);
    assert(seq![timer].drop_last() =~= none);
    assert(seq![service].drop_last() =~= none);
    reveal_with_fuel(merged_of, 3);
    let t = by_unit[timer];
    let s = by_unit[service];
    let x = merge_one(merge_one(unknown(), timer, t), service, s);
    let y = merge_one(merge_one(unknown(), service, s), timer, t);
    assert(x =~= y) by {
        assert(t.last_stamp =~= seq![]);
    }
}

// ---------------------------------------------------------------------------
// What the labels say
// ---------------------------------------------------------------------------

/// The seconds in a unit of time, by its letter.
pub open spec fn unit_seconds(c: char) -> nat {
    if c == 'd' {
        86_400
    } else if c == 'h' {
        3600
    } else if c == 'm' {
        60
    } else if c == 's' {
        1
    } else {
        0
    }
}

/// Whether a text is a number and a unit of time.
pub open spec fn is_amount(p: Seq<char>) -> bool {
    p.len() > 1 && number::all_digits(p.drop_last()) && unit_seconds(p.last()) > 0
}

/// The seconds it stands for.
pub open spec fn amount_seconds(p: Seq<char>) -> nat {
    number::digits_value(p.drop_last()) * unit_seconds(p.last())
}

/// The seconds that a span of time reads as: `now`, one amount, or two with
/// the larger unit first.
pub open spec fn span_seconds(s: Seq<char>) -> Option<nat> {
    let w = parts::split_of(s, ' ');
    if s == seq!['n', 'o', 'w'] {
        Some(0)
    } else if w.len() == 1 && is_amount(w[0]) {
        Some(amount_seconds(w[0]))
    } else if w.len() == 2 && is_amount(w[0]) && is_amount(w[1]) && unit_seconds(w[0].last())
        > unit_seconds(w[1].last()) {
        Some(amount_seconds(w[0]) + amount_seconds(w[1]))
    } else {
        None
    }
}

/// Seconds, rounded down to what a span shows: whole hours from a day on,
/// whole minutes from a minute on.
pub open spec fn shown_seconds(secs: nat) -> nat {
    if secs >= 86_400 {
        (secs - secs % 3600) as nat
    } else if secs >= 60 {
        (secs - secs % 60) as nat
    } else {
        secs
    }
}

proof fn lemma_amount(n: nat, c: char)
    requires
        unit_seconds(c) > 0,
    ensures
        ({
            let p = number::decimal(n) + seq![c];
            is_amount(p) && p.last() == c && amount_seconds(p) == n * unit_seconds(c)
                && !p.contains(' ') && p != seq!['n', 'o', 'w']
        }),
{
    let d = number::decimal(n);
    let p = d + seq![c];
    number::lemma_decimal_digits(n);
    number::lemma_decimal_value(n);
    assert(p.drop_last() =~= d);
    assert forall|i: int| 0 <= i < p.len() implies #[trigger] p[i] != ' ' by {
        if i < d.len() {
            assert(p[i] == d[i]);
            assert(text::is_digit(d[i]));
        }
    }
    assert(p[0] == d[0] && text::is_digit(d[0]));
    assert(seq!['n', 'o', 'w'][0] == 'n');
}

proof fn lemma_one_amount(n: nat, c: char)
    requires
        unit_seconds(c) > 0,
    ensures
        span_seconds(number::decimal(n) + seq![c]) == Some(n * unit_seconds(c)),
{
    let p = number::decimal(n) + seq![c];
    lemma_amount(n, c);
    let q = seq![p];
    assert(parts::join_of(q, seq![' ']) == p);
    parts::lemma_split_join(q, ' ');
}

proof fn lemma_two_amounts(n: nat, c: char, k: nat, e: char)
    requires
        unit_seconds(c) > unit_seconds(e) > 0,
    ensures
        span_seconds(number::decimal(n) + seq![c, ' '] + number::decimal(k) + seq![e]) == Some(
            n * unit_seconds(c) + k * unit_seconds(e),
        ),
{
    let a = number::decimal(n) + seq![c];
    let b = number::decimal(k) + seq![e];
    lemma_amount(n, c);
    lemma_amount(k, e);
    let q = seq![a, b];
    assert(q.drop_last() =~= seq![a]);
    assert(parts::join_of(q.drop_last(), seq![' ']) == a);
    let s = parts::join_of(q, seq![' ']);
    assert(s =~= a + seq![' '] + b);
    parts::lemma_split_join(q, ' ');
    assert(s =~= number::decimal(n) + seq![c, ' '] + number::decimal(k) + seq![e]);
    assert(s != seq!['n', 'o', 'w']) by {
        assert(s[0] == a[0]);
        number::lemma_decimal_digits(n);
        assert(text::is_digit(number::decimal(n)[0]));
        assert(seq!['n', 'o', 'w'][0] == 'n');
    }
}

/// A span of time reads back as its seconds, rounded down to the smallest
/// unit it shows.
pub proof fn law_span_reads_back(usec: nat)
    ensures
        span_seconds(span_of(usec)) == Some(shown_seconds(usec / 1_000_000)),
{
    let secs = usec / 1_000_000;
    let d = secs / 86_400;
    let h = (secs % 86_400) / 3600;
    let m = (secs % 3600) / 60;
    let s = secs % 60;
    reveal_strlit("now");
    reveal_strlit("d");
    reveal_strlit("d ");
    reveal_strlit("h");
    reveal_strlit("h ");
    reveal_strlit("m");
    reveal_strlit("s");
    assert("now"@ =~= seq!['n', 'o', 'w']);
    assert("d"@ =~= seq!['d']);
    assert("d "@ =~= seq!['d', ' ']);
    assert("h"@ =~= seq!['h']);
    assert("h "@ =~= seq!['h', ' ']);
    assert("m"@ =~= seq!['m']);
    assert("s"@ =~= seq!['s']);
    if secs == 0 {
    } else if d > 0 {
        if h > 0 {
            lemma_two_amounts(d, 'd', h, 'h');
        } else {
            lemma_one_amount(d, 'd');
        }
        assert(d * 86_400 + h * 3600 == secs - secs % 3600);
    } else if h > 0 {
        if m > 0 {
            lemma_two_amounts(h, 'h', m, 'm');
        } else {
            lemma_one_amount(h, 'h');
        }
        assert(h * 3600 + m * 60 == secs - secs % 60);
    } else if m > 0 {
        lemma_one_amount(m, 'm');
        assert(m * 60 == secs - secs % 60);
    } else {
        lemma_one_amount(s, 's');
        assert(s == secs);
    }
}

/// The microseconds left until a time; none where it has passed.
pub open spec fn left_until(now: u64, t: u64) -> nat {
    if t > now {
        (t - now) as nat
    } else {
        0
    }
}

/// The Next column is `in` and a span that reads back as the seconds left,
/// and the detail line ends by naming the same span.
pub proof fn law_next_label_tells_the_time_left(h: HealthView, now: u64)
    ensures
        h.next matches Some(t) ==> {
            let label = h.next_label_of(now);
            &&& seq!['i', 'n', ' '].is_prefix_of(label)
            &&& span_seconds(label.skip(3)) == Some(
                shown_seconds(left_until(now, t) / 1_000_000),
            )
            &&& ("next "@ + label).is_suffix_of(h.detail_of(now))
        },
        h.next is None ==> h.next_label_of(now) == "-"@,
{
    if let Some(t) = h.next {
        let label = h.next_label_of(now);
        let span = span_of(left_until(now, t));
        reveal_strlit("in ");
        reveal_strlit("next ");
        reveal_strlit("next in ");
        law_span_reads_back(left_until(now, t));
        assert(label =~= seq!['i', 'n', ' '] + span);
        assert(label.skip(3) =~= span);
        assert(seq!['i', 'n', ' '].is_prefix_of(label)) by {
            assert(label.take(3) =~= seq!['i', 'n', ' ']);
        }
        let before = h.state_part() + h.last_part(now);
        let all = before + h.next_part(now);
        let x = "next "@ + label;
        assert(x =~= "next in "@ + span);
        assert(all.last() == x);
        let whole = parts::join_of(all, "  --  "@);
        assert(whole == h.detail_of(now));
        let k = whole.len() - x.len();
        if all.len() == 1 {
            assert(whole == x);
        } else {
            let front = parts::join_of(all.drop_last(), "  --  "@) + "  --  "@;
            assert(whole =~= front + x);
        }
        assert(whole.subrange(k, whole.len() as int) =~= x);
    }
}

/// For exactly `n` hours, less than a day, the Next column is `in`, the
/// number and `h`.
pub proof fn law_whole_hours_are_shown_as_hours(h: HealthView, now: u64, n: nat)
    requires
        0 < n < 24,
        now + n * 3_600_000_000 <= u64::MAX,
        h.next == Some((now + n * 3_600_000_000) as u64),
    ensures
        h.next_label_of(now) == "in "@ + number::decimal(n) + "h"@,
{
    assert((n * 3_600_000_000) / 1_000_000 == n * 3600);
    assert((n * 3600) % 3600 == 0);
    assert(h.next_label_of(now) =~= "in "@ + number::decimal(n) + "h"@);
}

/// Where the last run is known, the detail line says how long ago it was, by
/// a span that reads back as the seconds since, and how it ended.
pub proof fn law_detail_tells_the_last_run(h: HealthView, now: u64)
    requires
        h.last is Some && h.last->0 > 0,
    ensures
        exists|span: Seq<char>, k: int|
            #![trigger h.detail_of(now).subrange(
                k,
                k + ("last "@ + span + " ago, "@ + h.last_label_of()).len(),
            )]
            {
                let piece = "last "@ + span + " ago, "@ + h.last_label_of();
                &&& span_seconds(span) == Some(
                    shown_seconds(left_until(h.last->0, now) / 1_000_000),
                )
                &&& 0 <= k <= k + piece.len() <= h.detail_of(now).len()
                &&& h.detail_of(now).subrange(k, k + piece.len()) == piece
            },
{
    let span = span_of(left_until(h.last->0, now));
    law_span_reads_back(left_until(h.last->0, now));
    let piece = "last "@ + span + " ago, "@ + h.last_label_of();
    let sep = "  --  "@;
    let a = h.state_part();
    let b = a + h.last_part(now);
    let all = b + h.next_part(now);
    let whole = h.detail_of(now);
    assert(b.last() == piece);
    let front = if a.len() == 0 {
        seq![]
    } else {
        parts::join_of(a, sep) + sep
    };
    assert(b.drop_last() =~= a);
    let mid = parts::join_of(b, sep);
    assert(mid =~= front + piece);
    assert(whole.len() >= mid.len() && whole.take(mid.len() as int) == mid) by {
        if h.next_part(now).len() == 0 {
            assert(all =~= b);
        } else {
            assert(all.drop_last() =~= b);
            assert(whole =~= mid + sep + all.last());
            assert(whole.take(mid.len() as int) =~= mid);
        }
        assert(mid.take(mid.len() as int) =~= mid);
    }
    let k = front.len() as int;
    assert(whole.subrange(k, k + piece.len()) =~= piece) by {
        assert forall|i: int| 0 <= i < piece.len() implies #[trigger] whole.subrange(
            k,
            k + piece.len(),
        )[i] == piece[i] by {
            assert(whole.take(mid.len() as int)[k + i] == mid[k + i]);
        }
    }
}

/// A timer and its service make one row: the times are the timer's, the
/// state and the outcome are the service's.
pub proof fn law_rows_have_times_and_outcome(
    timer: Seq<char>,
    service: Seq<char>,
    by_unit: Map<Seq<char>, HealthView>,
)
    requires
        ".timer"@.is_suffix_of(timer),
        !".timer"@.is_suffix_of(service),
        by_unit.dom().contains(timer),
        by_unit.dom().contains(service),
        !by_unit[timer].has_failed(),
        by_unit[service].next is None,
        by_unit[service].last is None,
    ensures
        ({
            let t = by_unit[timer];
            let s = by_unit[service];
            let m = merged_of(seq![timer, service], by_unit);
            &&& m.next == t.next && m.last == t.last
            &&& m.active == s.active && m.sub == s.sub
            &&& m.result == s.result && m.exit_status == s.exit_status
            &&& m.has_failed() == s.has_failed() && m.is_running() == s.is_running()
        }),
{
    let a = seq![timer, service];
    assert(a.drop_last() =~= seq![timer]);
    assert(seq![timer].drop_last() =~= Seq::<Seq<char>>::empty());
    reveal_with_fuel(merged_of, 3);
    reveal_strlit("failed");
    assert("failed"@.len() == 6);
    assert(!unknown().has_failed());
    let first = merge_one(unknown(), timer, by_unit[timer]);
    assert(!first.has_failed());
    let both = merge_one(first, service, by_unit[service]);
    assert(merged_of(a, by_unit) == both);
}

/// A timestamp keeps month, day, hour and minute.
pub proof fn law_short_stamps_keep_day_and_time(
    s: Seq<char>,
    year: Seq<char>,
    day: Seq<char>,
    clock: Seq<char>,
    rest: Seq<char>,
)
    requires
        parts::words_of(s).len() >= 3,
        parts::words_of(s)[1] == year + seq!['-'] + day,
        parts::words_of(s)[2] == clock + rest,
        year.len() == 4,
        day.len() == 5,
        clock.len() == 5,
        is_date(year + seq!['-'] + day),
        is_clock(clock),
    ensures
        short_stamp_of(s) == day + seq![' '] + clock,
{
    let d = year + seq!['-'] + day;
    let c = clock + rest;
    assert(is_clock(c)) by {
        assert forall|i: int| 0 <= i < 5 implies if i == 2 {
            #[trigger] c[i] == ':'
        } else {
            text::is_digit(c[i])
        } by {
            assert(c[i] == clock[i]);
        }
    }
    assert(d.skip(5) =~= day);
    assert(c.take(5) =~= clock);
    reveal_strlit(" ");
    assert(short_stamp_of(s) =~= day + seq![' '] + clock);
}

} // verus!
