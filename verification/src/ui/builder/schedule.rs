//! The schedule sub-builder: a choice of presets, the questions each of them
//! asks, and the schedule that the answers make.

use crate::cron;
use crate::cron::Translation;
use crate::fieldhelp;
use crate::number;
use crate::parts;
use crate::systemd;
use crate::systemd::{NextRun, Outcome, PreviewError};
use crate::text;
use crate::ui::builder::asks;
use crate::ui::builder::asks::{Ask, AskView, Completes, Prompted, PromptedView};
use crate::ui::builder::fields;
use crate::ui::builder::pane;
use crate::unit::model::{Body, BodyView, Schedule, ScheduleView, TimerJob, TimerView, Unit, UnitView};
use vstd::prelude::*;

verus! {

broadcast use vstd::string::group_string_axioms;

/// The schedule chooser, in menu order, keyed to the help document.
pub open spec fn keys_of() -> Seq<Seq<char>> {
    seq![
        "schedule.every_minutes"@,
        "schedule.every_hours"@,
        "schedule.daily"@,
        "schedule.weekly"@,
        "schedule.monthly"@,
        "schedule.boot"@,
        "schedule.cron"@,
        "schedule.oncalendar"@,
    ]
}

/// The schedule chooser, in menu order, keyed to the help document.
pub fn schedule_keys() -> (r: Vec<&'static str>)
    ensures
        r@.len() == keys_of().len(),
        forall|i: int| 0 <= i < r@.len() ==> (#[trigger] r@[i])@ == keys_of()[i],
{
    vec![
        "schedule.every_minutes",
        "schedule.every_hours",
        "schedule.daily",
        "schedule.weekly",
        "schedule.monthly",
        "schedule.boot",
        "schedule.cron",
        "schedule.oncalendar",
    ]
}

/// One line of the schedule chooser, by a help document.
pub open spec fn item_of(key: Seq<char>, doc: Seq<fieldhelp::EntryView>) -> Seq<char> {
    match fieldhelp::entry_of(doc, key) {
        Some(e) => text::pad_right_of(e.label, 34) + " "@ + e.summary,
        None => key,
    }
}

/// One line of the schedule chooser, taken from the help document so the menu
/// and the field help cannot describe the same preset differently.
pub fn schedule_item(key: &str, doc: &[fieldhelp::Entry]) -> (r: String)
    ensures
        r@ == item_of(key@, fieldhelp::entry_views(doc@)),
{
    match fieldhelp::entry(doc, key) {
        Some(e) => {
            let label = text::pad_right(e.label.as_str(), 34);
            text::cat3(label.as_str(), " ", e.summary.as_str())
        },
        None => key.to_owned(),
    }
}

/// The lines of the schedule chooser.
pub fn schedule_items(doc: &[fieldhelp::Entry]) -> (r: Vec<String>)
    ensures
        text::texts(r@) == Seq::new(
            keys_of().len(),
            |i: int| item_of(keys_of()[i], fieldhelp::entry_views(doc@)),
        ),
{
    let keys = schedule_keys();
    let mut out: Vec<String> = Vec::new();
    let mut i: usize = 0;
    while i < keys.len()
        invariant
            i <= keys@.len() == keys_of().len(),
            forall|k: int| 0 <= k < keys@.len() ==> (#[trigger] keys@[k])@ == keys_of()[k],
            out@.len() == i,
            forall|k: int|
                0 <= k < i ==> (#[trigger] out@[k])@ == item_of(
                    keys_of()[k],
                    fieldhelp::entry_views(doc@),
                ),
        decreases keys@.len() - i,
    {
        out.push(schedule_item(keys[i], doc));
        i += 1;
    }
    assert(text::texts(out@) =~= Seq::new(
        keys_of().len(),
        |i: int| item_of(keys_of()[i], fieldhelp::entry_views(doc@)),
    ));
    out
}

// ---------------------------------------------------------------------------
// Questions
// ---------------------------------------------------------------------------

/// One question of a preset.
#[derive(Debug, Clone, Copy, PartialEq, Eq, Structural)]
pub enum Question {
    Minutes,
    Hours,
    MonthDay,
    Time,
    Weekday,
    Boot,
    Cron,
    Calendar,
}

/// The questions that a preset asks, one after the other.
pub open spec fn questions_of(choice: int) -> Seq<Question> {
    if choice == 0 {
        seq![Question::Minutes]
    } else if choice == 1 {
        seq![Question::Hours]
    } else if choice == 2 {
        seq![Question::Time]
    } else if choice == 3 {
        seq![Question::Weekday, Question::Time]
    } else if choice == 4 {
        seq![Question::MonthDay, Question::Time]
    } else if choice == 5 {
        seq![Question::Boot]
    } else if choice == 6 {
        seq![Question::Cron]
    } else {
        seq![Question::Calendar]
    }
}

/// The questions that a preset asks, one after the other.
pub fn questions(choice: usize) -> (r: Vec<Question>)
    ensures
        r@ == questions_of(choice as int),
{
    if choice == 0 {
        vec![Question::Minutes]
    } else if choice == 1 {
        vec![Question::Hours]
    } else if choice == 2 {
        vec![Question::Time]
    } else if choice == 3 {
        vec![Question::Weekday, Question::Time]
    } else if choice == 4 {
        vec![Question::MonthDay, Question::Time]
    } else if choice == 5 {
        vec![Question::Boot]
    } else if choice == 6 {
        vec![Question::Cron]
    } else {
        vec![Question::Calendar]
    }
}

/// The least and the most that a count can be.
pub open spec fn limits_of(q: Question) -> (nat, nat) {
    match q {
        Question::Minutes => (1, 1440),
        Question::Hours => (1, 168),
        _ => (1, 31),
    }
}

fn limits(q: Question) -> (r: (u64, u64))
    ensures
        (r.0 as nat, r.1 as nat) == limits_of(q),
{
    match q {
        Question::Minutes => (1, 1440),
        Question::Hours => (1, 168),
        _ => (1, 31),
    }
}

/// The days of the week, in the order they are offered.
pub open spec fn weekdays_of() -> Seq<Seq<char>> {
    seq!["Mon"@, "Tue"@, "Wed"@, "Thu"@, "Fri"@, "Sat"@, "Sun"@]
}

/// The days of the week, in the order they are offered.
pub fn weekdays() -> (r: Vec<String>)
    ensures
        text::texts(r@) == weekdays_of(),
{
    let r: Vec<String> = vec![
        "Mon".to_owned(),
        "Tue".to_owned(),
        "Wed".to_owned(),
        "Thu".to_owned(),
        "Fri".to_owned(),
        "Sat".to_owned(),
        "Sun".to_owned(),
    ];
    assert(text::texts(r@) =~= weekdays_of());
    r
}

/// The help of a count.
pub open spec fn count_help(q: Question) -> Seq<char> {
    "A number between "@ + number::decimal(limits_of(q).0) + " and "@ + number::decimal(
        limits_of(q).1,
    ) + "."@
}

/// How a question is asked. That for an `OnCalendar=` starts from the first
/// one the schedule has.
pub open spec fn asked_of(q: Question, now: ScheduleView) -> AskView {
    match q {
        Question::Minutes => asks::plain("Every how many minutes?"@, count_help(q), "15"@),
        Question::Hours => asks::plain("Every how many hours?"@, count_help(q), "6"@),
        Question::MonthDay => asks::plain("On which day of the month?"@, count_help(q), "1"@),
        Question::Time => asks::plain("Time of day"@, "24-hour HH:MM, e.g. 03:30."@, "03:00"@),
        Question::Weekday => AskView::Pick("Which weekday?"@, weekdays_of(), 0),
        Question::Boot => asks::plain(
            "Delay after boot"@,
            "OnBootSec=, e.g. 1min, 30s, 2h."@,
            "1min"@,
        ),
        Question::Cron => asks::plain(
            "Cron expression"@,
            "5 fields (minute hour day-of-month month day-of-week), or @daily etc."@,
            ""@,
        ),
        Question::Calendar => asks::plain(
            "OnCalendar"@,
            "A systemd calendar spec, e.g. Mon..Fri *-*-* 09:00:00."@,
            if now.calendars_of().len() > 0 {
                now.calendars_of()[0]
            } else {
                ""@
            },
        ),
    }
}

fn prompt(title: &'static str, help: &str, initial: &str) -> (r: Ask)
    ensures
        r@ == asks::plain(title@, help@, initial@),
{
    Ask::Text(
        Prompted {
            title,
            help: help.to_owned(),
            initial: initial.to_owned(),
            completes: Completes::Nothing,
            toggle: None,
        },
    )
}

fn count_prompt(q: Question, title: &'static str, initial: &str) -> (r: Ask)
    ensures
        r@ == asks::plain(title@, count_help(q), initial@),
{
    let (lo, hi) = limits(q);
    let a = number::to_decimal(lo);
    let b = number::to_decimal(hi);
    let help = text::cat5("A number between ", a.as_str(), " and ", b.as_str(), ".");
    prompt(title, help.as_str(), initial)
}

/// How a question is asked, for a schedule as it stands.
pub fn asked(q: Question, now: &Schedule) -> (r: Ask)
    ensures
        r@ == asked_of(q, now@),
{
    match q {
        Question::Minutes => count_prompt(q, "Every how many minutes?", "15"),
        Question::Hours => count_prompt(q, "Every how many hours?", "6"),
        Question::MonthDay => count_prompt(q, "On which day of the month?", "1"),
        Question::Time => prompt("Time of day", "24-hour HH:MM, e.g. 03:30.", "03:00"),
        Question::Weekday => Ask::Pick("Which weekday?", weekdays(), 0),
        Question::Boot => prompt("Delay after boot", "OnBootSec=, e.g. 1min, 30s, 2h.", "1min"),
        Question::Cron => prompt(
            "Cron expression",
            "5 fields (minute hour day-of-month month day-of-week), or @daily etc.",
            "",
        ),
        Question::Calendar => {
            let specs = now.calendars();
            let ghost all = text::texts(specs@);
            if specs.len() > 0 {
                assert(all[0] == specs@[0]@);
                prompt(
                    "OnCalendar",
                    "A systemd calendar spec, e.g. Mon..Fri *-*-* 09:00:00.",
                    specs[0].as_str(),
                )
            } else {
                assert(all.len() == 0);
                prompt(
                    "OnCalendar",
                    "A systemd calendar spec, e.g. Mon..Fri *-*-* 09:00:00.",
                    "",
                )
            }
        },
    }
}

/// The number that a text holds, with white space around it.
pub open spec fn count_of(s: Seq<char>) -> Option<nat> {
    number::parse_number(text::trim_of(s), 0xffff_ffff)
}

/// The hour and the minute of a text, or why it holds none.
pub open spec fn hhmm_of(s: Seq<char>) -> Result<(nat, nat), Seq<char>> {
    match parts::split_once_of(text::trim_of(s), ':') {
        None => Err("use HH:MM"@),
        Some((h, m)) => match count_of(h) {
            None => Err("hour must be a number"@),
            Some(h) => match count_of(m) {
                None => Err("minute must be a number"@),
                Some(m) => if h > 23 {
                    Err("hour must be 0-23"@)
                } else if m > 59 {
                    Err("minute must be 0-59"@)
                } else {
                    Ok((h, m))
                },
            },
        },
    }
}

fn count(s: &str) -> (r: Option<u64>)
    ensures
        match r {
            Some(n) => count_of(s@) == Some(n as nat),
            None => count_of(s@) is None,
        },
{
    number::parse_up_to(text::trim(s), 0xffff_ffff)
}

/// The hour and the minute of a text, or why it holds none.
pub fn parse_hhmm(s: &str) -> (r: Result<(u64, u64), String>)
    ensures
        match r {
            Ok((h, m)) => hhmm_of(s@) == Ok::<(nat, nat), Seq<char>>((h as nat, m as nat)),
            Err(e) => hhmm_of(s@) == Err::<(nat, nat), Seq<char>>(e@),
        },
{
    let (h, m) = match parts::split_once(text::trim(s), ':') {
        None => {
            return Err("use HH:MM".to_owned());
        },
        Some((h, m)) => (h, m),
    };
    let h: u64 = match count(h) {
        None => {
            return Err("hour must be a number".to_owned());
        },
        Some(n) => n,
    };
    let m: u64 = match count(m) {
        None => {
            return Err("minute must be a number".to_owned());
        },
        Some(n) => n,
    };
    if h > 23 {
        return Err("hour must be 0-23".to_owned());
    }
    if m > 59 {
        return Err("minute must be 0-59".to_owned());
    }
    Ok((h, m))
}

/// Why a text is no answer to a question, as far as that can be told without
/// systemd.
pub open spec fn refusal_of(q: Question, s: Seq<char>) -> Option<Seq<char>> {
    match q {
        Question::Minutes | Question::Hours | Question::MonthDay => match count_of(s) {
            None => Some("must be a whole number"@),
            Some(n) => if limits_of(q).0 <= n && n <= limits_of(q).1 {
                None
            } else {
                Some(
                    "must be between "@ + number::decimal(limits_of(q).0) + " and "@
                        + number::decimal(limits_of(q).1),
                )
            },
        },
        Question::Time => match hhmm_of(s) {
            Ok(_) => None,
            Err(e) => Some(e),
        },
        Question::Cron => match cron::translation_of(s) {
            Ok(_) => None,
            Err(e) => Some(e),
        },
        _ => None,
    }
}

/// Checks an answer to a question, as far as that can be told without
/// systemd.
pub fn check(q: Question, s: &str) -> (r: Result<(), String>)
    ensures
        match r {
            Ok(_) => refusal_of(q, s@) is None,
            Err(e) => refusal_of(q, s@) == Some(e@),
        },
{
    match q {
        Question::Minutes | Question::Hours | Question::MonthDay => match count(s) {
            None => Err("must be a whole number".to_owned()),
            Some(n) => {
                let (lo, hi) = limits(q);
                if lo <= n && n <= hi {
                    Ok(())
                } else {
                    let a = number::to_decimal(lo);
                    let b = number::to_decimal(hi);
                    let head = text::cat3("must be between ", a.as_str(), " and ");
                    Err(text::cat2(head.as_str(), b.as_str()))
                }
            },
        },
        Question::Time => match parse_hhmm(s) {
            Ok(_) => Ok(()),
            Err(e) => Err(e),
        },
        Question::Cron => match cron::to_calendar(s) {
            Ok(_) => Ok(()),
            Err(e) => Err(e.to_string()),
        },
        _ => Ok(()),
    }
}

// ---------------------------------------------------------------------------
// Answers
// ---------------------------------------------------------------------------

/// An answer to a question.
#[derive(Debug)]
pub enum Answer {
    /// The question was left without one.
    Cancelled,
    Text(String),
    Picked(usize),
}

/// The contents of an [`Answer`].
#[verifier::ext_equal]
pub enum AnswerView {
    Cancelled,
    Text(Seq<char>),
    Picked(int),
}

impl View for Answer {
    type V = AnswerView;

    open spec fn view(&self) -> AnswerView {
        match self {
            Answer::Cancelled => AnswerView::Cancelled,
            Answer::Text(s) => AnswerView::Text(s@),
            Answer::Picked(i) => AnswerView::Picked(*i as int),
        }
    }
}

/// The contents of a list of answers.
pub open spec fn answer_views(v: Seq<Answer>) -> Seq<AnswerView> {
    Seq::new(v.len(), |i: int| v[i]@)
}

/// The count that an answer gives.
pub open spec fn counted(a: AnswerView) -> Option<nat> {
    match a {
        AnswerView::Text(s) => count_of(s),
        _ => None,
    }
}

/// The time of day that an answer gives.
pub open spec fn timed(a: AnswerView) -> Option<(nat, nat)> {
    match a {
        AnswerView::Text(s) => match hhmm_of(s) {
            Ok(t) => Some(t),
            Err(_) => None,
        },
        _ => None,
    }
}

/// The weekday that an answer gives.
pub open spec fn weekday_of(a: AnswerView) -> Option<Seq<char>> {
    match a {
        AnswerView::Picked(i) => if 0 <= i < weekdays_of().len() {
            Some(weekdays_of()[i])
        } else {
            None
        },
        _ => None,
    }
}

/// Two digits, a colon and two digits.
pub open spec fn clock_of(t: (nat, nat)) -> Seq<char> {
    number::padded(t.0, 2) + ":"@ + number::padded(t.1, 2)
}

/// A schedule of one calendar spec, and where it comes from.
pub open spec fn one_spec(spec: Seq<char>, source: Seq<char>) -> Option<(ScheduleView, Seq<char>)> {
    Some((ScheduleView::Calendar(seq![spec]), source))
}

/// The schedule that the answers to a preset's questions make, with its
/// source in words; none where a question was left without an answer.
pub open spec fn built_of(choice: int, answers: Seq<AnswerView>) -> Option<
    (ScheduleView, Seq<char>),
> {
    if answers.len() < questions_of(choice).len() {
        None
    } else if choice == 0 {
        match counted(answers[0]) {
            Some(n) => Some(
                (
                    ScheduleView::Every {
                        every: number::decimal(n) + "min"@,
                        boot: number::decimal(n) + "min"@,
                    },
                    "every "@ + number::decimal(n) + " minute(s)"@,
                ),
            ),
            None => None,
        }
    } else if choice == 1 {
        match counted(answers[0]) {
            Some(n) => Some(
                (
                    ScheduleView::Every {
                        every: number::decimal(n) + "h"@,
                        boot: number::decimal(n) + "h"@,
                    },
                    "every "@ + number::decimal(n) + " hour(s)"@,
                ),
            ),
            None => None,
        }
    } else if choice == 2 {
        match timed(answers[0]) {
            Some(t) => one_spec("*-*-* "@ + clock_of(t) + ":00"@, "daily at "@ + clock_of(t)),
            None => None,
        }
    } else if choice == 3 {
        match (weekday_of(answers[0]), timed(answers[1])) {
            (Some(d), Some(t)) => one_spec(
                d + " *-*-* "@ + clock_of(t) + ":00"@,
                "weekly on "@ + d + " at "@ + clock_of(t),
            ),
            _ => None,
        }
    } else if choice == 4 {
        match (counted(answers[0]), timed(answers[1])) {
            (Some(d), Some(t)) => one_spec(
                "*-*-"@ + number::padded(d, 2) + " "@ + clock_of(t) + ":00"@,
                "monthly on day "@ + number::decimal(d) + " at "@ + clock_of(t),
            ),
            _ => None,
        }
    } else if choice == 5 {
        let delay = match answers[0] {
            AnswerView::Text(s) => asks::span_of(s),
            _ => None,
        };
        match delay {
            Some(b) => Some((ScheduleView::Boot { boot: b }, "at boot + "@ + b)),
            None => None,
        }
    } else if choice == 6 {
        match answers[0] {
            AnswerView::Text(s) => match cron::translation_of(s) {
                Ok(Some(specs)) => Some(
                    (ScheduleView::Calendar(specs), "cron: "@ + text::trim_of(s)),
                ),
                Ok(None) => Some((ScheduleView::Boot { boot: "1min"@ }, "@reboot"@)),
                Err(_) => None,
            },
            _ => None,
        }
    } else {
        match answers[0] {
            AnswerView::Text(s) => one_spec(s, "OnCalendar: "@ + s),
            _ => None,
        }
    }
}

/// The contents of a schedule that may be missing.
pub open spec fn built_view(r: Option<(Schedule, String)>) -> Option<(ScheduleView, Seq<char>)> {
    match r {
        Some((s, src)) => Some((s@, src@)),
        None => None,
    }
}

fn answered_count(a: &Answer) -> (r: Option<u64>)
    ensures
        match r {
            Some(n) => counted(a@) == Some(n as nat),
            None => counted(a@) is None,
        },
{
    match a {
        Answer::Text(s) => count(s.as_str()),
        _ => None,
    }
}

fn answered_time(a: &Answer) -> (r: Option<String>)
    ensures
        match r {
            Some(c) => timed(a@) is Some && c@ == clock_of(timed(a@).unwrap()),
            None => timed(a@) is None,
        },
{
    match a {
        Answer::Text(s) => match parse_hhmm(s.as_str()) {
            Ok((h, m)) => {
                let x = number::to_padded(h, 2);
                let y = number::to_padded(m, 2);
                Some(text::cat3(x.as_str(), ":", y.as_str()))
            },
            Err(_) => None,
        },
        _ => None,
    }
}

fn answered_day(a: &Answer) -> (r: Option<String>)
    ensures
        text::opt_text(r) == weekday_of(a@),
{
    match a {
        Answer::Picked(i) => {
            let days = weekdays();
            let ghost all = text::texts(days@);
            assert(all.len() == days@.len());
            if *i < days.len() {
                assert(all[*i as int] == days@[*i as int]@);
                Some(days[*i].clone())
            } else {
                None
            }
        },
        _ => None,
    }
}

fn calendar(spec: String, source: String) -> (r: Option<(Schedule, String)>)
    ensures
        built_view(r) == one_spec(spec@, source@),
{
    let specs: Vec<String> = vec![spec];
    assert(text::texts(specs@) =~= seq![spec@]);
    Some((Schedule::Calendar(specs), source))
}

fn built_count(a: &Answer, unit: &str, word: &str) -> (r: Option<(Schedule, String)>)
    ensures
        built_view(r) == (match counted(a@) {
            Some(n) => Some(
                (
                    ScheduleView::Every {
                        every: number::decimal(n) + unit@,
                        boot: number::decimal(n) + unit@,
                    },
                    "every "@ + number::decimal(n) + word@,
                ),
            ),
            None => None,
        }),
{
    match answered_count(a) {
        Some(n) => {
            let d = number::to_decimal(n);
            Some(
                (
                    Schedule::Every {
                        every: text::cat2(d.as_str(), unit),
                        boot: text::cat2(d.as_str(), unit),
                    },
                    text::cat3("every ", d.as_str(), word),
                ),
            )
        },
        None => None,
    }
}

/// The schedule that the answers to a preset's questions make, with its
/// source in words.
pub fn built(choice: usize, answers: &[Answer]) -> (r: Option<(Schedule, String)>)
    ensures
        built_view(r) == built_of(choice as int, answer_views(answers@)),
{
    let ghost all = answer_views(answers@);
    let want: usize = if choice == 3 || choice == 4 {
        2
    } else {
        1
    };
    assert(questions_of(choice as int).len() == want);
    if answers.len() < want {
        return None;
    }
    assert(all[0] == answers@[0]@);
    if choice == 0 {
        built_count(&answers[0], "min", " minute(s)")
    } else if choice == 1 {
        built_count(&answers[0], "h", " hour(s)")
    } else if choice == 2 {
        match answered_time(&answers[0]) {
            Some(t) => calendar(
                text::cat3("*-*-* ", t.as_str(), ":00"),
                text::cat2("daily at ", t.as_str()),
            ),
            None => None,
        }
    } else if choice == 3 {
        assert(all[1] == answers@[1]@);
        let d = match answered_day(&answers[0]) {
            Some(d) => d,
            None => {
                return None;
            },
        };
        match answered_time(&answers[1]) {
            Some(t) => {
                let head = text::cat3(d.as_str(), " *-*-* ", t.as_str());
                let src = text::cat3("weekly on ", d.as_str(), " at ");
                calendar(text::cat2(head.as_str(), ":00"), text::cat2(src.as_str(), t.as_str()))
            },
            None => None,
        }
    } else if choice == 4 {
        assert(all[1] == answers@[1]@);
        let d = match answered_count(&answers[0]) {
            Some(d) => d,
            None => {
                return None;
            },
        };
        match answered_time(&answers[1]) {
            Some(t) => {
                let day = number::to_padded(d, 2);
                let plain = number::to_decimal(d);
                let spec = text::cat5("*-*-", day.as_str(), " ", t.as_str(), ":00");
                let src = text::cat3("monthly on day ", plain.as_str(), " at ");
                calendar(spec, text::cat2(src.as_str(), t.as_str()))
            },
            None => None,
        }
    } else if choice == 5 {
        let delay = match &answers[0] {
            Answer::Text(s) => if text::blank(s.as_str()) {
                None
            } else {
                Some(text::trim(s.as_str()).to_owned())
            },
            _ => None,
        };
        match delay {
            Some(b) => {
                let src = text::cat2("at boot + ", b.as_str());
                Some((Schedule::Boot { boot: b }, src))
            },
            None => None,
        }
    } else if choice == 6 {
        match &answers[0] {
            Answer::Text(s) => match cron::to_calendar(s.as_str()) {
                Ok(Translation::Calendar(specs)) => {
                    let src = text::cat2("cron: ", text::trim(s.as_str()));
                    Some((Schedule::Calendar(specs), src))
                },
                Ok(Translation::Reboot) => Some(
                    (Schedule::Boot { boot: "1min".to_owned() }, "@reboot".to_owned()),
                ),
                Err(_) => None,
            },
            _ => None,
        }
    } else {
        match &answers[0] {
            Answer::Text(s) => calendar(s.clone(), text::cat2("OnCalendar: ", s.as_str())),
            _ => None,
        }
    }
}

/// Every generated calendar spec is checked before it reaches a file: the
/// first that systemd refused, by what it said of each, decides. Schedules
/// without calendar specs have nothing to check.
pub fn check_specs(s: &Schedule, ran: &[Option<Outcome>]) -> (r: Result<(), String>)
    requires
        s@ matches ScheduleView::Calendar(specs) ==> specs.len() == ran@.len(),
    ensures
        match s@ {
            ScheduleView::Calendar(specs) => match r {
                Ok(_) => forall|i: int|
                    0 <= i < ran@.len() ==> !is_refused(#[trigger] ran@[i]),
                Err(e) => exists|i: int|
                    #![trigger ran@[i]]
                    0 <= i < ran@.len() && is_refused(ran@[i]) && (forall|k: int|
                        0 <= k < i ==> !is_refused(#[trigger] ran@[k])) && e@
                        == systemd::refusal_of(
                        specs[i],
                        ran@[i]->0.stdout@,
                        ran@[i]->0.stderr@,
                    ),
            },
            _ => r is Ok,
        },
{
    match s {
        Schedule::Calendar(specs) => {
            let ghost all = text::texts(specs@);
            let mut i: usize = 0;
            while i < specs.len()
                invariant
                    i <= specs@.len() == ran@.len(),
                    all == text::texts(specs@),
                    s@ == ScheduleView::Calendar(all),
                    forall|k: int| 0 <= k < i ==> !is_refused(#[trigger] ran@[k]),
                decreases specs@.len() - i,
            {
                assert(all[i as int] == specs@[i as int]@);
                match systemd::check_calendar(specs[i].as_str(), &ran[i]) {
                    Ok(_) => {
                        assert(!is_refused(ran@[i as int]));
                    },
                    Err(e) => {
                        assert(is_refused(ran@[i as int]));
                        return Err(e);
                    },
                }
                i += 1;
            }
            Ok(())
        },
        _ => Ok(()),
    }
}

/// Whether systemd refused a spec.
pub open spec fn is_refused(out: Option<Outcome>) -> bool {
    out is Some && !out->0.success
}

/// The unit with another schedule, where it is a timer.
pub open spec fn scheduled_of(u: UnitView, s: ScheduleView, source: Seq<char>) -> UnitView {
    match u.body {
        BodyView::Timer(t) => fields::with_timer(u, TimerView { schedule: s, source, ..t }),
        _ => u,
    }
}

/// Replaces the schedule of a timer.
pub fn set_schedule(u: &mut Unit, s: Schedule, source: String)
    ensures
        final(u)@ == scheduled_of(old(u)@, s@, source@),
{
    let timer = match &u.body {
        Body::Timer(t) => {
            let c: TimerJob = (**t).clone();
            Some(c)
        },
        _ => None,
    };
    if let Some(t) = timer {
        let mut t = t;
        t.schedule = s;
        t.source = source;
        u.body = Body::Timer(Box::new(t));
    }
}

/// Whether a question was left without an answer.
pub open spec fn gave_up(answers: Seq<AnswerView>) -> bool {
    exists|i: int| 0 <= i < answers.len() && #[trigger] answers[i] is Cancelled
}

/// The question that comes after some answers: the next one of the preset,
/// until one is left without an answer.
pub open spec fn next_question_of(choice: int, answers: Seq<AnswerView>) -> Option<Question> {
    if gave_up(answers) || answers.len() >= questions_of(choice).len() {
        None
    } else {
        Some(questions_of(choice)[answers.len() as int])
    }
}

/// The question that comes after some answers to a preset's questions.
pub fn next_question(choice: usize, answers: &[Answer]) -> (r: Option<Question>)
    ensures
        r == next_question_of(choice as int, answer_views(answers@)),
{
    let ghost all = answer_views(answers@);
    let mut i: usize = 0;
    while i < answers.len()
        invariant
            i <= answers@.len(),
            all == answer_views(answers@),
            forall|k: int| 0 <= k < i ==> !(#[trigger] all[k] is Cancelled),
        decreases answers@.len() - i,
    {
        assert(all[i as int] == answers@[i as int]@);
        if let Answer::Cancelled = &answers[i] {
            return None;
        }
        i += 1;
    }
    let qs = questions(choice);
    if answers.len() < qs.len() {
        Some(qs[answers.len()])
    } else {
        None
    }
}

/// The calendar specs of what the answers make.
pub open spec fn built_specs_of(choice: int, answers: Seq<AnswerView>) -> Seq<Seq<char>> {
    match built_of(choice, answers) {
        Some((s, _)) => s.calendars_of(),
        None => seq![],
    }
}

/// The calendar specs of what the answers make, which systemd has to read
/// before the unit is changed.
pub fn built_specs(choice: usize, answers: &[Answer]) -> (r: Vec<String>)
    ensures
        text::texts(r@) == built_specs_of(choice as int, answer_views(answers@)),
{
    match built(choice, answers) {
        Some((s, _)) => s.calendars(),
        None => {
            let r: Vec<String> = Vec::new();
            assert(text::texts(r@) =~= seq![]);
            r
        },
    }
}

/// What came of editing a schedule.
#[derive(Debug)]
pub enum Edit {
    /// The unit has the new schedule.
    Changed,
    /// The answers make no schedule; the unit is as it was.
    Dropped,
    /// systemd refused a calendar spec, for this reason; the unit is as it
    /// was.
    Refused(String),
}

/// Gives a unit the schedule that the answers to a preset's questions make,
/// with its source. Both are replaced together, and only where every question
/// was answered and systemd, by what it said of each calendar spec, refused
/// none of them.
pub fn edit(u: &mut Unit, choice: usize, answers: &[Answer], ran: &[Option<Outcome>]) -> (r: Edit)
    requires
        ran@.len() == built_specs_of(choice as int, answer_views(answers@)).len(),
    ensures
        match r {
            Edit::Changed => {
                &&& built_of(choice as int, answer_views(answers@)) matches Some((s, source))
                &&& forall|i: int| 0 <= i < ran@.len() ==> !is_refused(#[trigger] ran@[i])
                &&& final(u)@ == scheduled_of(old(u)@, s, source)
            },
            Edit::Dropped => built_of(choice as int, answer_views(answers@)) is None && final(u)@
                == old(u)@,
            Edit::Refused(e) => {
                &&& final(u)@ == old(u)@
                &&& exists|i: int|
                    #![trigger ran@[i]]
                    0 <= i < ran@.len() && is_refused(ran@[i]) && (forall|k: int|
                        0 <= k < i ==> !is_refused(#[trigger] ran@[k])) && e@
                        == systemd::refusal_of(
                        built_specs_of(choice as int, answer_views(answers@))[i],
                        ran@[i]->0.stdout@,
                        ran@[i]->0.stderr@,
                    )
            },
        },
{
    match built(choice, answers) {
        None => Edit::Dropped,
        Some((s, source)) => match check_specs(&s, ran) {
            Ok(_) => {
                set_schedule(u, s, source);
                Edit::Changed
            },
            Err(e) => Edit::Refused(e),
        },
    }
}

/// Giving up on any question of a preset makes no schedule.
pub proof fn law_giving_up_builds_nothing(choice: int, answers: Seq<AnswerView>, i: int)
    requires
        0 <= i < answers.len(),
        i < questions_of(choice).len(),
        answers[i] is Cancelled,
    ensures
        built_of(choice, answers) is None,
{
}

/// A schedule is made only where no question is left to ask.
pub proof fn law_a_schedule_ends_the_questions(choice: int, answers: Seq<AnswerView>)
    requires
        built_of(choice, answers) is Some,
    ensures
        next_question_of(choice, answers) is None,
{
}

/// A daily, weekly or monthly preset makes exactly one calendar spec, and
/// never an empty one.
pub proof fn law_presets_make_one_spec(choice: int, answers: Seq<AnswerView>)
    requires
        2 <= choice <= 4,
        built_of(choice, answers) is Some,
    ensures
        built_of(choice, answers).unwrap().0 matches ScheduleView::Calendar(specs) && specs.len()
            == 1 && specs[0].len() > 0,
{
    reveal_strlit(":00");
    assert(":00"@.len() == 3);
}

// ---------------------------------------------------------------------------
// Notes
// ---------------------------------------------------------------------------

/// Lines, each moved in by two columns.
pub open spec fn moved_in(lines: Seq<Seq<char>>) -> Seq<Seq<char>> {
    Seq::new(lines.len(), |i: int| "  "@ + lines[i])
}

/// The next-run lines shown live under a schedule prompt.
pub open spec fn note_of(ran: Result<Vec<NextRun>, PreviewError>) -> Seq<Seq<char>> {
    let runs = pane::analysed_of(ran);
    if runs is Invalid {
        seq![]
    } else {
        seq!["  Next runs:"@] + moved_in(pane::runs_lines_of(runs, 66))
    }
}

/// The next-run lines shown live under a schedule prompt. A half-typed spec is
/// not an error worth shouting about: the prompt's own check says so on Enter.
pub fn note_runs(ran: Result<Vec<NextRun>, PreviewError>) -> (r: Vec<String>)
    ensures
        text::texts(r@) == note_of(ran),
{
    let ghost want = note_of(ran);
    let runs = pane::analysed(ran);
    let mut out: Vec<String> = Vec::new();
    if let pane::Runs::Invalid(_) = runs {
        assert(text::texts(out@) =~= seq![]);
        return out;
    }
    let lines = pane::runs_lines(&runs, 66);
    let ghost all = text::texts(lines@);
    out.push("  Next runs:".to_owned());
    let mut i: usize = 0;
    while i < lines.len()
        invariant
            i <= lines@.len(),
            all == text::texts(lines@),
            out@.len() == i + 1,
            out@[0]@ == "  Next runs:"@,
            forall|k: int| 0 <= k < i ==> (#[trigger] out@[k + 1])@ == "  "@ + all[k],
        decreases lines@.len() - i,
    {
        let ghost before = out@;
        out.push(text::cat2("  ", lines[i].as_str()));
        assert forall|k: int| 0 <= k < i + 1 implies (#[trigger] out@[k + 1])@ == "  "@ + all[k] by {
            if k < i {
                assert(out@[k + 1] == before[k + 1]);
            }
        }
        i += 1;
    }
    assert forall|k: int| 0 <= k < out@.len() implies #[trigger] text::texts(out@)[k] == want[k] by {
        if k > 0 {
            assert(out@[(k - 1) + 1]@ == "  "@ + all[k - 1]);
        }
    }
    assert(text::texts(out@) =~= want);
    out
}

/// The specs that a cron expression stands for, where it stands for any.
pub fn cron_specs(expr: &str) -> (r: Option<Vec<String>>)
    ensures
        pane::specs_view(r) == (match cron::translation_of(expr@) {
            Ok(Some(specs)) => Some(specs),
            _ => None,
        }),
{
    match cron::to_calendar(expr) {
        Ok(Translation::Calendar(specs)) => Some(specs),
        _ => None,
    }
}

/// The note under a cron expression.
pub open spec fn cron_note_of(expr: Seq<char>, ran: Result<Vec<NextRun>, PreviewError>) -> Seq<
    Seq<char>,
> {
    match cron::translation_of(expr) {
        Ok(Some(specs)) => seq![
            "  OnCalendar="@ + parts::join_of(specs, "\n  OnCalendar="@),
        ] + note_of(ran),
        Ok(None) => seq!["  OnBootSec=1min -- fires once per boot"@],
        Err(_) => seq![],
    }
}

/// The note under a cron expression: what it is translated to, and when that
/// fires, by what was found for its specs.
pub fn cron_note(expr: &str, ran: Result<Vec<NextRun>, PreviewError>) -> (r: Vec<String>)
    ensures
        text::texts(r@) == cron_note_of(expr@, ran),
{
    match cron::to_calendar(expr) {
        Ok(Translation::Calendar(specs)) => {
            let list = parts::join(&specs, "\n  OnCalendar=");
            let mut out: Vec<String> = vec![text::cat2("  OnCalendar=", list.as_str())];
            let ghost head = text::texts(out@);
            let mut more = note_runs(ran);
            let ghost tail = text::texts(more@);
            out.append(&mut more);
            assert(text::texts(out@) =~= head + tail);
            assert(head =~= seq![
                "  OnCalendar="@ + parts::join_of(text::texts(specs@), "\n  OnCalendar="@),
            ]);
            out
        },
        Ok(Translation::Reboot) => {
            let out: Vec<String> = vec!["  OnBootSec=1min -- fires once per boot".to_owned()];
            assert(text::texts(out@) =~= seq!["  OnBootSec=1min -- fires once per boot"@]);
            out
        },
        Err(_) => {
            let out: Vec<String> = Vec::new();
            assert(text::texts(out@) =~= seq![]);
            out
        },
    }
}

} // verus!
