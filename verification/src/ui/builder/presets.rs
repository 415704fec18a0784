//! That the schedule presets fire when they say they do.

use crate::calendar;
use crate::calendar::Instant;
use crate::cron;
use crate::number;
use crate::parts;
use crate::text;
use crate::templates::TemplateId;
use crate::ui::builder::schedule;
use crate::ui::builder::schedule::{AnswerView, Question};
use crate::unit::model::{BodyView, ScheduleView, Scope, UnitView};
use vstd::prelude::*;

verus! {

broadcast use vstd::string::group_string_axioms;

/// Whether a schedule is made of one calendar spec that matches a time.
pub open spec fn fires_at(s: ScheduleView, t: Instant) -> bool {
    s matches ScheduleView::Calendar(specs) && calendar::one_matches(specs, t)
}

/// Whether it is this time of day, on the minute.
pub open spec fn is_time(t: Instant, hour: nat, minute: nat) -> bool {
    t.hour == hour && t.minute == minute && t.second == 0
}

proof fn lemma_one(spec: Seq<char>, t: Instant)
    ensures
        calendar::one_matches(seq![spec], t) == calendar::spec_matches(spec, t),
{
    let all = seq![spec];
    assert(all[0] == spec);
}

/// A spec of a weekday that may be missing, a day and a time of day.
proof fn lemma_spec(dow: Seq<char>, dom: Seq<char>, h: nat, m: nat, t: Instant)
    requires
        t.is_valid(),
        h < 24,
        m < 60,
        calendar::is_worded(dow),
        calendar::is_numeric(dom),
    ensures
        ({
            let clock = number::padded(h, 2) + ":"@ + number::padded(m, 2);
            let here = calendar::part_matches(dom, t.day) && is_time(t, h, m);
            &&& calendar::spec_matches("*-*-"@ + dom + " "@ + clock + ":00"@, t) == here
            &&& dow.len() > 0 ==> calendar::spec_matches(
                dow + " *-*-"@ + dom + " "@ + clock + ":00"@,
                t,
            ) == (here && calendar::weekdays_match(dow, t.weekday))
        }),
{
    let any = "*"@;
    let hh = number::padded(h, 2);
    let mm = number::padded(m, 2);
    calendar::lemma_any();
    calendar::lemma_padded(h);
    calendar::lemma_padded(m);
    calendar::lemma_line(dow, any, dom, hh, mm, t);
    assert(calendar::part_matches(any, t.month));
    assert(calendar::part_matches(hh, t.hour) == (t.hour == h));
    assert(calendar::part_matches(mm, t.minute) == (t.minute == m));
    reveal_strlit("*");
    reveal_strlit("*-");
    reveal_strlit("-");
    reveal_strlit("*-*-");
    reveal_strlit(" *-*-");
    reveal_strlit(" *-");
    let clock = hh + ":"@ + mm;
    assert("*-*-"@ + dom + " "@ + clock + ":00"@ =~= "*-"@ + any + "-"@ + dom + " "@ + (hh + ":"@
        + mm + ":00"@));
    assert(dow + " *-*-"@ + dom + " "@ + clock + ":00"@ =~= dow + " *-"@ + any + "-"@ + dom + " "@
        + (hh + ":"@ + mm + ":00"@));
}

/// A time of day is read where hour and minute are numbers in their range.
pub proof fn law_times_are_read(h: nat, m: nat)
    requires
        h < 24,
        m < 60,
    ensures
        schedule::hhmm_of(number::decimal(h) + seq![':'] + number::decimal(m)) == Ok::<
            (nat, nat),
            Seq<char>,
        >((h, m)),
{
    let a = number::decimal(h);
    let b = number::decimal(m);
    let s = a + seq![':'] + b;
    calendar::lemma_decimal(h);
    calendar::lemma_decimal(m);
    assert(text::is_digit(a[0]) && text::is_digit(a[a.len() - 1]));
    assert(text::is_digit(b[0]) && text::is_digit(b[b.len() - 1]));
    assert(s[0] == a[0] && s.last() == b.last());
    text::lemma_trim_tight(s);
    text::lemma_trim_tight(a);
    text::lemma_trim_tight(b);
    assert(!a.contains(':'));
    calendar::lemma_split_once(a, b, ':');
    number::lemma_decimal_parses(h, 0xffff_ffff);
    number::lemma_decimal_parses(m, 0xffff_ffff);
}

/// A time of day that is read is one.
pub proof fn law_read_times_are_times(s: Seq<char>)
    ensures
        schedule::hhmm_of(s) matches Ok((h, m)) ==> h < 24 && m < 60,
{
}

/// The daily preset fires every day at the time that was given.
pub proof fn law_daily_fires_daily(answer: Seq<char>, h: nat, m: nat, t: Instant)
    requires
        t.is_valid(),
        schedule::hhmm_of(answer) == Ok::<(nat, nat), Seq<char>>((h, m)),
    ensures
        schedule::built_of(2, seq![AnswerView::Text(answer)]) matches Some((s, _)) && (fires_at(
            s,
            t,
        ) <==> is_time(t, h, m)),
{
    let any = "*"@;
    let none = Seq::<char>::empty();
    calendar::lemma_any();
    lemma_spec(none, any, h, m, t);
    assert(calendar::part_matches(any, t.day));
    reveal_strlit("*-*-* ");
    reveal_strlit("*-*-");
    reveal_strlit("*");
    reveal_strlit(" ");
    let clock = schedule::clock_of((h, m));
    let spec = "*-*-* "@ + clock + ":00"@;
    assert(spec =~= "*-*-"@ + any + " "@ + clock + ":00"@);
    lemma_one(spec, t);
}

/// The weekly preset fires on the day that was picked, of a list from Monday
/// to Sunday, at the time that was given.
pub proof fn law_weekly_fires_weekly(day: int, answer: Seq<char>, h: nat, m: nat, t: Instant)
    requires
        t.is_valid(),
        0 <= day < 7,
        schedule::hhmm_of(answer) == Ok::<(nat, nat), Seq<char>>((h, m)),
    ensures
        schedule::built_of(3, seq![AnswerView::Picked(day), AnswerView::Text(answer)]) matches Some(
            (s, _),
        ) && (fires_at(s, t) <==> is_time(t, h, m) && t.weekday == if day == 6 {
            0
        } else {
            day + 1
        }),
{
    let wd = if day == 6 {
        0
    } else {
        day + 1
    };
    let any = "*"@;
    let dow = cron::systemd_day(wd);
    calendar::lemma_day_name(wd);
    assert(schedule::weekdays_of()[day] == dow);
    calendar::lemma_any();
    lemma_spec(dow, any, h, m, t);
    assert(calendar::part_matches(any, t.day));
    calendar::lemma_split_one(dow, ',');
    assert(parts::split_of(dow, ',')[0] == dow);
    assert(calendar::weekdays_match(dow, t.weekday) == (t.weekday == wd)) by {
        if calendar::weekdays_match(dow, t.weekday) {
            let i = choose|i: int|
                0 <= i < parts::split_of(dow, ',').len() && calendar::weekday_named(
                    #[trigger] parts::split_of(dow, ',')[i],
                ) == Some(t.weekday);
            assert(i == 0);
        }
    }
    reveal_strlit(" *-*-* ");
    reveal_strlit(" *-*-");
    reveal_strlit("*");
    reveal_strlit(" ");
    let clock = schedule::clock_of((h, m));
    let spec = dow + " *-*-* "@ + clock + ":00"@;
    assert(spec =~= dow + " *-*-"@ + any + " "@ + clock + ":00"@);
    lemma_one(spec, t);
}

/// The monthly preset fires on the day of the month and at the time that were
/// given.
pub proof fn law_monthly_fires_monthly(
    count: Seq<char>,
    day: nat,
    answer: Seq<char>,
    h: nat,
    m: nat,
    t: Instant,
)
    requires
        t.is_valid(),
        1 <= day <= 31,
        schedule::count_of(count) == Some(day),
        schedule::hhmm_of(answer) == Ok::<(nat, nat), Seq<char>>((h, m)),
    ensures
        schedule::built_of(4, seq![AnswerView::Text(count), AnswerView::Text(answer)]) matches Some(
            (s, _),
        ) && (fires_at(s, t) <==> is_time(t, h, m) && t.day == day),
{
    let none = Seq::<char>::empty();
    let dd = number::padded(day, 2);
    calendar::lemma_padded(day);
    lemma_spec(none, dd, h, m, t);
    assert(calendar::part_matches(dd, t.day) == (t.day == day));
    let clock = schedule::clock_of((h, m));
    let spec = "*-*-"@ + dd + " "@ + clock + ":00"@;
    lemma_one(spec, t);
}

/// The cron preset fires when cron would.
pub proof fn law_cron_preset_fires_as_cron(answer: Seq<char>, t: Instant)
    requires
        t.is_valid(),
        parts::words_of(answer).len() == 5,
        cron::translation_of(answer) is Ok,
    ensures
        schedule::built_of(6, seq![AnswerView::Text(answer)]) matches Some((s, _)) && (fires_at(
            s,
            t,
        ) <==> calendar::cron_fires(parts::words_of(answer), t)),
{
    calendar::law_translation_fires_as_cron(answer, t);
}

/// A calendar spec is taken as it was typed.
pub proof fn law_typed_spec_is_taken(answer: Seq<char>, t: Instant)
    ensures
        schedule::built_of(7, seq![AnswerView::Text(answer)]) matches Some((s, _)) && (fires_at(
            s,
            t,
        ) <==> calendar::spec_matches(answer, t)),
{
    lemma_one(answer, t);
}

/// Whether a text is a number and a unit.
pub open spec fn is_count_of(s: Seq<char>, n: nat, unit: Seq<char>) -> bool {
    let k = s.len() - unit.len();
    &&& k > 0
    &&& s.skip(k) == unit
    &&& number::all_digits(s.take(k))
    &&& number::digits_value(s.take(k)) == n
}

proof fn lemma_count(n: nat, unit: Seq<char>)
    ensures
        is_count_of(number::decimal(n) + unit, n, unit),
{
    let d = number::decimal(n);
    let s = d + unit;
    calendar::lemma_decimal(n);
    assert(s.skip(d.len() as int) =~= unit);
    assert(s.take(d.len() as int) =~= d);
}

/// The first two presets fire every so many minutes and hours, from boot on.
pub proof fn law_intervals_are_what_was_given(answer: Seq<char>, n: nat)
    requires
        schedule::count_of(answer) == Some(n),
    ensures
        schedule::built_of(0, seq![AnswerView::Text(answer)]) matches Some((s, _))
            && s matches ScheduleView::Every { every, boot } && is_count_of(
            every,
            n,
            seq!['m', 'i', 'n'],
        ) && boot == every,
        schedule::built_of(1, seq![AnswerView::Text(answer)]) matches Some((s, _))
            && s matches ScheduleView::Every { every, boot } && is_count_of(every, n, seq!['h'])
            && boot == every,
{
    reveal_strlit("min");
    reveal_strlit("h");
    assert("min"@ =~= seq!['m', 'i', 'n']);
    assert("h"@ =~= seq!['h']);
    lemma_count(n, "min"@);
    lemma_count(n, "h"@);
}

/// The boot preset fires the given time after boot.
pub proof fn law_boot_delay_is_what_was_given(answer: Seq<char>)
    requires
        !text::is_blank(answer),
    ensures
        schedule::built_of(5, seq![AnswerView::Text(answer)]) matches Some((s, _)) && s
            == (ScheduleView::Boot { boot: text::trim_of(answer) }),
{
}

/// The backup template fires every night at half past two, and catches up on
/// a night that was missed.
pub proof fn law_backup_fires_nightly(scope: Scope, t: Instant)
    requires
        t.is_valid(),
    ensures
        TemplateId::Backup.unit_of(scope).body matches BodyView::Timer(job) && job.persistent && (
        fires_at(job.schedule, t) <==> is_time(t, 2, 30)),
{
    let any = "*"@;
    let none = Seq::<char>::empty();
    calendar::lemma_any();
    lemma_spec(none, any, 2, 30, t);
    assert(calendar::part_matches(any, t.day));
    reveal_strlit("*-*-* 02:30:00");
    reveal_strlit("*-*-");
    reveal_strlit("*");
    reveal_strlit(" ");
    reveal_strlit(":");
    reveal_strlit(":00");
    assert(number::decimal(2) =~= seq!['2']);
    assert(number::decimal(3) =~= seq!['3']);
    assert(number::decimal(30) =~= seq!['3', '0']);
    assert(number::zeros(1) =~= seq!['0']);
    assert(number::padded(2, 2) =~= seq!['0', '2']);
    assert(number::padded(30, 2) =~= seq!['3', '0']);
    let clock = number::padded(2, 2) + ":"@ + number::padded(30, 2);
    let spec = "*-*-* 02:30:00"@;
    assert(spec =~= "*-*-"@ + any + " "@ + clock + ":00"@);
    lemma_one(spec, t);
}

// ---------------------------------------------------------------------------
// What is accepted, and what is said of it
// ---------------------------------------------------------------------------

/// Counts are accepted within their limits: up to a day of minutes, a week of
/// hours, and the days of the longest month.
pub proof fn law_counts_have_limits(n: nat)
    requires
        n <= 0xffff_ffff,
    ensures
        schedule::refusal_of(Question::Minutes, number::decimal(n)) is None <==> 1 <= n <= 24 * 60,
        schedule::refusal_of(Question::Hours, number::decimal(n)) is None <==> 1 <= n <= 7 * 24,
        schedule::refusal_of(Question::MonthDay, number::decimal(n)) is None <==> 1 <= n <= 31,
        schedule::count_of(number::decimal(n)) == Some(n),
{
    let d = number::decimal(n);
    calendar::lemma_decimal(n);
    assert(text::is_digit(d[0]) && text::is_digit(d[d.len() - 1]));
    text::lemma_trim_tight(d);
    number::lemma_decimal_parses(n, 0xffff_ffff);
}

proof fn lemma_clock(h: nat, m: nat)
    requires
        h < 24,
        m < 60,
    ensures
        schedule::clock_of((h, m)).len() == 5,
        schedule::hhmm_of(schedule::clock_of((h, m))) == Ok::<(nat, nat), Seq<char>>((h, m)),
{
    let a = number::padded(h, 2);
    let b = number::padded(m, 2);
    number::lemma_padded_value(h, 2);
    number::lemma_padded_value(m, 2);
    reveal_strlit(":");
    let s = schedule::clock_of((h, m));
    assert(s =~= a + seq![':'] + b);
    assert(text::is_digit(a[0]) && text::is_digit(a[1]));
    assert(text::is_digit(b[0]) && text::is_digit(b[1]));
    assert(s[0] == a[0] && s.last() == b[1]);
    text::lemma_trim_tight(s);
    text::lemma_trim_tight(a);
    text::lemma_trim_tight(b);
    assert(!a.contains(':'));
    calendar::lemma_split_once(a, b, ':');
}

/// What is said of the daily, weekly and monthly presets ends with the time
/// that was given.
pub proof fn law_presets_say_when(
    choice: int,
    first: AnswerView,
    answer: Seq<char>,
    h: nat,
    m: nat,
)
    requires
        2 <= choice <= 4,
        schedule::hhmm_of(answer) == Ok::<(nat, nat), Seq<char>>((h, m)),
    ensures
        ({
            let answers = if choice == 2 {
                seq![AnswerView::Text(answer)]
            } else {
                seq![first, AnswerView::Text(answer)]
            };
            schedule::built_of(choice, answers) matches Some((_, said)) ==> said.len() > 5
                && schedule::hhmm_of(said.skip(said.len() - 5)) == Ok::<(nat, nat), Seq<char>>(
                (h, m),
            )
        }),
{
    lemma_clock(h, m);
    let c = schedule::clock_of((h, m));
    reveal_strlit("daily at ");
    reveal_strlit("weekly on ");
    reveal_strlit("monthly on day ");
    let answers = if choice == 2 {
        seq![AnswerView::Text(answer)]
    } else {
        seq![first, AnswerView::Text(answer)]
    };
    if let Some((_, said)) = schedule::built_of(choice, answers) {
        assert(said.skip(said.len() - 5) =~= c);
    }
}

/// A new schedule takes the place of the old one, and nothing else of the
/// timer changes.
pub proof fn law_only_the_schedule_changes(u: UnitView, s: ScheduleView, source: Seq<char>)
    ensures
        ({
            let v = schedule::scheduled_of(u, s, source);
            &&& v.name == u.name && v.description == u.description && v.scope == u.scope
            &&& match u.body {
                BodyView::Timer(t) => {
                    &&& v.body matches BodyView::Timer(n)
                    &&& n.schedule == s && n.source == source
                    &&& n.persistent == t.persistent && n.randomized_delay == t.randomized_delay
                    &&& n.service == t.service
                    &&& n.timer_manual == t.timer_manual && n.service_manual == t.service_manual
                },
                _ => v == u,
            }
        }),
{
}

} // verus!
