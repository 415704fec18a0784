//! What the rows of the lists tell.

use crate::calendar;
use crate::cli;
use crate::number;
use crate::parts;
use crate::systemd::EntryView;
use crate::text;
use crate::trash;
use crate::ui::health;
use crate::ui::health::HealthView;
use crate::ui::list;
use crate::ui::reading;
use crate::ui::trashview;
use vstd::prelude::*;

verus! {

broadcast use vstd::string::group_string_axioms;

/// Whether a text stands at a place of another.
pub open spec fn stands_at(s: Seq<char>, k: int, x: Seq<char>) -> bool {
    0 <= k && k + x.len() <= s.len() && s.subrange(k, k + x.len()) == x
}

// ---------------------------------------------------------------------------
// Ages and states
// ---------------------------------------------------------------------------

proof fn lemma_amount(n: nat, c: char)
    requires
        health::unit_seconds(c) > 0,
    ensures
        health::is_amount(number::decimal(n).push(c)),
        health::amount_seconds(number::decimal(n).push(c)) == n * health::unit_seconds(c),
{
    let p = number::decimal(n).push(c);
    calendar::lemma_decimal(n);
    assert(p.drop_last() =~= number::decimal(n));
}

/// An age is rounded down to the largest unit that fits into it.
pub proof fn law_ages_are_rounded_down(secs: nat)
    ensures
        ({
            let t = cli::age_token_of(secs);
            let unit = health::unit_seconds(t.last());
            &&& health::is_amount(t)
            &&& health::amount_seconds(t) <= secs < health::amount_seconds(t) + unit
            &&& unit == if secs >= 86_400 {
                86_400
            } else if secs >= 3600 {
                3600
            } else if secs >= 60 {
                60nat
            } else {
                1
            }
            &&& trashview::age_text(secs) == t + seq![' ', 'a', 'g', 'o']
        }),
{
    reveal_strlit("s");
    reveal_strlit("m");
    reveal_strlit("h");
    reveal_strlit("d");
    reveal_strlit("s ago");
    reveal_strlit("m ago");
    reveal_strlit("h ago");
    reveal_strlit("d ago");
    let (n, c) = if secs < 60 {
        (secs, 's')
    } else if secs < 3600 {
        (secs / 60, 'm')
    } else if secs < 86_400 {
        (secs / 3600, 'h')
    } else {
        (secs / 86_400, 'd')
    };
    let t = cli::age_token_of(secs);
    assert(t =~= number::decimal(n).push(c));
    lemma_amount(n, c);
    let u = health::unit_seconds(c);
    assert(n * u <= secs < n * u + u) by {
        if secs < 60 {
            assert(n * u == n);
        } else if secs < 3600 {
            assert(n * u == (secs / 60) * 60);
        } else if secs < 86_400 {
            assert(n * u == (secs / 3600) * 3600);
        } else {
            assert(n * u == (secs / 86_400) * 86_400);
        }
    }
    assert(trashview::age_text(secs) =~= t + seq![' ', 'a', 'g', 'o']);
}

/// A state token names what a unit was, and nothing else.
pub proof fn law_state_tokens_tell_both(enabled: bool, active: bool)
    ensures
        ({
            let words = parts::split_of(cli::state_token_of(enabled, active), ',');
            &&& words.contains(seq!['e', 'n', 'a', 'b', 'l', 'e', 'd']) == enabled
            &&& words.contains(seq!['a', 'c', 't', 'i', 'v', 'e']) == active
        }),
{
    let e = seq!['e', 'n', 'a', 'b', 'l', 'e', 'd'];
    let a = seq!['a', 'c', 't', 'i', 'v', 'e'];
    let none = seq!['-'];
    reveal_strlit("enabled,active");
    reveal_strlit("enabled");
    reveal_strlit("active");
    reveal_strlit("-");
    assert("enabled,active"@ =~= e + seq![','] + a);
    assert("enabled"@ =~= e);
    assert("active"@ =~= a);
    assert("-"@ =~= none);
    assert(!e.contains(',') && !a.contains(',') && !none.contains(','));
    calendar::lemma_split_two(e, a, ',');
    calendar::lemma_split_one(e, ',');
    calendar::lemma_split_one(a, ',');
    calendar::lemma_split_one(none, ',');
    assert(e.len() == 7 && a.len() == 6 && none.len() == 1);
    assert(seq![e, a][0] == e && seq![e, a][1] == a);
    assert(seq![e][0] == e);
    assert(seq![a][0] == a);
    let words = parts::split_of(cli::state_token_of(enabled, active), ',');
    assert(words =~= if enabled && active {
        seq![e, a]
    } else if enabled {
        seq![e]
    } else if active {
        seq![a]
    } else {
        seq![none]
    });
}

// ---------------------------------------------------------------------------
// The last run
// ---------------------------------------------------------------------------

/// A unit is said to be fine only if it ran and nothing went wrong.
pub proof fn law_ok_means_ok(h: HealthView)
    requires
        h.last_label_of() == seq!['o', 'k'],
        h.result != seq!['o', 'k'],
    ensures
        !h.is_running(),
        h.active != "failed"@,
        h.result.len() == 0 || h.result == "success"@,
        h.last is Some || h.last_stamp.len() > 0,
{
    reveal_strlit("running");
    reveal_strlit("-");
    reveal_strlit("failed");
    reveal_strlit("exit ");
    reveal_strlit("exit");
    reveal_strlit("killed");
    reveal_strlit("throttled");
    let l = h.last_label_of();
    assert(l.len() == 2);
    assert("running"@.len() == 7 && "-"@.len() == 1 && "failed"@.len() == 6);
    assert("exit"@.len() == 4 && "exit "@.len() == 5 && "killed"@.len() == 6);
    assert("throttled"@.len() == 9);
}

/// A unit that runs is said to run, and one that ran cleanly is said to be
/// fine.
pub proof fn law_clean_runs_are_ok(h: HealthView)
    requires
        h.active.len() > 0,
        h.active != "failed"@,
        h.result.len() == 0 || h.result == "success"@,
        h.last is Some || h.last_stamp.len() > 0,
    ensures
        h.last_label_of() == if h.is_running() {
            seq!['r', 'u', 'n', 'n', 'i', 'n', 'g']
        } else {
            seq!['o', 'k']
        },
{
    reveal_strlit("running");
    reveal_strlit("ok");
    assert("running"@ =~= seq!['r', 'u', 'n', 'n', 'i', 'n', 'g']);
    assert("ok"@ =~= seq!['o', 'k']);
}

/// An exit status is shown as the number it is.
pub proof fn law_exit_status_is_shown(h: HealthView, status: i32)
    requires
        !h.is_running(),
        h.is_known(),
        h.result == "exit-code"@,
        h.exit_status == Some(status),
    ensures
        ({
            let w = parts::split_of(h.last_label_of(), ' ');
            &&& w.len() == 2
            &&& w[0] == seq!['e', 'x', 'i', 't']
            &&& number::parse_signed(w[1], 0x8000_0000, 0x7fff_ffff) == Some(status as int)
        }),
{
    let word = seq!['e', 'x', 'i', 't'];
    let n = number::signed_decimal(status as int);
    reveal_strlit("exit-code");
    reveal_strlit("success");
    reveal_strlit("exit ");
    assert("exit-code"@.len() == 9 && "success"@.len() == 7);
    assert("exit "@ =~= word + seq![' ']);
    assert(h.last_label_of() =~= word + seq![' '] + n);
    reading::lemma_signed(status);
    let a = if status < 0 {
        (-status) as nat
    } else {
        status as nat
    };
    calendar::lemma_decimal(a);
    assert(!n.contains(' ')) by {
        if n.contains(' ') {
            let i = choose|i: int| 0 <= i < n.len() && n[i] == ' ';
            let d = number::decimal(a);
            if status < 0 {
                if i > 0 {
                    assert(n[i] == d[i - 1]);
                    assert(text::is_digit(d[i - 1]));
                }
            } else {
                assert(text::is_digit(d[i]));
            }
        }
    }
    assert(!word.contains(' '));
    calendar::lemma_split_two(word, n, ' ');
}

// ---------------------------------------------------------------------------
// Columns
// ---------------------------------------------------------------------------

proof fn lemma_padded(s: Seq<char>, w: int)
    requires
        s.len() <= w,
    ensures
        text::pad_right_of(s, w).len() == w,
        text::pad_right_of(s, w).take(s.len() as int) == s,
{
    assert(text::pad_right_of(s, w).take(s.len() as int) =~= s);
}

/// A row of the list has each column in its place.
pub proof fn law_list_columns_line_up(
    unit: Seq<char>,
    kind: Seq<char>,
    active: Seq<char>,
    owned: Seq<char>,
    schedule: Seq<char>,
)
    requires
        unit.len() <= 34,
        kind.len() <= 10,
        active.len() <= 10,
        owned.len() <= 9,
    ensures
        ({
            let row = cli::columns_of(unit, kind, active, owned, schedule);
            &&& stands_at(row, 0, unit)
            &&& stands_at(row, 35, kind)
            &&& stands_at(row, 46, active)
            &&& stands_at(row, 57, owned)
            &&& row.skip(67) == schedule
            &&& row.len() == 67 + schedule.len()
        }),
{
    let row = cli::columns_of(unit, kind, active, owned, schedule);
    reveal_strlit(" ");
    lemma_padded(unit, 34);
    lemma_padded(kind, 10);
    lemma_padded(active, 10);
    lemma_padded(owned, 9);
    assert(row.subrange(0, unit.len() as int) =~= unit);
    assert(row.subrange(35, 35int + kind.len()) =~= kind);
    assert(row.subrange(46, 46int + active.len()) =~= active);
    assert(row.subrange(57, 57int + owned.len()) =~= owned);
    assert(row.skip(67) =~= schedule);
}

/// A row of the unit list: a mark where it is selected, then the unit, its
/// kind, both states, and the schedule or, without one, the description. A
/// state that is not known is a dash.
pub proof fn law_unit_rows_line_up(e: EntryView, selected: bool)
    requires
        e.primary.len() <= 34,
        e.kind.len() <= 10,
        e.active.len() <= 9,
        e.enabled.len() <= 9,
    ensures
        ({
            let row = list::row_of(e, selected);
            let dash = seq!['-'];
            &&& (row[1] == '>') == selected
            &&& stands_at(row, 3, e.primary)
            &&& stands_at(row, 38, e.kind)
            &&& stands_at(row, 49, if e.active.len() == 0 {
                dash
            } else {
                e.active
            })
            &&& stands_at(row, 59, if e.enabled.len() == 0 {
                dash
            } else {
                e.enabled
            })
            &&& row.skip(69) == if e.schedule.len() > 0 {
                e.schedule
            } else {
                e.description
            }
        }),
{
    let row = list::row_of(e, selected);
    reveal_strlit(" ");
    reveal_strlit("-");
    reveal_strlit(" > ");
    reveal_strlit("   ");
    assert("-"@ =~= seq!['-']);
    let a = list::or_dash(e.active);
    let b = list::or_dash(e.enabled);
    lemma_padded(e.primary, 34);
    lemma_padded(e.kind, 10);
    lemma_padded(a, 9);
    lemma_padded(b, 9);
    assert(row.subrange(3, 3int + e.primary.len()) =~= e.primary);
    assert(row.subrange(38, 38int + e.kind.len()) =~= e.kind);
    assert(row.subrange(49, 49int + a.len()) =~= a);
    assert(row.subrange(59, 59int + b.len()) =~= b);
    assert(row.skip(69) =~= if e.schedule.len() > 0 {
        e.schedule
    } else {
        e.description
    });
}

/// A row of the trash starts with the unit and tells how long ago it was
/// removed.
pub proof fn law_trash_rows_tell_the_age(e: trash::EntryView, now: u64)
    requires
        e.unit.len() <= 32,
        trashview::age_text(trash::age_of(e, now) as nat).len() <= 10,
    ensures
        ({
            let row = trashview::row_of(e, now);
            let age = trashview::age_text(trash::age_of(e, now) as nat);
            &&& stands_at(row, 0, e.unit)
            &&& stands_at(row, 43 - age.len(), age)
            &&& stands_at(row, 45, number::decimal(e.files.len()))
        }),
{
    let row = trashview::row_of(e, now);
    let age = trashview::age_text(trash::age_of(e, now) as nat);
    reveal_strlit(" ");
    reveal_strlit("  ");
    lemma_padded(e.unit, 32);
    assert(text::pad_left_of(age, 10).len() == 10);
    assert(row.subrange(0, e.unit.len() as int) =~= e.unit);
    assert(row.subrange(43 - age.len(), 43) =~= age);
    let n = number::decimal(e.files.len());
    assert(row.subrange(45, 45int + n.len()) =~= n);
}

/// A unit was removed as long ago as the clock has moved on since.
pub proof fn law_age_is_time_since_removal(e: trash::EntryView, now: u64)
    ensures
        now >= e.removed_at ==> e.removed_at + trash::age_of(e, now) == now,
        now < e.removed_at ==> trash::age_of(e, now) == 0,
{
}

} // verus!
