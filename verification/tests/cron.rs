//! Cron expressions and the calendar specs they stand for.

use notcron::cron::{to_calendar, Translation};

/// The OnCalendar lines joined with ';'.
fn cron(expr: &str) -> String {
    match to_calendar(expr).expect("expression should translate") {
        Translation::Calendar(v) => v.join(";"),
        Translation::Reboot => "@reboot".into(),
    }
}

fn bad(expr: &str) {
    assert!(
        to_calendar(expr).is_err(),
        "expected '{expr}' to be rejected"
    );
}

#[test]
fn wildcards_and_fixed_values() {
    assert_eq!(cron("* * * * *"), "*-*-* *:*:00");
    assert_eq!(cron("0 3 * * *"), "*-*-* 03:00:00");
    assert_eq!(cron("30 2 * * *"), "*-*-* 02:30:00");
    assert_eq!(cron("0 0 1 1 *"), "*-01-01 00:00:00");
    assert_eq!(cron("59 23 * * *"), "*-*-* 23:59:00");
}

#[test]
fn steps() {
    assert_eq!(cron("*/15 * * * *"), "*-*-* *:00,15,30,45:00");
    assert_eq!(cron("*/30 * * * *"), "*-*-* *:00,30:00");
    assert_eq!(cron("0 */6 * * *"), "*-*-* 00,06,12,18:00:00");
    assert_eq!(cron("*/1 * * * *"), "*-*-* *:*:00");
    assert_eq!(cron("0 0 */10 * *"), "*-*-01,11,21,31 00:00:00");
}

#[test]
fn ranges() {
    assert_eq!(
        cron("0 9-17 * * *"),
        "*-*-* 09,10,11,12,13,14,15,16,17:00:00"
    );
    assert_eq!(cron("0 0 1-5 * *"), "*-*-01,02,03,04,05 00:00:00");
    assert_eq!(cron("0-59 0 1 1 *"), "*-01-01 00:*:00");
}

#[test]
fn ranges_with_a_step() {
    assert_eq!(cron("0 0 1-9/2 * *"), "*-*-01,03,05,07,09 00:00:00");
    assert_eq!(cron("0 8-18/4 * * *"), "*-*-* 08,12,16:00:00");
}

#[test]
fn open_ended_step() {
    assert_eq!(cron("0 0 20/5 * *"), "*-*-20,25,30 00:00:00");
}

#[test]
fn lists() {
    assert_eq!(cron("30 2 1,15 * *"), "*-*-01,15 02:30:00");
    assert_eq!(cron("0 6,12,18 * * *"), "*-*-* 06,12,18:00:00");
    assert_eq!(cron("0,30 * * * *"), "*-*-* *:00,30:00");
}

#[test]
fn day_of_week_numeric_and_named() {
    assert_eq!(cron("0 0 * * 0"), "Sun *-*-* 00:00:00");
    assert_eq!(cron("0 0 * * 7"), "Sun *-*-* 00:00:00");
    assert_eq!(cron("0 0 * * 1"), "Mon *-*-* 00:00:00");
    assert_eq!(cron("0 0 * * sun"), "Sun *-*-* 00:00:00");
    assert_eq!(cron("0 0 * * SUN"), "Sun *-*-* 00:00:00");
    assert_eq!(cron("0 0 * * Mon"), "Mon *-*-* 00:00:00");
    assert_eq!(
        cron("0 9 * * mon-fri"),
        "Mon,Tue,Wed,Thu,Fri *-*-* 09:00:00"
    );
    assert_eq!(cron("0 9 * * 1-5"), "Mon,Tue,Wed,Thu,Fri *-*-* 09:00:00");
    assert_eq!(cron("0 9 * * sat,sun"), "Sat,Sun *-*-* 09:00:00");
    assert_eq!(cron("0 9 * * 6,0"), "Sat,Sun *-*-* 09:00:00");
}

#[test]
fn wrapping_day_of_week_range() {
    // Days come out in systemd's canonical Mon..Sun order, not cron's
    // wrap order.
    assert_eq!(cron("0 9 * * fri-mon"), "Mon,Fri,Sat,Sun *-*-* 09:00:00");
    // All seven days collapses back to a wildcard.
    assert_eq!(cron("0 9 * * 0-6"), "*-*-* 09:00:00");
}

#[test]
fn month_names() {
    assert_eq!(cron("0 0 1 jan *"), "*-01-01 00:00:00");
    assert_eq!(cron("0 0 1 DEC *"), "*-12-01 00:00:00");
    assert_eq!(cron("0 0 1 jan,jul *"), "*-01,07-01 00:00:00");
    assert_eq!(cron("0 0 1 mar-may *"), "*-03,04,05-01 00:00:00");
}

#[test]
fn dom_and_dow_become_two_lines() {
    assert_eq!(cron("15 10 13 * fri"), "*-*-13 10:15:00;Fri *-*-* 10:15:00");
    assert_eq!(cron("0 0 1 * mon"), "*-*-01 00:00:00;Mon *-*-* 00:00:00");
}

#[test]
fn macros() {
    assert_eq!(cron("@hourly"), "*-*-* *:00:00");
    assert_eq!(cron("@daily"), "*-*-* 00:00:00");
    assert_eq!(cron("@midnight"), "*-*-* 00:00:00");
    assert_eq!(cron("@weekly"), "Sun *-*-* 00:00:00");
    assert_eq!(cron("@monthly"), "*-*-01 00:00:00");
    assert_eq!(cron("@yearly"), "*-01-01 00:00:00");
    assert_eq!(cron("@annually"), "*-01-01 00:00:00");
    assert_eq!(cron("@DAILY"), "*-*-* 00:00:00");
    assert_eq!(to_calendar("@reboot").unwrap(), Translation::Reboot);
}

#[test]
fn whitespace_tolerance() {
    assert_eq!(cron("  0   3  *  *  * "), "*-*-* 03:00:00");
    assert_eq!(cron("0\t3 * * *"), "*-*-* 03:00:00");
}

#[test]
fn invalid_input_is_rejected() {
    bad("60 3 * * *"); // minute out of range
    bad("99 3 * * *");
    bad("0 24 * * *"); // hour out of range
    bad("0 3 0 * *"); // day-of-month zero
    bad("0 3 32 * *"); // day-of-month too large
    bad("0 3 * 13 *"); // month out of range
    bad("0 3 * 0 *"); // month zero
    bad("0 3 * * 8"); // day-of-week out of range
    bad("0 3 * * xyz"); // unknown day name
    bad("0 3 * jann *"); // unknown month name
    bad("*/0 * * * *"); // zero step
    bad("5-1 * * * *"); // inverted range
    bad("a b c d e"); // non-numeric field
    bad("0 3 * *"); // too few fields
    bad("0 3 * * * *"); // too many fields
    bad(""); // empty expression
    bad("@bogus"); // unknown macro
    bad("0 3 * * mon;rm"); // illegal character
    bad("0,,5 * * * *"); // empty list term
    bad("*/2/3 * * * *"); // nested step
}

#[test]
fn error_messages_are_descriptive() {
    let e = to_calendar("60 3 * * *").unwrap_err().to_string();
    assert!(e.contains("out of range"), "{e}");
    let e = to_calendar("0 3 * *").unwrap_err().to_string();
    assert!(e.contains("5 fields"), "{e}");
}

#[test]
fn steps_go_on_across_the_end_of_the_week() {
    assert_eq!(
        to_calendar("0 9 * * fri-mon/2"),
        Ok(Translation::Calendar(vec!["Fri,Sun *-*-* 09:00:00".to_string()]))
    );
    assert_eq!(cron("0 9 * * sat-tue/3"), "Tue,Sat *-*-* 09:00:00");
    assert_eq!(cron("0 9 * * fri-mon/1"), cron("0 9 * * fri-mon"));
    assert_eq!(cron("0 9 * * fri-mon/7"), "Fri *-*-* 09:00:00");
}

#[test]
fn numbers_that_are_too_large_are_out_of_range() {
    assert_eq!(
        to_calendar("4294967296 3 * * *").unwrap_err().to_string(),
        "value '4294967296' out of range (0-59)"
    );
    bad("0 3 * * 4294967303");
    bad("*/4294967296 * * * *");
    assert_eq!(cron("0000000000000003 3 * * *"), "*-*-* 03:03:00");
}
