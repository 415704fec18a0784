//! How units are doing.

use notcron::strmap::StrMap;
use notcron::ui::health::{
    fetch, health_from_props, merge, parse_list_timers, parse_show, short_stamp, show_args,
    sort_rank, span, wants_timers, Health,
};

/// Real `systemctl show` output for a timer and its service.
const SHOW: &str = "\
Result=success
ExecMainExitTimestamp=n/a
Id=notcron-backup.timer
ActiveState=active
SubState=waiting

Result=exit-code
ExecMainExitTimestamp=Fri 2026-08-14 19:44:20 CEST
ExecMainStatus=2
Id=notcron-backup.service
ActiveState=failed
SubState=failed
";

#[test]
fn show_output_is_split_per_unit() {
    let m = parse_show(SHOW);
    assert_eq!(m.len(), 2);
    assert_eq!(m.get("notcron-backup.timer").unwrap().get("ActiveState").unwrap(), "active");
    assert_eq!(m.get("notcron-backup.service").unwrap().get("ExecMainStatus").unwrap(), "2");
}

#[test]
fn a_block_without_an_id_is_dropped() {
    assert!(parse_show("ActiveState=active\nSubState=waiting\n").is_empty());
    assert!(parse_show("").is_empty());
    assert!(parse_show("no equals sign here").is_empty());
}

#[test]
fn a_clean_service_reads_as_ok() {
    let m = parse_show(SHOW);
    let h = health_from_props(m.get("notcron-backup.timer").unwrap());
    assert!(!h.failed());
    assert_eq!(h.result, "success");
    // Never run: no timestamp, so no outcome to report.
    assert_eq!(h.last_stamp, "");
    assert_eq!(h.last_label(), "-");
}

#[test]
fn a_failed_service_carries_its_exit_status() {
    let m = parse_show(SHOW);
    let h = health_from_props(m.get("notcron-backup.service").unwrap());
    assert!(h.failed());
    assert_eq!(h.exit_status, Some(2));
    assert_eq!(h.last_label(), "exit 2");
}

#[test]
fn every_systemd_result_word_gets_a_label() {
    let label = |result: &str, status: Option<i32>| {
        Health {
            active: "inactive".into(),
            result: result.into(),
            exit_status: status,
            last_stamp: "Fri 2026-08-14 19:44:20 CEST".into(),
            ..Health::default()
        }
        .last_label()
    };
    assert_eq!(label("success", Some(0)), "ok");
    assert_eq!(label("exit-code", Some(1)), "exit 1");
    assert_eq!(label("exit-code", None), "exit");
    assert_eq!(label("signal", None), "killed");
    assert_eq!(label("core-dump", None), "killed");
    assert_eq!(label("timeout", None), "timeout");
    assert_eq!(label("watchdog", None), "watchdog");
    assert_eq!(label("start-limit-hit", None), "throttled");
    assert_eq!(label("resources", None), "resources");
    // An unknown word from a future systemd is shown, not swallowed.
    assert_eq!(label("something-new", None), "something-new");
    // Every label fits the narrowest column the table ever gives it.
    for r in [
        "success",
        "exit-code",
        "signal",
        "timeout",
        "watchdog",
        "start-limit-hit",
        "resources",
    ] {
        assert!(label(r, Some(137)).chars().count() <= 10, "{r}");
    }
}

#[test]
fn a_running_unit_says_so_rather_than_reporting_the_last_run() {
    let h = Health {
        active: "active".into(),
        sub: "running".into(),
        result: "success".into(),
        ..Health::default()
    };
    assert_eq!(h.last_label(), "running");
    assert!(h.running());
    assert!(!h.failed());
}

#[test]
fn an_unknown_unit_claims_nothing() {
    let h = Health::default();
    assert!(!h.known());
    assert!(!h.failed());
    assert_eq!(h.last_label(), "-");
    assert_eq!(h.next_label(0), "-");
    assert_eq!(h.detail(0), "");
}

#[test]
fn a_failed_active_state_counts_even_with_a_clean_result() {
    let h = Health {
        active: "failed".into(),
        result: "success".into(),
        ..Health::default()
    };
    assert!(h.failed());
    assert_eq!(h.last_label(), "failed");
}

// -----------------------------------------------------------------
// The timer listing
// -----------------------------------------------------------------

const TIMERS: &str = r#"[{"next":1786762200000000,"left":1786762200000000,"last":1786761601585463,"passed":6589082235104,"unit":"sysstat-collect.timer","activates":"sysstat-collect.service"},{"next":null,"left":null,"last":0,"passed":null,"unit":"never.timer","activates":"never.service"}]"#;

#[test]
fn the_timer_listing_is_parsed() {
    let rows = parse_list_timers(TIMERS);
    assert_eq!(rows.len(), 2);
    assert_eq!(rows[0].unit, "sysstat-collect.timer");
    assert_eq!(rows[0].next, Some(1786762200000000));
    assert_eq!(rows[0].last, Some(1786761601585463));
}

#[test]
fn a_timer_that_will_not_fire_has_no_next_elapse() {
    let rows = parse_list_timers(TIMERS);
    assert_eq!(rows[1].unit, "never.timer");
    assert_eq!(rows[1].next, None);
    assert_eq!(rows[1].last, None);
}

#[test]
fn the_never_sentinel_is_not_a_timestamp() {
    let text = format!(r#"[{{"next":{},"last":0,"unit":"x.timer"}}]"#, u64::MAX);
    let rows = parse_list_timers(&text);
    assert_eq!(rows[0].next, None);
}

#[test]
fn malformed_or_empty_listings_yield_nothing_rather_than_panicking() {
    for text in [
        "",
        "[]",
        "not json at all",
        "{",
        "{\"unit\"",
        "{\"unit\":",
        r#"[{"unit":"x.timer""#,
        r#"[{"no":"unit"}]"#,
        r#"[{"unit":""}]"#,
        "{}{}{}",
        r#"[{"unit":"a.timer","next":"not a number"}]"#,
    ] {
        let rows = parse_list_timers(text);
        assert!(rows.len() <= 1, "{text}: {rows:?}");
    }
    // A truncated object must not lose the fields it did have.
    assert!(parse_list_timers(r#"[{"unit":"a.timer","next":"x"}]"#)[0]
        .next
        .is_none());
}

#[test]
fn escaped_strings_survive_the_scanner() {
    let rows = parse_list_timers(r#"[{"unit":"od\"d.timer","next":5}]"#);
    assert_eq!(rows[0].unit, "od\"d.timer");
    assert_eq!(rows[0].next, Some(5));
}

// -----------------------------------------------------------------
// Merging a group
// -----------------------------------------------------------------

fn by_unit() -> StrMap<Health> {
    let shown = parse_show(SHOW);
    let mut m: StrMap<Health> = StrMap::new();
    for (id, p) in &shown.items {
        m.insert(id.clone(), health_from_props(p));
    }
    let mut timer = m.get("notcron-backup.timer").unwrap().clone();
    timer.next = Some(2_000_000_000_000_000);
    timer.last = Some(1_000_000_000_000_000);
    m.insert("notcron-backup.timer".into(), timer);
    m
}

/// The timer supplies the schedule and the service the outcome, so the
/// row shows a next elapse *and* the exit status that matters.
#[test]
fn a_group_merges_the_timer_schedule_with_the_service_outcome() {
    let files = vec![
        "notcron-backup.timer".to_string(),
        "notcron-backup.service".to_string(),
    ];
    let h = merge(&files, &by_unit());
    assert_eq!(h.next, Some(2_000_000_000_000_000));
    assert_eq!(h.last, Some(1_000_000_000_000_000));
    assert_eq!(h.last_label(), "exit 2");
    assert!(h.failed());
}

/// File order must not change the answer.
#[test]
fn merging_is_order_independent() {
    let m = by_unit();
    let fwd = merge(
        &[
            "notcron-backup.timer".into(),
            "notcron-backup.service".into(),
        ],
        &m,
    );
    let rev = merge(
        &[
            "notcron-backup.service".into(),
            "notcron-backup.timer".into(),
        ],
        &m,
    );
    assert_eq!(fwd, rev);
}

#[test]
fn merging_units_nobody_reported_on_yields_nothing_known() {
    let h = merge(&["ghost.timer".into()], &StrMap::new());
    assert!(!h.known());
    assert!(merge(&[], &by_unit()) == Health::default());
}

#[test]
fn a_healthy_group_is_not_marked_failed() {
    let mut m = by_unit();
    let mut svc = m.get("notcron-backup.service").unwrap().clone();
    svc.result = "success".into();
    svc.exit_status = Some(0);
    svc.active = "inactive".into();
    svc.sub = "dead".into();
    m.insert("notcron-backup.service".into(), svc);
    let h = merge(
        &[
            "notcron-backup.timer".into(),
            "notcron-backup.service".into(),
        ],
        &m,
    );
    assert!(!h.failed());
    assert_eq!(h.last_label(), "ok");
}

#[test]
fn failures_sort_above_everything_else() {
    let mut names: Vec<(&str, Health)> = vec![
        (
            "clean",
            Health {
                active: "active".into(),
                result: "success".into(),
                ..Health::default()
            },
        ),
        (
            "broken",
            Health {
                active: "failed".into(),
                result: "exit-code".into(),
                exit_status: Some(1),
                ..Health::default()
            },
        ),
        (
            "also-clean",
            Health {
                active: "inactive".into(),
                ..Health::default()
            },
        ),
        (
            "also-broken",
            Health {
                result: "timeout".into(),
                ..Health::default()
            },
        ),
    ];
    names.sort_by_key(|(_, h)| sort_rank(h));
    let order: Vec<&str> = names.iter().map(|(n, _)| *n).collect();
    assert_eq!(order, vec!["broken", "also-broken", "clean", "also-clean"]);
}

/// The sort must be stable: two failures keep their alphabetical order.
#[test]
fn sorting_is_stable_within_a_rank() {
    let failed = Health {
        result: "exit-code".into(),
        exit_status: Some(1),
        ..Health::default()
    };
    let mut v = [("a", failed.clone()), ("b", failed.clone()), ("c", failed)];
    v.sort_by_key(|(_, h)| sort_rank(h));
    assert_eq!(
        v.iter().map(|(n, _)| *n).collect::<Vec<_>>(),
        vec!["a", "b", "c"]
    );
}

// -----------------------------------------------------------------
// Formatting
// -----------------------------------------------------------------

#[test]
fn spans_read_the_way_systemd_phrases_them() {
    let s = |secs: u64| span(secs * 1_000_000);
    assert_eq!(s(0), "now");
    assert_eq!(s(1), "1s");
    assert_eq!(s(59), "59s");
    assert_eq!(s(60), "1m");
    assert_eq!(s(3599), "59m");
    assert_eq!(s(3600), "1h");
    assert_eq!(s(3600 + 2940), "1h 49m");
    assert_eq!(s(86_400), "1d");
    assert_eq!(s(86_400 + 7200), "1d 2h");
    assert_eq!(s(86_400 * 400), "400d");
}

#[test]
fn spans_stay_short_enough_for_the_column() {
    for secs in [0u64, 7, 90, 3600, 90_000, 86_400 * 999] {
        assert!(span(secs * 1_000_000).chars().count() <= 8, "{secs}");
    }
}

#[test]
fn a_next_elapse_in_the_past_does_not_underflow() {
    let h = Health {
        next: Some(5),
        ..Health::default()
    };
    assert_eq!(h.next_label(1_000_000_000), "in now");
}

#[test]
fn timestamps_shorten_to_month_day_and_time() {
    assert_eq!(short_stamp("Fri 2026-08-14 19:44:20 CEST"), "08-14 19:44");
    // Anything unexpected is clipped rather than mangled.
    assert_eq!(short_stamp("n/a"), "n/a");
    assert_eq!(short_stamp(""), "");
    assert_eq!(short_stamp("one two"), "one two");
    assert!(short_stamp("a very long unexpected value").chars().count() <= 11);
}

#[test]
fn the_detail_line_names_state_last_and_next() {
    let now = 2_000_000_000_000_000u64;
    let h = Health {
        active: "active".into(),
        sub: "waiting".into(),
        result: "success".into(),
        next: Some(now + 3_600_000_000),
        last: Some(now - 7_200_000_000),
        ..Health::default()
    };
    let d = h.detail(now);
    assert!(d.contains("active (waiting)"), "{d}");
    assert!(d.contains("last 2h ago"), "{d}");
    assert!(d.contains("next in 1h"), "{d}");
}

#[test]
fn a_unit_with_only_a_formatted_timestamp_still_reports_its_last_run() {
    let h = Health {
        active: "inactive".into(),
        sub: "dead".into(),
        result: "exit-code".into(),
        exit_status: Some(3),
        last_stamp: "Fri 2026-08-14 19:44:20 CEST".into(),
        ..Health::default()
    };
    let d = h.detail(2_000_000_000_000_000);
    assert!(d.contains("last 08-14 19:44, exit 3"), "{d}");
}

#[test]
fn one_answer_is_put_together_from_both_commands() {
    let units = vec!["notcron-backup.timer".to_string(), "x.service".to_string()];
    assert_eq!(show_args(&units)[2..], units);
    assert!(wants_timers(&units));
    assert!(!wants_timers(&units[1..]));
    let listing = r#"[{"next":7,"last":5,"unit":"notcron-backup.timer"}]"#;
    let m = fetch(&Some(SHOW.to_string()), &Some(listing.to_string()));
    let timer = m.get("notcron-backup.timer").unwrap();
    assert_eq!((timer.next, timer.last), (Some(7), Some(5)));
    assert_eq!(m.get("notcron-backup.service").unwrap().exit_status, Some(2));
    assert!(fetch(&None, &None).is_empty());
}

#[test]
fn only_a_date_and_a_time_are_shortened() {
    assert_eq!(short_stamp("a very long unexpected value"), "a very long");
    assert_eq!(short_stamp("Fri 2026-08-14 19:44"), "08-14 19:44");
    assert_eq!(short_stamp("Fri 2026/08/14 19:44:20"), "Fri 2026/08");
    assert_eq!(short_stamp("Fri 2026-08-14 7pm"), "Fri 2026-08");
    assert_eq!(short_stamp("Fri 12026-08-14 19:44:20"), "Fri 12026-0");
}

#[test]
fn a_failure_of_any_file_shows() {
    let mut m: StrMap<Health> = StrMap::new();
    let failed = Health {
        active: "failed".into(),
        result: "resources".into(),
        ..Health::default()
    };
    let clean = Health {
        active: "inactive".into(),
        sub: "dead".into(),
        result: "success".into(),
        exit_status: Some(0),
        ..Health::default()
    };
    m.insert("a.timer".into(), failed);
    m.insert("a.service".into(), clean);
    let h = merge(&["a.timer".into(), "a.service".into()], &m);
    assert!(h.failed());
    assert_eq!(h.result, "resources");
    assert_eq!(h.active, "failed");
    assert_eq!(h, merge(&["a.service".into(), "a.timer".into()], &m));
    // Another failure takes its place.
    let worse = Health { result: "exit-code".into(), exit_status: Some(2), ..Health::default() };
    m.insert("a.service".into(), worse);
    let h = merge(&["a.timer".into(), "a.service".into()], &m);
    assert_eq!(h.result, "exit-code");
    assert_eq!(h.exit_status, Some(2));
}
