//! What systemd is asked, and what its answers come to.

use notcron::cron::{to_calendar, Translation};
use notcron::systemd::{
    check_calendar, check_timespan, fill_states, install_files, installed, is_active, is_enabled,
    journal, journal_command, list, live_specs, next_runs, next_runs_command, next_runs_multi,
    parse_iterations, primary_rank, remove_reporting, stash_request, state_args, systemctl,
    systemctl_command, unit_dir, NextRun, Outcome, PreviewError,
};
use notcron::trash::{
    entry_name, listed, select_for_prune, Move, PrunePolicy, Trash, TrashEntry,
};
use notcron::unit::generate::render;
use notcron::unit::model::{Body, Scope, Unit};
use notcron::unit::parse::SourceFile;
use std::collections::BTreeMap;

#[test]
fn user_unit_dir_follows_xdg_config_home() {
    let home = Some("/home/x".to_string());
    let d = unit_dir(Scope::User, &None, &home);
    assert!(d.ends_with("systemd/user"), "{d}");
    assert_eq!(d, "/home/x/.config/systemd/user");
    assert_eq!(
        unit_dir(Scope::User, &Some("/cfg".to_string()), &home),
        "/cfg/systemd/user"
    );
    assert_eq!(unit_dir(Scope::System, &None, &home), "/etc/systemd/system");
}

// -----------------------------------------------------------------
// Removal stashes instead of deleting: no unit file is ever deleted
// without a restorable copy existing first.
// -----------------------------------------------------------------

const TIMER: &str = "notcron-e2e.timer";
const SERVICE: &str = "notcron-e2e.service";

fn names() -> Vec<String> {
    vec![TIMER.to_string(), SERVICE.to_string()]
}

/// Stashes the unit's two files at a time, and says where they went.
fn stash(was_enabled: bool, was_active: bool, now: u64) -> (TrashEntry, Vec<Move>) {
    let req = stash_request(Scope::User, "/units", &names(), &[true, true], was_enabled, was_active)
        .expect("both files are there");
    let id = entry_name(&req.unit, now, 0);
    Trash::at("/trash").stash_at(&req, &[true, true], &id, now).unwrap()
}

#[test]
fn removal_stashes_the_files_instead_of_deleting_them() {
    let report =
        remove_reporting(&names(), "/trash", Some(Ok(stash(true, false, 1_755_257_400).0)), &None)
            .unwrap();
    let entry = report.trashed.expect("removal should have stashed");
    assert_eq!(entry.unit, TIMER);
    assert_eq!(entry.files.len(), 2);
    assert!(entry.was_enabled);
    assert!(!entry.was_active);
    assert!(report.warnings.is_empty());
}

#[test]
fn remove_then_restore_returns_the_original_bytes() {
    let timer_body = "[Unit]\nDescription=e2e\n\n[Timer]\nOnCalendar=*-*-* 03:00:00\n";
    let service_body = "[Unit]\nDescription=e2e\n\n[Service]\nExecStart=/bin/true\n";
    let mut disk: BTreeMap<String, &str> = BTreeMap::new();
    disk.insert(format!("/units/{TIMER}"), timer_body);
    disk.insert(format!("/units/{SERVICE}"), service_body);

    let (entry, moves) = stash(true, true, 1_755_257_400);
    for m in moves {
        let body = disk.remove(&m.from).unwrap();
        disk.insert(m.to, body);
    }
    assert!(!disk.contains_key(&format!("/units/{TIMER}")));
    let report = remove_reporting(&names(), "/trash", Some(Ok(entry)), &None).unwrap();
    let entry = report.trashed.unwrap();

    let (restored, moves) = Trash::at("/trash").restore(&entry, &[false, false], false).unwrap();
    assert_eq!(restored.restored.len(), 2);
    // Restore reports what it saw at removal time, so a caller can offer
    // to re-enable and restart.
    assert!(restored.was_enabled);
    assert!(restored.was_active);
    for m in moves {
        let body = disk.remove(&m.from).unwrap();
        disk.insert(m.to, body);
    }
    assert_eq!(disk[&format!("/units/{TIMER}")], timer_body);
    assert_eq!(disk[&format!("/units/{SERVICE}")], service_body);
    // A restored entry leaves nothing behind in the trash.
    assert_eq!(disk.len(), 2);
}

#[test]
fn a_failed_stash_aborts_the_removal_and_deletes_nothing() {
    let err = remove_reporting(
        &names(),
        "/blocker/trash",
        Some(Err("not a directory".to_string())),
        &None,
    )
    .expect_err("a trash that cannot be written must abort the removal");
    assert!(err.contains("NOT deleted"), "{err}");
    assert!(err.starts_with(TIMER), "{err}");
    assert!(err.contains("/blocker/trash"), "{err}");
    assert!(err.ends_with("not a directory"), "{err}");
}

#[test]
fn a_unit_whose_files_are_already_gone_removes_without_a_trash_entry() {
    // Nothing on disk is not a failure: there is nothing to lose, so the
    // removal proceeds and simply has no undo to offer.
    let req = stash_request(Scope::User, "/units", &names(), &[false, false], false, false);
    assert!(req.is_none());
    let report = remove_reporting(&names(), "/trash", None, &None).unwrap();
    assert!(report.trashed.is_none());
}

#[test]
fn removal_prunes_the_trash_to_the_default_retention() {
    // More removals than the default policy keeps.
    let made: Vec<TrashEntry> = (0..55).map(|i| stash(false, false, 1_755_257_400 + i).0).collect();
    let all = listed(&made);
    let gone = select_for_prune(&all, PrunePolicy::default(), 1_755_257_500);
    assert_eq!(all.len() - gone.len(), 50);
}

#[test]
fn a_failed_prune_is_only_a_warning() {
    let report = remove_reporting(
        &names(),
        "/trash",
        Some(Ok(stash(false, false, 0).0)),
        &Some("disk full".to_string()),
    )
    .unwrap();
    assert_eq!(report.warnings, vec!["pruning the trash: disk full".to_string()]);
}

#[test]
fn primary_rank_puts_the_timer_first() {
    assert!(primary_rank("timer") < primary_rank("service"));
    assert!(primary_rank("automount") < primary_rank("mount"));
}

fn analysed(stdout: &str) -> Option<Outcome> {
    Some(Outcome { success: true, stdout: stdout.to_string(), stderr: String::new() })
}

fn refused(stderr: &str) -> Option<Outcome> {
    Some(Outcome { success: false, stdout: String::new(), stderr: stderr.to_string() })
}

#[test]
fn calendar_specs_notcron_emits_are_accepted_by_systemd() {
    let exprs = [
        "* * * * *",
        "0 3 * * *",
        "*/15 * * * *",
        "0 9-17 * * mon-fri",
        "30 2 1,15 * *",
        "0 0 1 jan,jul *",
        "15 10 13 * fri",
        "@weekly",
        "@monthly",
        "0 0 1-9/2 * *",
        "0 9 * * fri-mon",
        "0 0 */10 * *",
        "0-59 0 1 1 *",
        "0 0 1 mar-may *",
        "0 8-18/4 * * *",
        "0 0 20/5 * *",
    ];
    for e in exprs {
        let Translation::Calendar(specs) = to_calendar(e).unwrap() else {
            panic!("{e} should be a calendar");
        };
        for s in specs {
            assert_eq!(
                check_calendar(&s, &analysed(SAMPLE)),
                Ok(Some("Mon 2026-08-17 03:00:00 CEST".to_string()))
            );
            // Without systemd-analyze nothing is held against a spec.
            assert_eq!(check_calendar(&s, &None), Ok(None));
        }
    }
}

#[test]
fn bogus_calendar_specs_are_rejected() {
    let spec = "not a calendar spec at all";
    assert_eq!(
        check_calendar(spec, &refused(" Failed to parse\n")),
        Err("Failed to parse".to_string())
    );
    assert_eq!(
        check_calendar(spec, &refused("")),
        Err("systemd rejected the calendar spec 'not a calendar spec at all'".to_string())
    );
}

#[test]
fn timespans_are_checked() {
    assert!(check_timespan("15min", &analysed("")).is_ok());
    assert!(check_timespan("90s", &None).is_ok());
    assert_eq!(
        check_timespan("wibble", &refused("")),
        Err("'wibble' is not a valid time span".to_string())
    );
}

const SAMPLE: &str = "\
Normalized form: Mon *-*-* 03:00:00
    Next elapse: Mon 2026-08-17 03:00:00 CEST
       (in UTC): Mon 2026-08-17 01:00:00 UTC
       From now: 1 day 23h left
   Iteration #2: Mon 2026-08-24 03:00:00 CEST
       (in UTC): Mon 2026-08-24 01:00:00 UTC
       From now: 1 week 1 day left
   Iteration #3: Mon 2026-08-31 03:00:00 CEST
       (in UTC): Mon 2026-08-31 01:00:00 UTC
       From now: 2 weeks 1 day left
";

#[test]
fn iteration_output_is_parsed() {
    let runs = parse_iterations(SAMPLE);
    assert_eq!(runs.len(), 3);
    assert_eq!(runs[0].local, "Mon 2026-08-17 03:00:00 CEST");
    assert_eq!(runs[0].utc, "Mon 2026-08-17 01:00:00 UTC");
    assert_eq!(runs[0].from_now, "1 day 23h left");
    assert_eq!(runs[2].local, "Mon 2026-08-31 03:00:00 CEST");
    // The "Normalized form:" line must not be mistaken for an elapse.
    assert!(!runs.iter().any(|r| r.local.contains('*')));
}

#[test]
fn sort_key_is_the_utc_instant() {
    let runs = parse_iterations(SAMPLE);
    assert_eq!(runs[0].sort_key(), "2026-08-17 01:00:00");
    // Falls back to the local line when no UTC form was printed.
    let local_only = NextRun {
        local: "Mon 2026-08-17 03:00:00 CEST".into(),
        utc: String::new(),
        from_now: String::new(),
    };
    assert_eq!(local_only.sort_key(), "2026-08-17 03:00:00");
    let mut keys: Vec<&str> = runs.iter().map(|r| r.sort_key()).collect();
    let sorted = {
        let mut k = keys.clone();
        k.sort_unstable();
        k
    };
    keys.dedup();
    assert_eq!(keys, sorted);
}

#[test]
fn a_spec_that_never_fires_yields_no_runs() {
    let text = "Normalized form: 2000-01-01 00:00:00\n    Next elapse: never\n";
    assert!(parse_iterations(text).is_empty());
}

#[test]
fn stray_lines_are_ignored() {
    assert!(parse_iterations("").is_empty());
    assert!(parse_iterations("no colons here\nOriginal form: whatever\n").is_empty());
    // Continuation lines with no elapse before them must not panic.
    assert!(parse_iterations("       (in UTC): Mon 2026-08-17 01:00:00 UTC\n").is_empty());
}

#[test]
fn next_runs_returns_the_requested_count() {
    let runs = next_runs("Mon *-*-* 03:00:00", &analysed(SAMPLE)).unwrap();
    assert_eq!(runs.len(), 3);
    assert!(runs.iter().all(|r| r.local.contains("03:00:00")));
    // Strictly increasing.
    for w in runs.windows(2) {
        assert!(w[0].sort_key() < w[1].sort_key(), "{:?}", w);
    }
    assert_eq!(
        next_runs_command("*-*-* 03:00:00", 5),
        vec!["systemd-analyze", "calendar", "--iterations=5", "*-*-* 03:00:00"]
    );
    assert_eq!(next_runs_command("x", 0)[2], "--iterations=1");
    assert_eq!(next_runs("x", &None), Err(PreviewError::Unavailable));
}

#[test]
fn next_runs_reports_an_invalid_spec() {
    match next_runs("not a calendar spec at all", &refused("Failed to parse")) {
        Err(PreviewError::Invalid(m)) => assert!(!m.is_empty()),
        other => panic!("expected Invalid, got {other:?}"),
    }
}

fn at(local: &str) -> NextRun {
    NextRun { local: local.to_string(), utc: String::new(), from_now: String::new() }
}

fn mornings() -> Vec<NextRun> {
    vec![at("Mon 2026-08-17 03:00:00 UTC"), at("Tue 2026-08-18 03:00:00 UTC")]
}

#[test]
fn multiple_calendars_are_merged_and_resorted() {
    let afternoons = vec![at("Mon 2026-08-17 15:00:00 UTC"), at("Tue 2026-08-18 15:00:00 UTC")];
    let runs = next_runs_multi(&[Ok(afternoons), Ok(mornings())], 4).unwrap();
    assert_eq!(runs.len(), 4);
    for w in runs.windows(2) {
        assert!(w[0].sort_key() <= w[1].sort_key(), "{:?}", w);
    }
    // The union really is both specs, not just the first.
    assert!(runs.iter().any(|r| r.local.contains("03:00:00")));
    assert!(runs.iter().any(|r| r.local.contains("15:00:00")));
}

#[test]
fn identical_specs_are_deduplicated() {
    let mut third = mornings();
    third.push(at("Wed 2026-08-19 03:00:00 UTC"));
    let mut again = mornings();
    again.push(at("Wed 2026-08-19 03:00:00 UTC"));
    let runs = next_runs_multi(&[Ok(third), Ok(again)], 3).unwrap();
    assert_eq!(runs.len(), 3);
    for w in runs.windows(2) {
        assert_ne!(w[0].local, w[1].local);
    }
}

#[test]
fn empty_and_blank_specs_preview_as_nothing() {
    assert!(next_runs_multi(&[], 5).unwrap().is_empty());
    assert!(live_specs(&["  ".to_string()]).is_empty());
    assert_eq!(live_specs(&["".to_string(), "daily".to_string()]), vec!["daily".to_string()]);
}

#[test]
fn one_bad_spec_fails_the_whole_preview() {
    assert!(matches!(
        next_runs_multi(
            &[Ok(mornings()), Err(PreviewError::Invalid("nonsense!!".to_string()))],
            3
        ),
        Err(PreviewError::Invalid(_))
    ));
}

#[test]
fn commands_carry_the_scope_and_sudo_only_where_needed() {
    let args = vec!["start".to_string(), "a.timer".to_string()];
    assert_eq!(
        systemctl_command(Scope::User, false, &args),
        vec!["systemctl", "--user", "start", "a.timer"]
    );
    assert_eq!(
        systemctl_command(Scope::System, false, &args),
        vec!["sudo", "-n", "systemctl", "--system", "start", "a.timer"]
    );
    assert_eq!(
        systemctl_command(Scope::System, true, &args),
        vec!["systemctl", "--system", "start", "a.timer"]
    );
    assert_eq!(
        journal_command(Scope::User, false, "a.service", 20)[..2],
        ["journalctl".to_string(), "--user".to_string()]
    );
}

#[test]
fn command_output_becomes_a_result() {
    let args = vec!["start".to_string(), "x".to_string()];
    assert_eq!(systemctl(&args, &analysed("ok\n").unwrap()), Ok("ok\n".to_string()));
    assert_eq!(
        systemctl(&args, &refused("").unwrap()),
        Err("systemctl start x failed".to_string())
    );
    assert_eq!(systemctl(&args, &refused("boom").unwrap()), Err("boom".to_string()));
    assert!(is_enabled("enabled\n") && is_enabled("enabled-runtime") && !is_enabled("disabled"));
    assert!(is_active("active\n") && is_active("reloading") && !is_active("failed"));
    assert_eq!(journal(&Ok(analysed(" ").unwrap())), "(no journal entries)");
    assert_eq!(journal(&Err("no journalctl".to_string())), "no journalctl");
}

fn backup() -> Unit {
    let mut u = Unit::new_timer(Scope::User);
    u.name = "backup".into();
    u.description = "nightly".into();
    if let Body::Timer(t) = &mut u.body {
        t.service.exec_start = "/bin/true".into();
    }
    u
}

#[test]
fn installing_places_every_file_and_keeps_warnings() {
    let files = install_files(&backup(), "/units").unwrap();
    assert_eq!(files[0].name, "/units/notcron-backup.timer");
    assert_eq!(files[1].name, "/units/notcron-backup.service");
    assert_eq!(files[0].body, render(&backup())[0].body);
    assert!(install_files(&Unit::new_timer(Scope::User), "/units").is_err());
    let report = installed(
        vec!["/units/a".to_string()],
        "a.timer",
        &Some(" denied\n".to_string()),
        &None,
    );
    assert_eq!(report.warnings, vec!["enable a.timer: denied".to_string()]);
}

fn sources(u: &Unit) -> Vec<SourceFile> {
    render(u).into_iter().map(|f| SourceFile { name: f.name, body: f.body }).collect()
}

#[test]
fn a_timer_and_its_service_are_one_entry() {
    let mut files = sources(&backup());
    files.push(SourceFile {
        name: "sshd.service".into(),
        body: "[Unit]\nDescription=OpenSSH\n[Service]\nExecStart=/usr/sbin/sshd -D\n".into(),
    });
    let owned = list(Scope::User, &files, false);
    assert_eq!(owned.len(), 1);
    assert_eq!(owned[0].primary, "notcron-backup.timer");
    assert_eq!(owned[0].files, vec!["notcron-backup.timer", "notcron-backup.service"]);
    assert!(owned[0].owned);
    assert_eq!(owned[0].kind, "timer");
    assert_eq!(owned[0].unit.as_ref().unwrap(), &backup());
    let all = list(Scope::User, &files, true);
    assert_eq!(all.len(), 2);
    assert!(!all[1].owned);
    assert_eq!(all[1].description, "OpenSSH");
}

#[test]
fn states_are_filled_in_by_unit_id() {
    let entries = list(Scope::User, &sources(&backup()), false);
    assert_eq!(state_args(&entries)[2], "notcron-backup.timer");
    let printed = "Id=other.timer\nActiveState=failed\nUnitFileState=disabled\n\n\
                   Id=notcron-backup.timer\nActiveState=active\nUnitFileState=enabled\n";
    let filled = fill_states(&entries, printed);
    assert_eq!(filled[0].active, "active");
    assert_eq!(filled[0].enabled, "enabled");
}
