//! The verbs of the command line.

use notcron::cli::{
    add, age_token, build_exec, check_exportable, check_removable, find, list_header, list_row,
    matches_name, resolve_trash_id, revival, scope_suffix, specs_to_check, state_token,
    trash_header, trash_row, AddArgs, Revival, ScopeArgs,
};
use notcron::export::{export, ExportError};
use notcron::systemd::Entry;
use notcron::trash::{
    entry_name, listed, RestoreError, StashRequest, Trash, TrashEntry, TrashedFile,
};
use notcron::unit::model::{Body, Schedule, Scope, Unit};

#[test]
fn plain_commands_become_argv_exec_lines() {
    let cmd: Vec<String> = ["/usr/local/bin/backup.sh", "--full"]
        .iter()
        .map(|s| s.to_string())
        .collect();
    let (exec, hint) = build_exec(&cmd, false);
    assert_eq!(exec, "/usr/local/bin/backup.sh --full");
    assert_eq!(hint, "backup.sh");
}

#[test]
fn arguments_needing_quotes_get_them() {
    let cmd: Vec<String> = ["/bin/echo", "hello world"]
        .iter()
        .map(|s| s.to_string())
        .collect();
    let (exec, _) = build_exec(&cmd, false);
    assert_eq!(exec, "/bin/echo \"hello world\"");
}

#[test]
fn shell_syntax_is_wrapped() {
    let cmd = vec!["df -h | mail -s disk me@example.com".to_string()];
    let (exec, hint) = build_exec(&cmd, false);
    assert_eq!(exec, "/bin/sh -c \"df -h | mail -s disk me@example.com\"");
    assert_eq!(hint, "df");
    // --shell forces it even for an argv that would not need one.
    let cmd = vec!["/bin/true".to_string()];
    let (exec, _) = build_exec(&cmd, true);
    assert_eq!(exec, "/bin/sh -c /bin/true");
}

/// The lookup `export` and `remove` share: a user may type the bare stem,
/// the prefixed stem or the full unit name.
#[test]
fn a_unit_is_found_by_bare_prefixed_or_full_name() {
    let e = Entry {
        primary: "notcron-backup.timer".into(),
        files: vec!["notcron-backup.timer".into()],
        scope: Scope::User,
        owned: true,
        description: String::new(),
        kind: "timer",
        schedule: String::new(),
        unit: None,
        active: String::new(),
        enabled: String::new(),
    };
    for name in ["backup", "notcron-backup", "notcron-backup.timer"] {
        assert!(matches_name(&e, name), "{name} should match");
    }
    for name in ["backu", "backup.timer", "other"] {
        assert!(!matches_name(&e, name), "{name} should not match");
    }
}

fn entry(id: &str, unit: &str) -> TrashEntry {
    TrashEntry {
        id: id.into(),
        unit: unit.into(),
        scope: Scope::User,
        removed_at: 1_755_255_243,
        was_enabled: true,
        was_active: true,
        files: vec![TrashedFile {
            stored: unit.into(),
            original: format!("/tmp/{unit}"),
        }],
    }
}

#[test]
fn an_exact_id_resolves_to_itself() {
    let es = vec![
        entry("20260815T105403Z-notcron-foo.timer", "notcron-foo.timer"),
        entry("20260815T105501Z-notcron-bar.timer", "notcron-bar.timer"),
    ];
    assert_eq!(
        resolve_trash_id(&es, "20260815T105403Z-notcron-foo.timer").unwrap(),
        "20260815T105403Z-notcron-foo.timer"
    );
}

#[test]
fn an_unambiguous_prefix_is_enough() {
    let es = vec![
        entry("20260815T105403Z-notcron-foo.timer", "notcron-foo.timer"),
        entry("20260815T105501Z-notcron-bar.timer", "notcron-bar.timer"),
    ];
    assert_eq!(
        resolve_trash_id(&es, "20260815T1054").unwrap(),
        "20260815T105403Z-notcron-foo.timer"
    );
    // Down to the single character that still separates them.
    assert_eq!(
        resolve_trash_id(&es, "20260815T1055").unwrap(),
        "20260815T105501Z-notcron-bar.timer"
    );
}

/// Two removals in the same second differ only by a counter suffix, which
/// is exactly when a short prefix stops being safe. Guessing would undo
/// the wrong removal, so it is an error that names the candidates.
#[test]
fn an_ambiguous_prefix_is_refused_rather_than_guessed() {
    let es = vec![
        entry("20260815T105403Z-notcron-foo.timer", "notcron-foo.timer"),
        entry("20260815T105403Z-notcron-foo.timer-1", "notcron-foo.timer"),
    ];
    let err = resolve_trash_id(&es, "20260815T1054").unwrap_err();
    assert!(err.contains("matches 2 entries"), "{err}");
    assert!(
        err.contains("20260815T105403Z-notcron-foo.timer-1"),
        "{err}"
    );
    // The shorter id is still reachable exactly, even though it is a
    // prefix of the longer one.
    assert_eq!(
        resolve_trash_id(&es, "20260815T105403Z-notcron-foo.timer").unwrap(),
        "20260815T105403Z-notcron-foo.timer"
    );
}

#[test]
fn an_unknown_or_empty_id_says_where_to_look() {
    let es = vec![entry("20260815T105403Z-notcron-foo.timer", "x.timer")];
    for token in ["", "nope", "20260816"] {
        let err = resolve_trash_id(&es, token).unwrap_err();
        assert!(err.contains("notcron trash"), "{token}: {err}");
    }
    assert!(resolve_trash_id(&[], "anything").is_err());
}

#[test]
fn the_listing_puts_the_id_first_and_splits_on_whitespace() {
    let e = entry("20260815T105403Z-notcron-foo.timer", "notcron-foo.timer");
    let row = trash_row(&e, e.removed_at + 90);
    let cols: Vec<&str> = row.split_whitespace().collect();
    assert_eq!(cols[0], e.id, "the id must be the first column: {row}");
    assert_eq!(cols[1], "notcron-foo.timer");
    assert_eq!(cols[2], "user");
    assert_eq!(cols[3], "1m");
    assert_eq!(cols[4], "1");
    assert_eq!(cols[5], "enabled,active");
    assert_eq!(cols.len(), 6, "{row}");
    // Same column count in the header, so a script can trust the shape.
    assert_eq!(trash_header().split_whitespace().count(), 6);
}

#[test]
fn every_removed_state_prints_one_word() {
    assert_eq!(state_token(true, true), "enabled,active");
    assert_eq!(state_token(true, false), "enabled");
    assert_eq!(state_token(false, true), "active");
    assert_eq!(state_token(false, false), "-");
    for (e, a) in [(true, true), (true, false), (false, true), (false, false)] {
        assert!(!state_token(e, a).contains(' '));
    }
}

#[test]
fn ages_are_one_token_at_every_scale() {
    assert_eq!(age_token(0), "0s");
    assert_eq!(age_token(59), "59s");
    assert_eq!(age_token(60), "1m");
    assert_eq!(age_token(3599), "59m");
    assert_eq!(age_token(3600), "1h");
    assert_eq!(age_token(86_399), "23h");
    assert_eq!(age_token(86_400), "1d");
    assert_eq!(age_token(30 * 86_400), "30d");
}

#[test]
fn a_system_scope_hint_carries_the_flag_and_a_user_one_does_not() {
    assert_eq!(scope_suffix(Scope::System), " --system");
    assert_eq!(scope_suffix(Scope::User), "");
}

/// A refused overwrite names every offending file.
#[test]
fn exporting_over_existing_files_writes_nothing() {
    let dir = "/tmp/out";
    let mut u = Unit::new_timer(Scope::User);
    u.name = "backup".into();
    u.description = "backup".into();
    if let Body::Timer(t) = &mut u.body {
        t.schedule = Schedule::Calendar(vec!["*-*-* 03:00:00".into()]);
        t.service.exec_start = "/bin/true".into();
    }

    // A clean export first, so we know what the file names are.
    let first = export(&u, dir, false, &[]).unwrap();
    assert!(first.written.len() >= 2, "{:?}", first.written);

    match export(&u, dir, false, &first.written) {
        Err(ExportError::Exists(paths)) => {
            assert_eq!(paths.len(), first.written.len());
        }
        other => panic!("expected a refusal, got {other:?}"),
    }

    // --force is the documented way through.
    let forced = export(&u, dir, true, &first.written).unwrap();
    assert_eq!(forced.replaced.len(), first.written.len());
}

/// Stashes the files of a unit as a removal does.
fn stash(files: &[&str], was_enabled: bool, was_active: bool) -> TrashEntry {
    let req = StashRequest {
        scope: Scope::User,
        unit: "notcron-foo.timer".into(),
        files: files.iter().map(|f| format!("/units/{f}")).collect(),
        was_enabled,
        was_active,
    };
    let here = vec![true; files.len()];
    let id = entry_name(&req.unit, 1_755_257_400, 0);
    Trash::at("/trash").stash_at(&req, &here, &id, 1_755_257_400).unwrap().0
}

/// The id `remove` prints is the token `restore` takes.
#[test]
fn the_id_a_removal_prints_is_the_id_a_restore_accepts() {
    let entry = stash(&["notcron-foo.timer", "notcron-foo.service"], true, true);

    // What `remove` prints.
    let printed = entry.id.clone();
    let entries = listed(&[entry]);
    assert_eq!(entries.len(), 1);
    assert_eq!(entries[0].id, printed);
    assert!(trash_row(&entries[0], 1_755_257_490).starts_with(&printed));

    // What `restore` does with it, in full and by prefix.
    assert_eq!(resolve_trash_id(&entries, &printed).unwrap(), printed);
    assert_eq!(resolve_trash_id(&entries, &printed[..16]).unwrap(), printed);

    let (report, _) = Trash::at("/trash").restore(&entries[0], &[false, false], false).unwrap();
    assert_eq!(
        report.restored,
        vec!["/units/notcron-foo.timer", "/units/notcron-foo.service"]
    );
    assert!(report.was_enabled && report.was_active);
}

/// The refusal names every offending path, and only `--force` goes through.
#[test]
fn restoring_over_a_unit_that_exists_again_moves_nothing() {
    let entry = stash(&["notcron-foo.timer"], false, true);
    let timer = "/units/notcron-foo.timer".to_string();
    let trash = Trash::at("/trash");
    match trash.restore(&entry, &[true], false) {
        Err(RestoreError::Conflict(paths)) => assert_eq!(paths, vec![timer.clone()]),
        other => panic!("expected a conflict, got {other:?}"),
    }
    let (report, _) = trash.restore(&entry, &[true], true).unwrap();
    assert_eq!(report.overwritten, vec![timer]);
}

#[test]
fn both_scope_flags_together_are_refused() {
    assert_eq!(ScopeArgs { user: false, system: false }.scope(), Ok(Scope::User));
    assert_eq!(ScopeArgs { user: true, system: false }.scope(), Ok(Scope::User));
    assert_eq!(ScopeArgs { user: false, system: true }.scope(), Ok(Scope::System));
    assert_eq!(
        ScopeArgs { user: true, system: true }.scope(),
        Err("--user and --system are mutually exclusive".to_string())
    );
}

fn unit_entry(primary: &str, owned: bool) -> Entry {
    Entry {
        primary: primary.into(),
        files: vec![primary.into()],
        scope: Scope::User,
        owned,
        description: String::new(),
        kind: "timer",
        schedule: "*-*-* 03:00:00".into(),
        unit: None,
        active: String::new(),
        enabled: String::new(),
    }
}

#[test]
fn lookups_find_the_first_match_or_say_where_to_look() {
    let es = [unit_entry("notcron-a.timer", true), unit_entry("notcron-b.timer", true)];
    assert_eq!(find(&es, Scope::User, "b"), Ok(1));
    assert_eq!(
        find(&es, Scope::User, "c"),
        Err("no unit named 'c' in user scope (try: notcron list)".to_string())
    );
}

#[test]
fn foreign_units_are_neither_removed_nor_exported() {
    let foreign = unit_entry("sshd.service", false);
    assert_eq!(
        check_removable(&foreign),
        Err("'sshd.service' was not created by notcron and will not be removed".to_string())
    );
    assert!(check_exportable(&foreign).unwrap_err().starts_with("'sshd.service' was not created"));
    let unreadable = unit_entry("notcron-x.timer", true);
    assert!(check_removable(&unreadable).is_ok());
    assert!(check_exportable(&unreadable).unwrap_err().contains("could not be modelled"));
}

#[test]
fn the_unit_listing_lines_up_with_its_header() {
    let row = list_row(&unit_entry("notcron-a.timer", true));
    let cols: Vec<&str> = row.split_whitespace().collect();
    assert_eq!(cols[..4], ["notcron-a.timer", "timer", "unknown", "notcron"]);
    assert_eq!(list_header().find("SCHEDULE"), row.find("*-*-*"));
}

#[test]
fn a_restored_unit_gets_its_state_back_unless_told_not_to() {
    assert_eq!(revival("a.timer", false, false, false), Revival::Nothing);
    assert_eq!(
        revival("a.timer", true, true, false),
        Revival::Call(vec!["enable".into(), "--now".into(), "a.timer".into()])
    );
    match revival("a.timer", true, false, true) {
        Revival::LeftAlone(m) => assert!(m.ends_with("--no-enable left it alone"), "{m}"),
        other => panic!("{other:?}"),
    }
}

fn add_args(schedule: &str, command: &[&str]) -> AddArgs {
    AddArgs {
        name: None,
        description: None,
        shell: false,
        persistent: true,
        no_persistent: false,
        random_delay: None,
        workdir: None,
        env: Vec::new(),
        run_as: None,
        dry_run: false,
        schedule: schedule.into(),
        command: command.iter().map(|s| s.to_string()).collect(),
    }
}

#[test]
fn adding_makes_a_timer_from_a_cron_expression() {
    let a = add_args("0 3 * * *", &["/usr/local/bin/backup.sh", "--full"]);
    assert_eq!(specs_to_check("0 3 * * *").unwrap(), vec!["*-*-* 03:00:00"]);
    let u = add(&a, Scope::User, &[None], &None).unwrap();
    assert_eq!(u.name, "backup-sh");
    let Body::Timer(t) = &u.body else { panic!("timer") };
    assert_eq!(t.schedule, Schedule::Calendar(vec!["*-*-* 03:00:00".into()]));
    assert_eq!(t.service.exec_start, "/usr/local/bin/backup.sh --full");
    assert!(t.persistent);
    assert!(u.validate().is_ok());
    assert!(add(&add_args("nonsense", &["/bin/true"]), Scope::User, &[], &None).is_err());
    assert!(add(&a, Scope::User, &[Some("refused".into())], &None).is_err());
    let boot = add(&add_args("@reboot", &["/bin/true"]), Scope::User, &[], &None).unwrap();
    let Body::Timer(t) = &boot.body else { panic!("timer") };
    assert!(matches!(&t.schedule, Schedule::Boot { boot } if boot == "1min"));
}
