//! The unit builder.

use notcron::cli::build_exec;
use notcron::complete::Listed;
use notcron::fieldhelp;
use notcron::strmap::StrMap;
use notcron::systemd::{NextRun, Outcome, PreviewError};
use notcron::ui::builder::asks::{apply, ask, check, check_span, Ask, Reply};
use notcron::ui::builder::checks::{fix_for_row, label, quick_fix, review, status_line, Reviewed};
use notcron::ui::builder::fields::{
    browsable, browse_seed, complete_exec, current_wanted_by, fill_value, path_field,
    set_path_field, suggested_name, suggested_where, unwrap_shell, wanted_by_choices, Fill,
};
use notcron::ui::builder::pane::{
    analysed, default_pane, help_lines, pane_body, runs_lines, split_panes, Derived, Pane, Runs,
    FORM_MIN, PANE_MIN,
};
use notcron::ui::builder::rows::{
    directive, first_selectable, help_key, key_hints, rows_for, step, summarize, truncate, Id,
};
use notcron::ui::builder::schedule::{
    asked, built, built_specs, check_specs, cron_note, cron_specs, edit, next_question, note_runs,
    parse_hhmm, questions, schedule_item, schedule_keys, set_schedule, Answer, Edit, Question,
};
use notcron::ui::builder::schedule;
use notcron::ui::builder::screen;
use notcron::ui::builder::screen::{Action, Screen};
use notcron::ui::optmenu;
use notcron::ui::picker::Mode;
use notcron::ui::term::{Key, KeyCode, Rect};
use notcron::ui::wrap::wrap_lines;
use notcron::unit::escape;
use notcron::unit::generate;
use notcron::unit::model::{Body, MountPreset, RestartPolicy, Schedule, Scope, ServiceType, Unit};
use notcron::unit::mountopts;
use notcron::unit::mountopts::Family;

const DIR: &str = "/home/x/.config/systemd/user";

/// Where programs were found.
fn found() -> StrMap<String> {
    let mut m: StrMap<String> = StrMap::new();
    m.insert("true".to_string(), "/usr/bin/true".to_string());
    m
}

/// The derived state of a unit whose schedule never fires again.
fn derived(u: &Unit) -> Derived {
    Derived::new(u, DIR, &found(), Ok(Vec::new()))
}

/// Every key of the help document that a row can have.
const ROW_KEYS: [&str; 29] = [
    "unit.name",
    "unit.description",
    "unit.scope",
    "timer.schedule",
    "timer.persistent",
    "timer.randomized_delay",
    "service.type",
    "service.exec_start",
    "service.shell_wrap",
    "service.exec_start_pre",
    "service.exec_stop_post",
    "service.restart",
    "service.restart_sec",
    "service.working_directory",
    "service.user",
    "service.group",
    "service.environment",
    "service.wanted_by",
    "mount.preset",
    "mount.what",
    "mount.where",
    "mount.fstype",
    "mount.options",
    "mount.automount",
    "mount.timeout_idle",
    "unit.manual_primary",
    "unit.manual_secondary",
    "builder.preview",
    "builder.save",
];

fn help(key: &str, label: &str) -> fieldhelp::Entry {
    fieldhelp::Entry {
        key: key.to_string(),
        label: label.to_string(),
        summary: format!("What {label} is for."),
        detail: format!("More about {label}, at some length so that it wraps."),
        examples: "one, two".to_string(),
    }
}

/// A help document for every row and every schedule preset.
fn doc() -> Vec<fieldhelp::Entry> {
    let mut out: Vec<fieldhelp::Entry> = ROW_KEYS.iter().map(|k| help(k, k)).collect();
    out.push(help("service.exec_start", "ExecStart"));
    for k in schedule_keys() {
        out.push(help(k, &format!("Preset {k}")));
    }
    out
}

#[test]
fn headings_are_skipped_when_moving() {
    let mut u = Unit::new_timer(Scope::User);
    u.name = "x".into();
    let rows = rows_for(&u);
    assert_eq!(rows[0].id, Id::Heading);
    let first = first_selectable(&rows);
    assert_eq!(rows[first].id, Id::Name);
    // Stepping never lands on a heading, in either direction.
    let mut i = first;
    for _ in 0..(rows.len() * 2) {
        i = step(&rows, i, 1);
        assert_ne!(rows[i].id, Id::Heading);
    }
    for _ in 0..(rows.len() * 2) {
        i = step(&rows, i, -1);
        assert_ne!(rows[i].id, Id::Heading);
    }
}

#[test]
fn every_body_offers_preview_and_save() {
    for u in [
        Unit::new_timer(Scope::User),
        Unit::new_service(Scope::User),
        Unit::new_mount(),
    ] {
        let rows = rows_for(&u);
        assert!(rows.iter().any(|r| r.id == Id::Preview));
        assert!(rows.iter().any(|r| r.id == Id::Save));
        assert!(rows.iter().any(|r| r.id == Id::ManualPrimary));
    }
}

#[test]
fn only_the_relevant_rows_appear_per_body() {
    let ids = |u: &Unit| rows_for(u).into_iter().map(|r| r.id).collect::<Vec<_>>();
    let timer = ids(&Unit::new_timer(Scope::User));
    assert!(timer.contains(&Id::Schedule) && timer.contains(&Id::Persistent));
    assert!(!timer.contains(&Id::Restart) && !timer.contains(&Id::What));

    let svc = ids(&Unit::new_service(Scope::User));
    assert!(svc.contains(&Id::Restart) && svc.contains(&Id::WantedBy));
    assert!(!svc.contains(&Id::Schedule));

    let mount = ids(&Unit::new_mount());
    assert!(mount.contains(&Id::What) && mount.contains(&Id::Automount));
    assert!(!mount.contains(&Id::ExecStart));
}

#[test]
fn shell_wrapping_round_trips() {
    let cmd = "df -h | mail -s \"disk\" me@example.com";
    let wrapped = format!("/bin/sh -c {}", escape::exec_quote(cmd));
    assert_eq!(unwrap_shell(&wrapped), cmd);
    // An unquoted wrapper argument is handled too.
    assert_eq!(unwrap_shell("/bin/sh -c /bin/true"), "/bin/true");
}

#[test]
fn hhmm_parsing_rejects_nonsense() {
    assert_eq!(parse_hhmm("03:30"), Ok((3, 30)));
    assert_eq!(parse_hhmm(" 3:5 "), Ok((3, 5)));
    assert!(parse_hhmm("24:00").is_err());
    assert!(parse_hhmm("12:60").is_err());
    assert!(parse_hhmm("1230").is_err());
    assert!(parse_hhmm("ab:cd").is_err());
}

#[test]
fn truncation_fits_the_column() {
    assert_eq!(truncate("short", 10), "short");
    assert_eq!(truncate("abcdefghij", 5), "abcd\u{2026}");
    assert_eq!(truncate("abc", 0), "");
}

#[test]
fn manual_summaries_are_compact() {
    assert_eq!(summarize(""), "(none)");
    assert_eq!(summarize("Nice=19"), "Nice=19");
    assert_eq!(summarize("[Service]\nNice=19"), "(2 lines)");
}

#[test]
fn every_path_field_is_browsable_with_the_right_mode() {
    let timer = Unit::new_timer(Scope::User);
    for (id, mode, fill) in [
        (Id::ExecStart, Mode::File, Fill::Program),
        (Id::ExecStartPre, Mode::File, Fill::Program),
        (Id::ExecStopPost, Mode::File, Fill::Program),
        (Id::WorkDir, Mode::Directory, Fill::Whole),
    ] {
        let got = browsable(&timer, id).unwrap_or_else(|| panic!("{id:?} must browse"));
        assert_eq!((got.1, got.2), (mode, fill), "{id:?}");
    }
    // The same service fields on a standalone service, not just a timer.
    let svc = Unit::new_service(Scope::User);
    assert!(browsable(&svc, Id::ExecStart).is_some());
    assert!(browsable(&svc, Id::WorkDir).is_some());

    // A mount's Where is always a directory.
    let mount = Unit::new_mount();
    assert_eq!(
        browsable(&mount, Id::Where).map(|b| b.1),
        Some(Mode::Directory)
    );
}

/// Every row the builder can show is either browsable or explicitly not;
/// nothing holding a path may be missed.
#[test]
fn no_path_row_is_left_without_a_picker() {
    let path_rows = [
        Id::ExecStart,
        Id::ExecStartPre,
        Id::ExecStopPost,
        Id::WorkDir,
        Id::What,
        Id::Where,
    ];
    for u in [
        Unit::new_timer(Scope::User),
        Unit::new_service(Scope::User),
        Unit::new_mount(),
    ] {
        for r in rows_for(&u) {
            if path_rows.contains(&r.id) {
                continue;
            }
            assert!(
                browsable(&u, r.id).is_none(),
                "{:?} browses unexpectedly",
                r.id
            );
        }
    }
}

#[test]
fn mount_what_browses_only_when_it_is_a_local_path() {
    let mut u = Unit::new_mount();
    for (preset, browses) in [
        (MountPreset::Block, true),
        (MountPreset::Bind, true),
        (MountPreset::Nfs, false),
        (MountPreset::Cifs, false),
    ] {
        if let Body::Mount(m) = &mut u.body {
            m.preset = preset;
        }
        assert_eq!(
            browsable(&u, Id::What).is_some(),
            browses,
            "{}",
            preset.label()
        );
    }
}

#[test]
fn picking_a_binary_keeps_the_arguments() {
    assert_eq!(
        fill_value(Fill::Program, "/bin/old -a --b c", "/usr/bin/new"),
        "/usr/bin/new -a --b c"
    );
    assert_eq!(
        fill_value(Fill::Program, "/bin/old", "/bin/new"),
        "/bin/new"
    );
    assert_eq!(fill_value(Fill::Program, "", "/bin/new"), "/bin/new");
    // A whole-value field ignores whatever was there.
    assert_eq!(fill_value(Fill::Whole, "/old/dir", "/new/dir"), "/new/dir");
}

#[test]
fn path_fields_round_trip_through_the_accessors() {
    let mut u = Unit::new_timer(Scope::User);
    for id in [
        Id::ExecStart,
        Id::ExecStartPre,
        Id::ExecStopPost,
        Id::WorkDir,
    ] {
        set_path_field(&mut u, id, "/opt/thing".into());
        assert_eq!(path_field(&u, id), "/opt/thing", "{id:?}");
    }
    let mut m = Unit::new_mount();
    set_path_field(&mut m, Id::What, "/dev/sdb1".into());
    assert_eq!(path_field(&m, Id::What), "/dev/sdb1");
    // Where re-derives the unit name, exactly as typing it does.
    set_path_field(&mut m, Id::Where, "/mnt/backup".into());
    assert_eq!(path_field(&m, Id::Where), "/mnt/backup");
    assert_eq!(m.name, m.stem().expect("stem"));
    assert!(
        m.name.contains("mnt"),
        "name follows the mount point: {}",
        m.name
    );
}

/// The bug this guards: the builder used to offer the system manager's
/// target list whatever the scope was, so a user-scope service could be
/// enabled into `multi-user.target` -- accepted by systemctl, and then
/// never started, because the user manager has no such target.
#[test]
fn wanted_by_offers_only_targets_the_scope_actually_has() {
    let user: Vec<String> = wanted_by_choices(Scope::User, "")
        .into_iter()
        .map(|(v, _)| v)
        .collect();
    for absent in [
        "multi-user.target",
        "graphical.target",
        "network-online.target",
    ] {
        assert!(
            !user.contains(&absent.to_string()),
            "{absent} offered to a user unit"
        );
    }
    assert!(user.contains(&"default.target".to_string()));
    assert!(user.contains(&"basic.target".to_string()));

    let system: Vec<String> = wanted_by_choices(Scope::System, "")
        .into_iter()
        .map(|(v, _)| v)
        .collect();
    assert!(system.contains(&"multi-user.target".to_string()));
    for absent in ["default.target", "basic.target", "graphical-session.target"] {
        assert!(
            !system.contains(&absent.to_string()),
            "{absent} offered to a system unit"
        );
    }

    // timers.target is the one both managers provide.
    assert!(user.contains(&"timers.target".to_string()));
    assert!(system.contains(&"timers.target".to_string()));
}

#[test]
fn a_new_service_defaults_to_a_target_its_scope_can_reach() {
    for scope in [Scope::User, Scope::System] {
        let u = Unit::new_service(scope);
        let target = current_wanted_by(&u);
        assert!(
            scope.has_install_target(&target),
            "{scope:?} defaults to {target}, which it does not have"
        );
    }
    assert_eq!(
        current_wanted_by(&Unit::new_service(Scope::User)),
        "default.target"
    );
    assert_eq!(
        current_wanted_by(&Unit::new_service(Scope::System)),
        "multi-user.target"
    );
}

/// A target read off disk that this scope cannot reach is still shown --
/// it is what the file says -- but flagged, and it never displaces a real
/// choice at the top of the list.
#[test]
fn a_foreign_target_is_kept_and_flagged_rather_than_hidden() {
    let choices = wanted_by_choices(Scope::User, "multi-user.target");
    assert_eq!(choices.len(), Scope::User.install_targets().len() + 1);
    let (value, label) = choices.last().expect("the foreign target");
    assert_eq!(value, "multi-user.target");
    assert!(label.contains("no such target"), "{label}");
    // A target the scope does have is not duplicated.
    assert_eq!(
        wanted_by_choices(Scope::User, "default.target").len(),
        Scope::User.install_targets().len()
    );
}

#[test]
fn only_service_bodies_report_a_wanted_by() {
    assert_eq!(current_wanted_by(&Unit::new_timer(Scope::User)), "");
    assert_eq!(current_wanted_by(&Unit::new_mount()), "");
}

#[test]
fn the_mount_options_row_opens_the_menu_for_the_current_fstype() {
    // The row the menu hangs off exists on every mount, and the fstype
    // it is opened with is the one that decides the offered set.
    for preset in MountPreset::all() {
        let mut u = Unit::new_mount();
        if let Body::Mount(m) = &mut u.body {
            m.preset = preset;
            m.fstype = preset.fstype().into();
            m.options = preset.options().into();
        }
        assert!(rows_for(&u).iter().any(|r| r.id == Id::Options));
        let Body::Mount(m) = &u.body else {
            unreachable!()
        };
        let st = optmenu::State::new(&m.options, &m.fstype);
        assert_eq!(st.set.text(), m.options, "{}", preset.label());
        let expected = match preset {
            MountPreset::Nfs => Family::Nfs,
            MountPreset::Cifs => Family::Cifs,
            MountPreset::Bind => Family::Bind,
            MountPreset::Block => Family::Generic,
        };
        assert_eq!(st.set.family(), expected, "{}", preset.label());
        assert_eq!(
            mountopts::family_for(&m.fstype),
            expected,
            "{}",
            preset.label()
        );
    }
}

#[test]
fn status_line_reports_validation_failures_first() {
    let u = Unit::new_timer(Scope::User);
    let d = derived(&u);
    assert!(status_line(&u, &d, Id::Name).starts_with('!'));
}

// -----------------------------------------------------------------
// Field help
// -----------------------------------------------------------------

fn all_bodies() -> [Unit; 3] {
    [
        Unit::new_timer(Scope::User),
        Unit::new_service(Scope::User),
        Unit::new_mount(),
    ]
}

#[test]
fn help_lines_fall_back_rather_than_panicking() {
    assert_eq!(help_key(Id::Heading), None);
    assert_eq!(help_lines(Id::Heading, &doc(), 40), vec!["(no help for this row)"]);
    let lines = help_lines(Id::ExecStart, &doc(), 40);
    assert!(lines.iter().any(|l| l.contains("exec_start")));
    assert!(lines.iter().all(|l| l.chars().count() <= 40));
}

// -----------------------------------------------------------------
// Layout
// -----------------------------------------------------------------

fn rect(w: u16, h: u16) -> Rect {
    Rect {
        x: 3,
        y: 2,
        width: w,
        height: h,
    }
}

#[test]
fn the_pane_never_escapes_the_area_or_starves_the_form() {
    for w in 0..=140u16 {
        for h in [0u16, 1, 2, 3, 5, 24, 40] {
            let a = rect(w, h);
            for on in [false, true] {
                let (form, pane) = split_panes(a, on);
                assert!(form.x >= a.x && form.y == a.y, "{w}x{h}");
                assert!(form.x + form.width <= a.x + a.width, "{w}x{h}");
                assert!(form.height == a.height, "{w}x{h}");
                match pane {
                    None => assert_eq!(form.width, a.width, "{w}x{h} on={on}"),
                    Some(p) => {
                        assert!(on, "a pane appeared while off");
                        assert_eq!(form.x + form.width, p.x, "{w}x{h}: a gap or an overlap");
                        assert_eq!(p.x + p.width, a.x + a.width, "{w}x{h}");
                        assert!(p.width >= PANE_MIN, "{w}x{h}: {} wide", p.width);
                        assert!(form.width >= FORM_MIN, "{w}x{h}: form starved");
                    }
                }
            }
        }
    }
}

/// A permanent split does not fit an 80-column terminal, so it is off
/// there and one keypress away. Anything roomier opens with it on.
#[test]
fn the_pane_is_off_by_default_on_a_narrow_terminal() {
    assert_eq!(default_pane(80), Pane::Off);
    assert_eq!(default_pane(99), Pane::Off);
    assert_eq!(default_pane(100), Pane::Help);
    assert_eq!(default_pane(200), Pane::Help);
    // ...but it still fits when asked for at 80 columns.
    let (form, pane) = split_panes(rect(78, 20), true);
    assert!(pane.is_some(), "v must work at 80 columns");
    assert!(form.width >= FORM_MIN);
}

/// The way out has to stay visible. At 80 columns the full hint line is
/// exactly as wide as the footer; anything narrower drops whole hints
/// from the least important end rather than clipping the last one.
#[test]
fn the_keybinding_line_never_clips_the_way_out() {
    for browse in ["b browses this path", "b browses paths"] {
        for width in 0..=120usize {
            let hints = key_hints(browse, width);
            assert!(hints.contains(&"Esc cancel".to_string()), "{width}");
            assert!(hints.contains(&"^S save".to_string()), "{width}");
            assert!(hints.contains(&"Enter edit".to_string()), "{width}");
            let used = hints.iter().map(|h| h.chars().count()).sum::<usize>()
                + 2 * hints.len().saturating_sub(1);
            // Either it fits, or nothing droppable is left.
            assert!(
                used <= width || hints.len() == 3,
                "{width}: {used} wide, {hints:?}"
            );
        }
    }
    // A standard 80-column terminal keeps every hint.
    assert_eq!(key_hints("b browses this path", 78).len(), 7);
}

#[test]
fn cycling_the_pane_visits_every_mode_and_returns() {
    let mut p = Pane::Help;
    let mut seen = vec![p];
    for _ in 0..Pane::cycle().len() {
        p = p.next();
        seen.push(p);
    }
    assert_eq!(seen.last(), Some(&Pane::Help), "the cycle must close");
    for mode in Pane::cycle() {
        assert!(seen.contains(&mode), "{mode:?} unreachable");
    }
    assert!(Pane::Off.title().is_empty());
}

/// Everything the pane paints fits inside it, at any width.
#[test]
fn pane_bodies_are_clipped_to_the_pane() {
    let mut u = Unit::new_timer(Scope::User);
    u.name = "backup".into();
    if let Body::Timer(t) = &mut u.body {
        t.service.exec_start = "/usr/bin/rsync -aHAX --delete /home/ /srv/backup/home/".into();
    }
    let d = derived(&u);
    for width in [8usize, 12, 26, 40, 80] {
        for pane in Pane::cycle() {
            for id in [Id::Name, Id::ExecStart, Id::Schedule, Id::Save] {
                for line in pane_body(pane, id, &doc(), &d, width) {
                    assert!(
                        line.chars().count() <= width.max(8),
                        "{pane:?} {id:?} at {width}: {line:?}"
                    );
                }
            }
        }
    }
}

#[test]
fn wrapping_breaks_paragraphs_and_never_overflows() {
    let out = wrap_lines("one two three four five", 10);
    assert!(out.iter().all(|l| l.chars().count() <= 10), "{out:?}");
    assert_eq!(out.join(" ").split_whitespace().count(), 5);
    // Blank lines survive as paragraph breaks.
    assert_eq!(wrap_lines("a\n\nb", 20), vec!["a", "", "b"]);
    // An unbreakable word is cut rather than allowed to overflow.
    let long = wrap_lines(&"x".repeat(40), 10);
    assert!(long.iter().all(|l| l.chars().count() <= 10), "{long:?}");
    assert!(wrap_lines("", 10).len() <= 1);
}

// -----------------------------------------------------------------
// Derived state
// -----------------------------------------------------------------

#[test]
fn derived_preview_is_the_generated_files() {
    let mut u = Unit::new_timer(Scope::User);
    u.name = "backup".into();
    if let Body::Timer(t) = &mut u.body {
        t.service.exec_start = "/bin/true".into();
    }
    let d = derived(&u);
    assert_eq!(
        d.preview,
        generate::preview(&u, DIR)
    );
    assert!(d.preview.contains("[Timer]") && d.preview.contains("[Service]"));
}

/// The live preview follows the form, manual block included.
#[test]
fn the_preview_follows_every_edit_including_the_manual_block() {
    let mut u = Unit::new_timer(Scope::User);
    u.name = "backup".into();
    let mut d = derived(&u);
    let before = d.preview.clone();
    if let Body::Timer(t) = &mut u.body {
        t.service_manual = "Nice=19\n".into();
    }
    d.refresh(&u, DIR, &found(), Ok(Vec::new()));
    assert_ne!(d.preview, before);
    assert!(d.preview.contains("Nice=19"), "{}", d.preview);
    assert!(d.preview.contains("notcron:manual"));
}

/// An interval or boot timer has no calendar, and must not be shown an
/// empty run list as though something had gone wrong.
#[test]
fn schedules_without_a_calendar_explain_themselves() {
    for (schedule, needle) in [
        (
            Schedule::Every {
                every: "15min".into(),
                boot: "5min".into(),
            },
            "interval timer",
        ),
        (
            Schedule::Boot {
                boot: "1min".into(),
            },
            "boot timer",
        ),
    ] {
        let mut u = Unit::new_timer(Scope::User);
        u.name = "x".into();
        if let Body::Timer(t) = &mut u.body {
            t.schedule = schedule;
        }
        let d = derived(&u);
        let Runs::NotCalendar(why) = &d.runs else {
            panic!("expected no calendar, got {:?}", d.runs);
        };
        assert!(why.contains(needle), "{why}");
        let lines = runs_lines(&d.runs, 40);
        assert!(!lines.is_empty() && lines.iter().all(|l| l.chars().count() <= 40));
    }
    // Neither does a mount or a standalone service.
    for u in [Unit::new_service(Scope::User), Unit::new_mount()] {
        assert!(matches!(derived(&u).runs, Runs::NotCalendar(_)));
    }
}

/// A missing systemd-analyze is a fact about the host, not a mistake by
/// the user, and must never read as one.
#[test]
fn an_unavailable_analyzer_is_not_reported_as_a_user_error() {
    let lines = runs_lines(&Runs::Unavailable, 60).join(" ");
    assert!(lines.contains("unavailable"), "{lines}");
    assert!(!lines.contains('!'), "{lines}");
    // An invalid spec, by contrast, is flagged.
    let bad = runs_lines(&Runs::Invalid("no such day".into()), 60).join(" ");
    assert!(bad.contains('!') && bad.contains("no such day"));
}

#[test]
fn a_calendar_that_never_fires_again_says_so() {
    let lines = runs_lines(&Runs::Times(Vec::new()), 60).join(" ");
    assert!(lines.contains("never"), "{lines}");
}

#[test]
fn run_times_are_numbered_and_carry_the_relative_form() {
    let runs = Runs::Times(vec![NextRun {
        local: "Mon 2026-08-17 03:00:00 CEST".into(),
        utc: String::new(),
        from_now: "1 day 23h left".into(),
    }]);
    let lines = runs_lines(&runs, 60);
    assert!(lines[0].starts_with("1. Mon 2026-08-17"), "{lines:?}");
    assert!(lines[1].contains("1 day 23h left"), "{lines:?}");
}

// -----------------------------------------------------------------
// Advisory checks
// -----------------------------------------------------------------

/// The advisory checks never gate a save: a unit that trips every one of
/// them still passes the structural validation that does.
#[test]
fn advisories_do_not_block_saving() {
    let mut u = Unit::new_timer(Scope::User);
    u.name = "x".into();
    if let Body::Timer(t) = &mut u.body {
        t.schedule = Schedule::Calendar(vec!["*-*-* 03:00:00".into()]);
        t.service.exec_start = "definitely-not-a-real-binary".into();
    }
    let d = derived(&u);
    assert!(!d.diags.is_empty(), "expected an advisory");
    assert!(u.validate().is_ok(), "the hard gate must still pass");
}

#[test]
fn a_row_with_no_fix_says_so_instead_of_doing_nothing() {
    let mut u = Unit::new_timer(Scope::User);
    u.name = "x".into();
    if let Body::Timer(t) = &mut u.body {
        t.service.exec_start = "/bin/sh".into();
    }
    let d = derived(&u);
    let msg = quick_fix(&mut u, &d, Id::Description);
    assert!(msg.contains("no suggested fix"), "{msg}");
}

#[test]
fn only_rows_that_write_a_directive_can_match_a_diagnostic() {
    assert_eq!(directive(Id::ExecStart), Some("ExecStart"));
    assert_eq!(directive(Id::RunAs), Some("User"));
    assert_eq!(directive(Id::Group), Some("Group"));
    assert_eq!(directive(Id::Heading), None);
    assert_eq!(directive(Id::Save), None);
}

#[test]
fn a_clean_unit_reports_readiness_rather_than_advice() {
    let mut u = Unit::new_timer(Scope::User);
    u.name = "x".into();
    if let Body::Timer(t) = &mut u.body {
        t.schedule = Schedule::Calendar(vec!["*-*-* 03:00:00".into()]);
        t.service.exec_start = "/bin/true".into();
    }
    let d = derived(&u);
    let line = status_line(&u, &d, Id::ExecStart);
    assert!(line.starts_with("ready to install"), "{line}");
}

#[test]
fn the_checks_pane_says_it_is_advice_either_way() {
    let mut u = Unit::new_timer(Scope::User);
    u.name = "x".into();
    if let Body::Timer(t) = &mut u.body {
        t.service.exec_start = "/bin/true".into();
    }
    let clean = pane_body(Pane::Checks, Id::ExecStart, &doc(), &derived(&u), 60).join(" ");
    assert!(clean.contains("No advisories"), "{clean}");
    assert!(
        clean.contains("never a gate") || clean.contains("advice"),
        "{clean}"
    );
}

/// Candidates are full replacements for the *field*, not for the token --
/// so the untouched head of the line has to come back with them.
#[test]
fn completing_an_argument_keeps_the_rest_of_the_command_line() {
    let t = Tree::new();
    let line = format!("/bin/echo {}", t.at("bin/pl"));
    let c = complete_exec(&line, &t.listing(&line));
    assert_eq!(c.common, format!("/bin/echo {}", t.at("bin/plain")));
    assert!(
        c.candidates.iter().all(|x| x.starts_with("/bin/echo ")),
        "{c:?}"
    );
}

/// The program is filtered by the executable bit; an argument is not.
#[test]
fn only_the_program_is_filtered_by_the_executable_bit() {
    let t = Tree::new();
    let prog = complete_exec(&t.at("bin/"), &t.listing(&t.at("bin/")));
    assert_eq!(prog.candidates, vec![t.at("bin/runner")]);
    let arg = complete_exec(&format!("/bin/echo {}", t.at("bin/")), &t.listing(&t.at("bin/")));
    assert_eq!(arg.candidates.len(), 2, "{arg:?}");
}

#[test]
fn no_match_leaves_the_field_exactly_as_typed() {
    let t = Tree::new();
    let line = format!("/bin/echo {}", t.at("zzz"));
    let c = complete_exec(&line, &t.listing(&line));
    assert!(c.is_empty());
    // Blind assignment of `common` is safe: it is the input again.
    assert_eq!(c.common, line);
}

#[test]
fn completing_a_bare_program_replaces_the_whole_field() {
    let t = Tree::new();
    let c = complete_exec(&t.at("bin/run"), &t.listing(&t.at("bin/run")));
    assert!(c.is_unique());
    assert_eq!(c.common, t.at("bin/runner"));
}

// -----------------------------------------------------------------
// Smart defaults
// -----------------------------------------------------------------

#[test]
fn a_name_is_suggested_only_for_an_unnamed_unit() {
    assert_eq!(
        suggested_name("", "/usr/local/bin/backup.sh --full"),
        Some("backup-sh".to_string())
    );
    // Anything the user typed is left alone.
    assert_eq!(suggested_name("mine", "/usr/local/bin/backup.sh"), None);
    assert_eq!(suggested_name("  ", "  "), None);
}

/// The TUI and `notcron add` must derive the same name from the same
/// command, because both go through `cli::build_exec`.
#[test]
fn the_suggested_name_matches_what_the_cli_would_pick() {
    for cmd in [
        "/usr/local/bin/backup.sh --full",
        "/usr/bin/rsync -a /a /b",
        "/usr/bin/env python3 /opt/job.py",
    ] {
        let args: Vec<String> = cmd.split_whitespace().map(str::to_string).collect();
        let (_, hint) = build_exec(&args, false);
        assert_eq!(
            suggested_name("", cmd),
            Some(escape::slugify(&hint)),
            "{cmd}"
        );
    }
}

#[test]
fn a_mount_point_is_suggested_only_for_a_mount_without_one() {
    assert_eq!(
        suggested_where("", "//server/share"),
        Some("/mnt/share".to_string())
    );
    assert_eq!(suggested_where("/srv/here", "//server/share"), None);
    assert_eq!(suggested_where("", ""), None);
}

/// bin/{plain,runner}, of which the second can be run
struct Tree;

impl Tree {
    fn new() -> Tree {
        Tree
    }

    fn at(&self, rel: &str) -> String {
        format!("/tree/{rel}")
    }

    /// What the directory of the last word holds.
    fn listing(&self, value: &str) -> Option<Vec<Listed>> {
        if !value.contains("/tree/bin/") {
            return None;
        }
        Some(vec![
            Listed { name: "runner".into(), is_dir: false, executable: true },
            Listed { name: "plain".into(), is_dir: false, executable: false },
        ])
    }
}

/// Every selectable row has a key in the help document.
#[test]
fn every_builder_row_has_a_help_entry() {
    let doc = doc();
    for u in all_bodies() {
        for r in rows_for(&u) {
            if r.id == Id::Heading {
                assert!(help_key(r.id).is_none(), "headings need no help");
                continue;
            }
            let key = help_key(r.id).unwrap_or_else(|| panic!("{:?} has no help key", r.id));
            let e = fieldhelp::entry(&doc, key)
                .unwrap_or_else(|| panic!("{:?} -> {key}: no such entry", r.id));
            assert!(!e.label.is_empty(), "{key} has no label");
            assert!(!e.summary.is_empty(), "{key} has no summary");
            assert!(!e.detail.is_empty(), "{key} has no detail");
        }
    }
}

/// The shell-wrap row has no stable value to show -- it renders
/// "(press Enter)" -- so its help is keyed off the row, not the value.
#[test]
fn the_shell_wrap_row_is_documented_despite_having_no_value() {
    let u = Unit::new_timer(Scope::User);
    let row = rows_for(&u)
        .into_iter()
        .find(|r| r.id == Id::ShellWrap)
        .expect("the wrap row");
    assert_eq!(row.value, "(press Enter)");
    let doc = doc();
    let e = fieldhelp::entry(&doc, help_key(Id::ShellWrap).unwrap()).expect("help");
    assert!(!e.summary.is_empty());
}

#[test]
fn every_schedule_preset_is_documented_and_offered() {
    let doc = doc();
    for key in schedule_keys() {
        let e = fieldhelp::entry(&doc, key).unwrap_or_else(|| panic!("{key}: no such entry"));
        assert!(!e.summary.is_empty(), "{key}");
        let item = schedule_item(key, &doc);
        assert!(item.contains(&e.label), "{key} -> {item}");
        assert!(item.contains(&e.summary), "{key} -> {item}");
    }
    assert_eq!(schedule_item("nope", &doc), "nope");
    assert_eq!(schedule_keys().len(), 8);
    assert_eq!(schedule::schedule_items(&doc).len(), 8);
}

#[test]
fn the_bare_command_warning_carries_a_one_key_fix() {
    let real = "/usr/bin/true";
    let mut u = Unit::new_timer(Scope::User);
    u.name = "x".into();
    if let Body::Timer(t) = &mut u.body {
        t.service.exec_start = "true --quiet".into();
    }
    let d = derived(&u);
    let (_, fix) = fix_for_row(&d, Id::ExecStart).expect("a fix for ExecStart");
    assert_eq!(fix.field(), "ExecStart");
    assert!(fix.label().contains(real));
    // Applying it keeps the arguments.
    let msg = quick_fix(&mut u, &d, Id::ExecStart);
    assert!(msg.starts_with("fixed:"), "{msg}");
    let Body::Timer(t) = &u.body else {
        unreachable!()
    };
    assert_eq!(t.service.exec_start, format!("{real} --quiet"));
    // ...and the advisory is gone afterwards.
    assert!(fix_for_row(&derived(&u), Id::ExecStart).is_none());
    // The fix that was found changes nothing a second time.
    assert_eq!(quick_fix(&mut u, &d, Id::ExecStart), "nothing to change");
}

#[test]
fn the_status_line_offers_the_focused_rows_fix() {
    let mut u = Unit::new_timer(Scope::User);
    u.name = "x".into();
    if let Body::Timer(t) = &mut u.body {
        t.schedule = Schedule::Calendar(vec!["*-*-* 03:00:00".into()]);
        t.service.exec_start = "true".into();
    }
    let d = derived(&u);
    let on_exec = status_line(&u, &d, Id::ExecStart);
    assert!(on_exec.contains("f applies it"), "{on_exec}");
    // On another row the same advisory is still counted, not hidden.
    let elsewhere = status_line(&u, &d, Id::Description);
    assert!(elsewhere.contains("advisory checks"), "{elsewhere}");
}

/// The whole screen at every size down to one cell, in every pane mode and
/// for every body: nothing is wider than the space it was given.
#[test]
fn the_builder_draws_at_any_terminal_size() {
    for u in all_bodies() {
        for pane in Pane::cycle() {
            let mut v = Screen::new(&u, "Test", pane, DIR, &found(), Ok(Vec::new()));
            for w in [1usize, 2, 5, 20, 46, 71, 72, 80, 100, 160] {
                for h in [1usize, 2, 3, 4, 5, 6, 24, 50] {
                    for top in [0usize, 9_999] {
                        v.pane_top = top;
                        assert!(v.form_lines(w, h).len() <= h, "{w}x{h}");
                        assert!(v.pane_lines(&doc(), w, h).len() <= h, "{w}x{h}");
                        assert!(v.status_text(w).chars().count() <= w, "{w}x{h}");
                        assert!(!v.hint_line(w).spans.is_empty(), "{w}x{h}");
                    }
                }
            }
        }
    }
}

#[test]
fn the_form_still_shows_a_value_column_at_eighty_columns() {
    let mut u = Unit::new_timer(Scope::User);
    u.name = "backup".into();
    if let Body::Timer(t) = &mut u.body {
        t.service.exec_start = "/opt/bk.sh".into();
    }
    let mut v = Screen::new(&u, "Test", Pane::Help, DIR, &found(), Ok(Vec::new()));
    let (form, pane) = split_panes(Rect { x: 0, y: 0, width: 80, height: 20 }, true);
    assert!(pane.is_some(), "the pane vanished");
    assert_eq!(v.pane.title(), "Field help");
    let text: String = v
        .form_lines(form.width as usize - 2, 18)
        .iter()
        .map(|l| l.spans[0].content.as_str())
        .collect::<Vec<_>>()
        .join("\n");
    assert!(text.contains("/opt/bk.sh"), "the value column vanished");
}

fn key(code: KeyCode) -> Key {
    Key::Press(code, false)
}

fn typed(c: char) -> Key {
    key(KeyCode::Char(c))
}

fn backup() -> Unit {
    let mut u = Unit::new_timer(Scope::User);
    u.name = "backup".into();
    if let Body::Timer(t) = &mut u.body {
        t.schedule = Schedule::Calendar(vec!["*-*-* 03:00:00".into()]);
        t.service.exec_start = "/bin/true".into();
    }
    u
}

fn screen_for(u: &Unit) -> Screen {
    Screen::new(u, "Test", Pane::Off, DIR, &found(), Ok(Vec::new()))
}

#[test]
fn keys_move_page_and_ask_for_what_the_row_needs() {
    let u = backup();
    let mut v = screen_for(&u);
    assert_eq!(v.current(), Id::Name);
    assert_eq!(v.press(&u, key(KeyCode::Enter)), Action::Activate(Id::Name));
    assert_eq!(v.press(&u, typed('b')), Action::Stay);
    assert!(v.status_text(200).starts_with("b browses only path fields"));
    // The message lasts until the next key.
    assert_eq!(v.press(&u, key(KeyCode::Down)), Action::Stay);
    assert!(v.flash.is_none());
    assert_eq!(v.current(), Id::Description);
    assert_eq!(v.press(&u, key(KeyCode::PageDown)), Action::Stay);
    assert_eq!(v.pane_top, 10);
    assert_eq!(v.press(&u, key(KeyCode::PageUp)), Action::Stay);
    assert_eq!(v.pane_top, 0);
    while v.current() != Id::ExecStart {
        v.press(&u, typed('j'));
    }
    assert_eq!(v.press(&u, typed('b')), Action::Browse(Id::ExecStart));
    assert_eq!(v.press(&u, typed('f')), Action::Fix(Id::ExecStart));
    assert_eq!(v.press(&u, typed('?')), Action::Explain(Id::ExecStart));
    assert_eq!(v.press(&u, typed('c')), Action::Review);
    assert_eq!(v.press(&u, typed('p')), Action::Preview);
    assert_eq!(v.press(&u, Key::Press(KeyCode::Char('s'), true)), Action::Save);
    assert_eq!(v.press(&u, key(KeyCode::Esc)), Action::Discard);
    assert_eq!(v.press(&u, typed('v')), Action::Stay);
    assert_eq!(v.pane, Pane::Help);
    assert_eq!(v.flash.as_deref(), Some("pane: Field help"));
    while v.current() != Id::Save {
        v.press(&u, Key::Scroll(1));
    }
    assert_eq!(v.press(&u, key(KeyCode::Enter)), Action::Save);
}

/// The rows change under the selection, which stays on a row.
#[test]
fn another_body_under_the_screen_keeps_a_row_selected() {
    let u = backup();
    let mut v = screen_for(&u);
    while v.current() != Id::Save {
        v.press(&u, typed('j'));
    }
    let mount = Unit::new_mount();
    v.sync(&mount, DIR, &found(), Ok(Vec::new()));
    assert_ne!(v.current(), Id::Heading);
    assert!(v.sel < v.rows.len());
}

#[test]
fn hints_highlight_browsing_only_where_it_works() {
    let u = backup();
    let mut v = screen_for(&u);
    assert!(v.hint_line(78).spans.iter().any(|s| s.content == "b browses paths"));
    while v.current() != Id::WorkDir {
        v.press(&u, typed('j'));
    }
    v.refocus(&u);
    let line = v.hint_line(78);
    let hint = line.spans.iter().find(|s| s.content == "b browses this path").expect("hint");
    assert!(hint.style.bold);
}

#[test]
fn dialogs_say_what_is_missing_and_what_will_happen() {
    let u = backup();
    assert_eq!(screen::preview(&u, DIR), generate::preview(&u, DIR));
    let new = Unit::new_timer(Scope::User);
    assert!(screen::preview(&new, DIR).starts_with("(incomplete: the unit needs a name)\n\n"));
    assert_eq!(screen::installable(&new), Err("the unit needs a name".to_string()));
    let files = screen::installable(&u).unwrap();
    assert_eq!(
        screen::install_body("/units", &files, &[]),
        "Write into /units:\n  notcron-backup.timer\n  notcron-backup.service\n"
    );
    assert!(screen::install_body("/units", &files, &files[..1])
        .ends_with("\n\nOverwrites: notcron-backup.timer\n"));
    assert_eq!(
        screen::installed_body(&["/u/a".to_string()], &["enable a: denied".to_string()]),
        "Installed:\n  /u/a\n\nwarning: enable a: denied"
    );
    let (title, body) = screen::explain(Id::Name, &doc()).expect("help");
    assert_eq!(title, "unit.name");
    assert!(body.ends_with("Examples: one, two"), "{body}");
    assert!(screen::explain(Id::Heading, &doc()).is_none());
}

#[test]
fn the_review_applies_fixes_and_shows_the_rest() {
    let mut u = backup();
    if let Body::Timer(t) = &mut u.body {
        t.service.exec_start = "true".into();
        t.service.exec_start_pre = Some("no-such-program".into());
    }
    let d = derived(&u);
    assert_eq!(d.diags.len(), 2);
    assert!(label(&d.diags[0]).ends_with("[Enter fixes]"), "{}", label(&d.diags[0]));
    assert!(!label(&d.diags[1]).ends_with("[Enter fixes]"));
    assert_eq!(review(&mut u, &d.diags[0]), Reviewed::Fixed);
    let Body::Timer(t) = &u.body else { unreachable!() };
    assert_eq!(t.service.exec_start, "/usr/bin/true");
    assert!(matches!(review(&mut u, &d.diags[0]), Reviewed::Stuck(_)));
    assert!(matches!(review(&mut u, &d.diags[1]), Reviewed::Shown(_, _)));
}

fn text(s: &str) -> Answer {
    Answer::Text(s.to_string())
}

fn calendar(spec: &str, source: &str) -> Option<(Schedule, String)> {
    Some((Schedule::Calendar(vec![spec.to_string()]), source.to_string()))
}

#[test]
fn every_preset_builds_its_schedule() {
    assert_eq!(
        built(0, &[text("15")]),
        Some((
            Schedule::Every { every: "15min".into(), boot: "15min".into() },
            "every 15 minute(s)".to_string()
        ))
    );
    assert_eq!(
        built(1, &[text(" 6 ")]),
        Some((
            Schedule::Every { every: "6h".into(), boot: "6h".into() },
            "every 6 hour(s)".to_string()
        ))
    );
    assert_eq!(built(2, &[text("3:05")]), calendar("*-*-* 03:05:00", "daily at 03:05"));
    assert_eq!(
        built(3, &[Answer::Picked(4), text("18:00")]),
        calendar("Fri *-*-* 18:00:00", "weekly on Fri at 18:00")
    );
    assert_eq!(
        built(4, &[text("1"), text("00:30")]),
        calendar("*-*-01 00:30:00", "monthly on day 1 at 00:30")
    );
    assert_eq!(
        built(5, &[text("2min")]),
        Some((Schedule::Boot { boot: "2min".into() }, "at boot + 2min".to_string()))
    );
    assert_eq!(built(6, &[text("0 3 * * *")]), calendar("*-*-* 03:00:00", "cron: 0 3 * * *"));
    assert_eq!(
        built(6, &[text("@reboot")]),
        Some((Schedule::Boot { boot: "1min".into() }, "@reboot".to_string()))
    );
    assert_eq!(built(7, &[text("daily")]), calendar("daily", "OnCalendar: daily"));
    for choice in [0, 1, 2, 3, 4, 5, 6, 7] {
        assert_eq!(built(choice, &[Answer::Cancelled, Answer::Cancelled]), None);
    }
}

#[test]
fn questions_are_asked_and_answers_checked() {
    assert_eq!(questions(3), vec![Question::Weekday, Question::Time]);
    assert_eq!(questions(9), vec![Question::Calendar]);
    let now = Schedule::Calendar(vec!["hourly".into()]);
    match asked(Question::Calendar, &now) {
        Ask::Text(p) => assert_eq!(p.initial, "hourly"),
        other => panic!("{other:?}"),
    }
    match asked(Question::Minutes, &now) {
        Ask::Text(p) => {
            assert_eq!(p.initial, "15");
            assert_eq!(p.help, "A number between 1 and 1440.");
        }
        other => panic!("{other:?}"),
    }
    assert!(matches!(asked(Question::Weekday, &now), Ask::Pick(_, days, 0) if days.len() == 7));
    assert!(schedule::check(Question::Hours, "168").is_ok());
    assert_eq!(
        schedule::check(Question::Hours, "169"),
        Err("must be between 1 and 168".to_string())
    );
    assert_eq!(
        schedule::check(Question::MonthDay, "first"),
        Err("must be a whole number".to_string())
    );
    assert_eq!(schedule::check(Question::Time, "25:00"), Err("hour must be 0-23".to_string()));
    assert!(schedule::check(Question::Cron, "0 3 * *").is_err());
}

#[test]
fn a_refused_spec_never_reaches_the_schedule() {
    let s = Schedule::Calendar(vec!["a".into(), "b".into()]);
    let ok = || Some(Outcome { success: true, stdout: String::new(), stderr: String::new() });
    let bad = Some(Outcome { success: false, stdout: String::new(), stderr: "no".into() });
    assert_eq!(check_specs(&s, &[ok(), None]), Ok(()));
    assert_eq!(check_specs(&s, &[ok(), bad]), Err("no".to_string()));
    assert_eq!(check_specs(&Schedule::Boot { boot: "1min".into() }, &[]), Ok(()));
    let mut u = backup();
    set_schedule(&mut u, Schedule::Boot { boot: "5min".into() }, "at boot + 5min".into());
    let Body::Timer(t) = &u.body else { unreachable!() };
    assert_eq!(t.source, "at boot + 5min");
    assert_eq!(t.schedule, Schedule::Boot { boot: "5min".into() });
}

fn runs() -> Vec<NextRun> {
    vec![NextRun {
        local: "Mon 2026-08-17 03:00:00 CEST".into(),
        utc: String::new(),
        from_now: String::new(),
    }]
}

#[test]
fn notes_under_a_prompt_show_the_next_runs() {
    let note = note_runs(Ok(runs()));
    assert_eq!(note[0], "  Next runs:");
    assert!(note[1].starts_with("  1. Mon 2026-08-17"), "{note:?}");
    assert!(note_runs(Err(PreviewError::Invalid("half".into()))).is_empty());
    assert_eq!(cron_specs("0 3 * * *"), Some(vec!["*-*-* 03:00:00".to_string()]));
    assert_eq!(cron_specs("@reboot"), None);
    let note = cron_note("15 10 13 * fri", Ok(runs()));
    assert_eq!(note[0], "  OnCalendar=*-*-13 10:15:00\n  OnCalendar=Fri *-*-* 10:15:00");
    assert_eq!(cron_note("@reboot", Ok(Vec::new())), vec!["  OnBootSec=1min -- fires once per boot"]);
    assert!(cron_note("nonsense", Ok(Vec::new())).is_empty());
    assert!(matches!(analysed(Err(PreviewError::Unavailable)), Runs::Unavailable));
}

#[test]
fn replies_change_one_field_each() {
    let mut u = backup();
    apply(&mut u, Id::Description, Reply::Text("nightly".into()));
    assert_eq!(u.description, "nightly");
    apply(&mut u, Id::Name, Reply::Text("Other Job".into()));
    assert_eq!(u.name, "other-job");
    apply(&mut u, Id::Persistent, Reply::Yes);
    apply(&mut u, Id::WorkDir, Reply::Text("/srv".into()));
    apply(&mut u, Id::Env, Reply::Text(" A=1 \n\nB=2\n".into()));
    apply(&mut u, Id::RandomDelay, Reply::Text(" 30s ".into()));
    let Body::Timer(t) = &u.body else { unreachable!() };
    assert_eq!(t.service.working_directory.as_deref(), Some("/srv"));
    assert_eq!(t.service.environment, vec!["A=1", "B=2"]);
    assert_eq!(t.randomized_delay.as_deref(), Some("30s"));
    apply(&mut u, Id::WorkDir, Reply::Text("".into()));
    let Body::Timer(t) = &u.body else { unreachable!() };
    assert_eq!(t.service.working_directory, None);
    // A name that was given is kept when the command changes.
    apply(&mut u, Id::ExecStart, Reply::Text("/usr/bin/rsync -a".into()));
    assert_eq!(u.name, "other-job");
    let mut fresh = Unit::new_timer(Scope::User);
    apply(&mut fresh, Id::ExecStart, Reply::Text("/usr/bin/rsync -a".into()));
    assert_eq!(fresh.name, "rsync");
}

#[test]
fn a_change_of_scope_moves_the_target() {
    let mut u = Unit::new_service(Scope::User);
    apply(&mut u, Id::Scope, Reply::Picked(1));
    assert_eq!(u.scope, Scope::System);
    assert_eq!(current_wanted_by(&u), "multi-user.target");
    let all = ServiceType::all();
    let simple = all.iter().position(|t| *t == ServiceType::Simple).unwrap();
    apply(&mut u, Id::ServiceType, Reply::Picked(simple));
    let always = RestartPolicy::all().iter().position(|p| *p == RestartPolicy::Always).unwrap();
    apply(&mut u, Id::Restart, Reply::Picked(always));
    let Body::Service(s) = &u.body else { unreachable!() };
    assert_eq!(s.service.service_type, ServiceType::Simple);
    assert_eq!(s.service.restart, RestartPolicy::Always);
}

#[test]
fn rows_ask_for_the_right_thing() {
    let u = backup();
    assert!(matches!(ask(&u, Id::Schedule, &None), Ask::Schedule));
    assert!(matches!(ask(&u, Id::Persistent, &None), Ask::Toggle));
    assert!(matches!(ask(&u, Id::Preview, &None), Ask::Preview));
    assert!(matches!(ask(&u, Id::Heading, &None), Ask::Nothing));
    match ask(&u, Id::ExecStart, &None) {
        Ask::Text(p) => assert_eq!(p.initial, "/bin/true"),
        other => panic!("{other:?}"),
    }
    assert_eq!(check(Id::ExecStart, " "), Err("ExecStart must not be empty".to_string()));
    assert!(check(Id::Where, "relative").is_err());
    assert!(check(Id::Name, "backup").is_ok());
    let bad = Some(Outcome { success: false, stdout: String::new(), stderr: String::new() });
    assert_eq!(check_span("wibble", &bad), Err("'wibble' is not a valid time span".to_string()));
    assert!(check_span("", &bad).is_ok());
    assert_eq!(browse_seed(Fill::Program, "/bin/old -a"), "/bin/old");
}

#[test]
fn questions_stop_at_the_first_that_is_left() {
    assert_eq!(next_question(3, &[]), Some(Question::Weekday));
    assert_eq!(next_question(3, &[Answer::Picked(0)]), Some(Question::Time));
    assert_eq!(next_question(3, &[Answer::Cancelled]), None);
    assert_eq!(next_question(3, &[Answer::Picked(0), text("18:00")]), None);
    assert_eq!(next_question(5, &[]), Some(Question::Boot));
    assert_eq!(next_question(5, &[Answer::Cancelled]), None);
}

#[test]
fn a_schedule_and_its_source_change_together_or_not_at_all() {
    let ok = || Some(Outcome { success: true, stdout: String::new(), stderr: String::new() });
    let no = || Some(Outcome { success: false, stdout: String::new(), stderr: "no".into() });
    let before = backup();
    let mut u = backup();

    assert!(matches!(edit(&mut u, 3, &[Answer::Picked(4), Answer::Cancelled], &[]), Edit::Dropped));
    assert_eq!(u, before);
    assert!(matches!(edit(&mut u, 5, &[Answer::Cancelled], &[]), Edit::Dropped));
    assert_eq!(u, before);

    let both = [text("15 10 13 * fri")];
    assert_eq!(built_specs(6, &both), vec!["*-*-13 10:15:00", "Fri *-*-* 10:15:00"]);
    match edit(&mut u, 6, &both, &[ok(), no()]) {
        Edit::Refused(e) => assert_eq!(e, "no"),
        other => panic!("{other:?}"),
    }
    assert_eq!(u, before);

    assert!(matches!(edit(&mut u, 6, &both, &[ok(), None]), Edit::Changed));
    let Body::Timer(t) = &u.body else { unreachable!() };
    assert_eq!(
        t.schedule,
        Schedule::Calendar(vec!["*-*-13 10:15:00".into(), "Fri *-*-* 10:15:00".into()])
    );
    assert_eq!(t.source, "cron: 15 10 13 * fri");
}

#[test]
fn a_rejected_spec_and_missing_help_fit_a_narrow_pane() {
    let mut d = derived(&Unit::new_timer(Scope::User));
    d.runs = Runs::Invalid("Failed to parse calendar specification".into());
    for width in [0usize, 8, 12, 24, 29] {
        let mut lines = pane_body(Pane::Runs, Id::Schedule, &doc(), &d, width);
        lines.extend(pane_body(Pane::Help, Id::Heading, &doc(), &d, width));
        for line in lines {
            assert!(line.chars().count() <= width.max(8), "at {width}: {line:?}");
        }
    }
    assert_eq!(
        runs_lines(&Runs::Invalid("no such day".into()), 24),
        vec!["! systemd rejected this", "spec:", "", "no such day"]
    );
    assert_eq!(
        runs_lines(&Runs::Invalid("no such day".into()), 29),
        vec!["! systemd rejected this spec:", "", "no such day"]
    );
    assert_eq!(help_lines(Id::Heading, &doc(), 12), vec!["(no help for", "this row)"]);
}
