//! The unit list.

use notcron::fieldhelp;
use notcron::systemd::Entry;
use notcron::templates;
use notcron::templates::TemplateId;
use notcron::ui::list::{
    copy_items, copy_of, copyable, from_existing, from_template, help_text, leaves_files,
    lifecycle_keys, log_unit, new_choice, new_items, row, state_style, status_text, taken_names,
    template_items, verb_status, view_text, Action, App, Deed, NewUnit, ReadFile,
};
use notcron::ui::paint::Color;
use notcron::ui::term::{Key, KeyCode};
use notcron::unit::model::{Body, Scope, Unit};

fn app_with(entries: Vec<Entry>) -> App {
    App {
        scope: Scope::User,
        show_foreign: false,
        entries,
        sel: 0,
        top: 0,
        status: String::new(),
    }
}

fn entry(name: &str, owned: bool) -> Entry {
    Entry {
        primary: name.into(),
        files: vec![name.into()],
        scope: Scope::User,
        owned,
        description: "a unit".into(),
        kind: "timer",
        schedule: "*-*-* 03:00:00".into(),
        unit: None,
        active: "active".into(),
        enabled: "enabled".into(),
    }
}

#[test]
fn selection_wraps_in_both_directions() {
    let mut app = app_with(vec![entry("a.timer", true), entry("b.timer", true)]);
    app.move_sel(-1);
    assert_eq!(app.sel, 1);
    app.move_sel(1);
    assert_eq!(app.sel, 0);
}

#[test]
fn moving_an_empty_selection_is_a_no_op() {
    let mut app = app_with(Vec::new());
    app.move_sel(1);
    assert_eq!(app.sel, 0);
}

#[test]
fn foreign_units_are_greyed_out() {
    assert_eq!(state_style(&entry("x", false)).fg, Some(Color::DarkGray));
    assert_eq!(state_style(&entry("x", true)).fg, Some(Color::Green));
}

/// An entry carrying a parsed unit, for the copy flows.
fn entry_with(name: &str, unit: Unit) -> Entry {
    Entry {
        unit: Some(unit),
        ..entry(name, true)
    }
}

fn named_timer(name: &str) -> Unit {
    let mut u = Unit::new_timer(Scope::User);
    u.name = name.into();
    u.description = "nightly".into();
    u
}

fn mount_at(where_: &str) -> Unit {
    let mut u = Unit::new_mount();
    if let Body::Mount(m) = &mut u.body {
        m.what = "/dev/sdb1".into();
        m.where_ = where_.into();
    }
    u.name = u.stem().unwrap_or_default();
    u
}

// -----------------------------------------------------------------
// Copying an existing unit
// -----------------------------------------------------------------

/// Timers and services collide on unit names; mounts collide on mount
/// points, because that is what their filename is derived from.
#[test]
fn the_names_a_copy_must_avoid_depend_on_what_is_being_copied() {
    let app = app_with(vec![
        entry_with("notcron-backup.timer", named_timer("backup")),
        entry_with("notcron-sync.timer", named_timer("sync")),
        entry_with("srv-data.mount", mount_at("/srv/data")),
        entry("foreign.service", false),
    ]);
    let mut names = taken_names(&app.entries, false);
    names.sort();
    assert_eq!(names, vec!["backup".to_string(), "sync".to_string()]);
    assert_eq!(taken_names(&app.entries, true), vec!["/srv/data".to_string()]);
}

#[test]
fn a_copied_timer_gets_a_free_name_and_no_install_state() {
    let app = app_with(vec![
        entry_with("notcron-backup.timer", named_timer("backup")),
        entry_with("notcron-backup-copy.timer", named_timer("backup-copy")),
    ]);
    let src = app.entries[0].unit.as_ref().expect("a unit");
    let copy = templates::clone_unit(src, &taken_names(&app.entries, false));
    assert_eq!(copy.name, "backup-copy-2");
    assert!(copy.description.contains("(copy)"), "{}", copy.description);
    // `Unit` models file contents only, so nothing about the original
    // being active or enabled can have come along.
    assert_eq!(copy.scope, src.scope);
    assert!(copy.filenames().is_ok());
}

#[test]
fn a_copied_mount_is_renamed_by_its_mount_point() {
    let app = app_with(vec![entry_with("srv-data.mount", mount_at("/srv/data"))]);
    let src = app.entries[0].unit.as_ref().expect("a unit");
    let copy = templates::clone_unit(src, &taken_names(&app.entries, true));
    let Body::Mount(m) = &copy.body else {
        panic!("not a mount")
    };
    assert_eq!(m.where_, "/srv/data-copy");
    assert_ne!(copy.stem().unwrap(), src.stem().unwrap());
}

// -----------------------------------------------------------------
// Templates
// -----------------------------------------------------------------

/// Every template builds a unit that would install as it stands.
#[test]
fn every_template_is_offered_and_valid_in_both_scopes() {
    for scope in [Scope::User, Scope::System] {
        for t in TemplateId::all() {
            let u = t.build(scope);
            assert!(u.validate().is_ok(), "{}: {:?}", t.label(), u.validate());
            assert_eq!(u.scope, scope);
            assert!(!t.label().is_empty() && !t.detail().is_empty());
            assert!(u.filenames().is_ok(), "{}", t.label());
        }
    }
}

#[test]
fn list_draws_at_every_size_without_panicking() {
    let app = app_with(vec![
        entry("notcron-backup.timer", true),
        entry("sshd.service", false),
    ]);
    for (w, h) in [(1, 1), (2, 3), (10, 4), (20, 5), (40, 10), (200, 60)] {
        for line in app.lines(w, h) {
            assert!(line.spans.iter().all(|s| s.content.chars().count() <= w), "{w}x{h}");
        }
    }
}

#[test]
fn draws_an_empty_list_without_panicking() {
    let app = app_with(Vec::new());
    assert_eq!(app.title(), " Units (0) ");
    assert!(app.selected().is_none());
    assert!(!app.footer().is_empty());
}

#[test]
fn draws_a_list_longer_than_the_viewport() {
    let mut app = app_with(
        (0..200)
            .map(|i| entry(&format!("u{i}.timer"), true))
            .collect(),
    );
    app.sel = 199;
    let lines = app.lines(80, 12);
    assert_eq!(lines.len(), 12);
    assert!(lines[11].spans[0].content.contains("u199.timer"));
    assert!(lines[11].spans[0].style.reversed);
}

/// A help document with an entry for every lifecycle action.
fn doc() -> Vec<fieldhelp::Entry> {
    lifecycle_keys()
        .into_iter()
        .map(|(_, key)| fieldhelp::Entry {
            key: key.to_string(),
            label: format!("Label of {key}"),
            summary: format!("Summary of {key}."),
            detail: format!("Detail of {key}."),
            examples: String::new(),
        })
        .collect()
}

#[test]
fn every_lifecycle_action_is_documented() {
    let doc = doc();
    let text = help_text(&doc);
    for (key, help) in lifecycle_keys() {
        let e = fieldhelp::entry(&doc, help).unwrap_or_else(|| panic!("{key} -> {help}: missing"));
        assert!(!e.summary.is_empty(), "{help}");
        assert!(!e.detail.is_empty(), "{help}");
        assert!(
            text.contains(&e.label),
            "{help}: label absent from the help"
        );
        assert!(text.contains(&e.summary), "{help}: summary absent");
    }
    // The keys named are the keys the loop actually binds.
    for key in ["s", "S", "a", "d", "x", "i", "l", "v", "r"] {
        assert!(
            lifecycle_keys().iter().any(|(k, _)| *k == key),
            "{key} is bound but undocumented"
        );
    }
    assert!(text.contains("y                duplicate"), "{text}");
}

fn press(app: &mut App, c: char) -> Action {
    app.press(Some(Key::Press(KeyCode::Char(c), false)))
}

#[test]
fn keys_ask_for_actions_and_keep_the_selection_inside() {
    let mut app = app_with(vec![entry("a.timer", true), entry("b.timer", true)]);
    assert_eq!(press(&mut app, 'q'), Action::Quit);
    assert_eq!(press(&mut app, 'n'), Action::New);
    assert_eq!(press(&mut app, 'j'), Action::Stay);
    assert_eq!(app.sel, 1);
    assert_eq!(press(&mut app, 'f'), Action::Reload);
    assert!(app.show_foreign);
    assert_eq!(press(&mut app, 'u'), Action::Reload);
    assert_eq!(app.scope, Scope::System);
    app.sel = 1;
    app.reload(Ok(vec![entry("a.timer", true)]));
    assert_eq!(app.sel, 0);
    app.reload(Err("no systemd".to_string()));
    assert!(app.status.contains("no systemd"), "{}", app.status);
    assert_eq!(app.press(None), Action::Quit);
}

#[test]
fn foreign_units_are_left_alone() {
    let app = app_with(vec![entry("sshd.service", false)]);
    assert!(matches!(app.edit(), Deed::Show(t, _) if t == "Read-only"));
    assert!(matches!(app.remove(), Deed::Show(t, _) if t == "Read-only"));
    assert!(matches!(app.duplicate(), Deed::Say(_)));
    match app.lifecycle("start") {
        Deed::Say(m) => assert_eq!(m, "sshd.service is not managed by notcron"),
        other => panic!("{other:?}"),
    }
    assert!(matches!(app_with(Vec::new()).remove(), Deed::Nothing));
}

#[test]
fn owned_units_are_acted_on() {
    let app = app_with(vec![entry_with("notcron-backup.timer", named_timer("backup"))]);
    match app.lifecycle("start") {
        Deed::Call(scope, args) => {
            assert_eq!(scope, Scope::User);
            assert_eq!(args, vec!["start", "notcron-backup.timer"]);
        }
        other => panic!("{other:?}"),
    }
    match app.edit() {
        Deed::Build(u, _) => assert_eq!(u.name, "backup"),
        other => panic!("{other:?}"),
    }
    match app.duplicate() {
        Deed::Build(u, _) => assert_eq!(u.name, "backup-copy"),
        other => panic!("{other:?}"),
    }
    assert!(matches!(app.remove(), Deed::Remove(Scope::User, _, _, name) if name == "notcron-backup.timer"));
    assert_eq!(copyable(&app.entries), vec![0]);
    assert_eq!(copy_of(&named_timer("backup"), &app.entries).name, "backup-copy");
    assert_eq!(log_unit(&app.entries[0]), "notcron-backup.service");
    assert_eq!(log_unit(&entry("x.mount", true)), "x.mount");
    assert_eq!(verb_status("start", "a.timer"), "start a.timer: ok");
}

#[test]
fn a_rename_or_a_change_of_scope_leaves_files_behind() {
    let u = named_timer("backup");
    let files = u.filenames().unwrap();
    assert!(!leaves_files(Scope::User, &files, &u));
    assert!(leaves_files(Scope::System, &files, &u));
    assert!(leaves_files(Scope::User, &files, &named_timer("other")));
}

#[test]
fn rows_and_texts_show_what_there_is() {
    let r = row(&entry("notcron-backup.timer", true), true);
    assert!(r.starts_with(" > notcron-backup.timer"), "{r}");
    assert!(r.ends_with("*-*-* 03:00:00"), "{r}");
    assert_eq!(template_items().len(), TemplateId::all().len());
    assert!(status_text(&["one\n".to_string(), "two\n".to_string()]).contains("two"));
    let shown = view_text(
        "/units",
        &[
            ReadFile { name: "a.timer".into(), body: Ok("[Timer]\n".into()) },
            ReadFile { name: "a.service".into(), body: Err("gone".into()) },
        ],
    );
    assert!(shown.contains("/units/a.timer") && shown.contains("[Timer]"), "{shown}");
    assert!(shown.contains("gone"), "{shown}");
}

#[test]
fn every_item_of_the_new_unit_menu_leads_to_what_it_says() {
    let items = new_items();
    assert_eq!(items.len(), 5);
    assert!(items[0].starts_with("Timer + service"));
    for scope in [Scope::User, Scope::System] {
        let built = [
            (Unit::new_timer(scope), "New timer"),
            (Unit::new_service(scope), "New service"),
            (Unit::new_mount(), "New mount"),
        ];
        for (i, (want, name)) in built.iter().enumerate() {
            match new_choice(i, scope) {
                NewUnit::Build(u, title) => {
                    assert_eq!(&u, want);
                    assert_eq!(&title, name);
                }
                other => panic!("{other:?}"),
            }
        }
        assert!(matches!(new_choice(3, scope), NewUnit::Template));
        assert!(matches!(new_choice(4, scope), NewUnit::Existing));
    }
}

#[test]
fn a_template_and_a_copy_are_built_under_their_titles() {
    assert_eq!(template_items().len(), TemplateId::all().len());
    for (i, t) in TemplateId::all().into_iter().enumerate() {
        let (u, title) = from_template(i, Scope::User);
        assert_eq!(u, t.build(Scope::User));
        assert_eq!(title, format!("New from template: {}", u.name));
    }
    let app = app_with(vec![
        entry("foreign.timer", false),
        entry_with("notcron-backup.timer", named_timer("backup")),
        entry_with("notcron-sync.timer", named_timer("sync")),
    ]);
    let items = copy_items(&app.entries);
    assert_eq!(items.len(), 2);
    assert!(items[1].starts_with("notcron-sync.timer "), "{items:?}");
    let (u, title) = from_existing(1, &app.entries);
    assert_eq!(u, copy_of(&named_timer("sync"), &app.entries));
    assert_eq!(title, "New from existing");
    assert!(copy_items(&[]).is_empty());
}
