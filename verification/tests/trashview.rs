//! The trash as a list.

use notcron::trash::{RestoreError, RestoreReport, Trash, TrashEntry, TrashedFile};
use notcron::ui::steps::step;
use notcron::ui::term::{Key, KeyCode, Rect};
use notcron::ui::trashview::{
    age, conflict_body, describe_state, finish, key, newest_first, restore_answered, restore_moved,
    restore_start, restored_status, revive, row, trash_rect, without, Action, Next,
};
use notcron::unit::model::Scope;

fn entry(id: &str, unit: &str, removed_at: u64, files: usize) -> TrashEntry {
    TrashEntry {
        id: id.into(),
        unit: unit.into(),
        scope: Scope::User,
        removed_at,
        was_enabled: true,
        was_active: false,
        files: (0..files)
            .map(|i| TrashedFile {
                stored: format!("{i}.unit"),
                original: format!("/tmp/{unit}.{i}"),
            })
            .collect(),
    }
}

#[test]
fn the_newest_removal_is_offered_first() {
    let v = newest_first(&[
        entry("a", "old.timer", 100, 1),
        entry("c", "newest.timer", 300, 1),
        entry("b", "middling.timer", 200, 1),
    ]);
    assert_eq!(
        v.iter().map(|e| e.unit.as_str()).collect::<Vec<_>>(),
        vec!["newest.timer", "middling.timer", "old.timer"]
    );
}

/// Two removals in the same second must still come out in a fixed order.
#[test]
fn entries_removed_at_the_same_instant_order_by_id() {
    let v = newest_first(&[
        entry("z", "z.timer", 100, 1),
        entry("a", "a.timer", 100, 1),
    ]);
    assert_eq!(v[0].id, "a");
    assert_eq!(newest_first(&[]).len(), 0);
}

#[test]
fn ages_read_in_the_coarsest_useful_unit() {
    assert_eq!(age(0), "0s ago");
    assert_eq!(age(59), "59s ago");
    assert_eq!(age(60), "1m ago");
    assert_eq!(age(3599), "59m ago");
    assert_eq!(age(3600), "1h ago");
    assert_eq!(age(86_399), "23h ago");
    assert_eq!(age(86_400), "1d ago");
    assert_eq!(age(86_400 * 400), "400d ago");
}

#[test]
fn a_row_names_the_unit_its_age_and_what_it_was() {
    let e = entry("x", "notcron-backup.timer", 1_000, 2);
    let r = row(&e, 4_600, 200);
    assert!(r.contains("notcron-backup.timer"), "{r}");
    assert!(r.contains("1h ago"), "{r}");
    assert!(r.contains("2 files"), "{r}");
    assert!(r.contains("enabled"), "{r}");
    assert!(!r.contains(" active"), "{r}");
}

#[test]
fn a_single_file_entry_is_not_pluralised() {
    let r = row(&entry("x", "a.service", 0, 1), 0, 200);
    assert!(r.contains("1 file "), "{r}");
}

#[test]
fn rows_never_exceed_their_width() {
    let e = entry("x", &"a".repeat(200), 0, 3);
    for w in 0..90usize {
        assert!(row(&e, 500, w).chars().count() <= w, "width {w}");
    }
}

/// An age computed against a clock behind the removal must not underflow.
#[test]
fn a_removal_in_the_future_does_not_panic() {
    let e = entry("x", "a.timer", 9_000, 1);
    assert!(!row(&e, 0, 80).is_empty());
}

// -----------------------------------------------------------------
// Layout
// -----------------------------------------------------------------

#[test]
fn the_view_stays_inside_every_frame() {
    for w in 0..=40u16 {
        for h in 0..=40u16 {
            let area = Rect {
                x: 3,
                y: 2,
                width: w,
                height: h,
            };
            let r = trash_rect(area);
            assert!(r.x >= area.x && r.y >= area.y, "{w}x{h}: {r:?}");
            assert!(r.x + r.width <= area.x + area.width, "{w}x{h}: {r:?}");
            assert!(r.y + r.height <= area.y + area.height, "{w}x{h}: {r:?}");
        }
    }
}

#[test]
fn the_view_fills_a_normal_frame() {
    let r = trash_rect(Rect {
        x: 0,
        y: 0,
        width: 100,
        height: 40,
    });
    assert_eq!((r.width, r.height), (96, 36));
}

// -----------------------------------------------------------------
// Consent
// -----------------------------------------------------------------

/// Every path about to be replaced must be named: this is the text that
/// stands between the user and losing a file.
#[test]
fn the_overwrite_prompt_names_every_path() {
    let paths = vec![
        "/home/x/.config/systemd/user/a.timer".to_string(),
        "/home/x/.config/systemd/user/a.service".to_string(),
    ];
    let body = conflict_body("a.timer", &paths);
    for p in &paths {
        assert!(body.contains(p.as_str()), "{body}");
    }
    assert!(body.contains("2 files"), "{body}");
    assert!(body.contains("Overwrite"), "{body}");
}

#[test]
fn the_overwrite_prompt_is_grammatical_for_one_file() {
    let body = conflict_body("a.timer", &["/tmp/a.timer".to_string()]);
    assert!(body.contains("1 file that exists again"), "{body}");
}

#[test]
fn restored_state_is_described_in_words() {
    assert_eq!(describe_state(true, true), "enabled and running");
    assert_eq!(describe_state(true, false), "enabled");
    assert_eq!(describe_state(false, true), "running");
    assert_eq!(describe_state(false, false), "neither enabled nor running");
}

#[test]
fn selection_wraps_and_survives_an_empty_list() {
    assert_eq!(step(0, -1, 3), 2);
    assert_eq!(step(2, 1, 3), 0);
    assert_eq!(step(0, 1, 0), 0);
    assert_eq!(step(5, -1, 0), 0);
}

#[test]
fn a_status_that_says_nothing_is_not_reported() {
    assert_eq!(finish(String::new()), None);
    assert_eq!(
        finish("restored a.timer".into()),
        Some("restored a.timer".into())
    );
}

#[test]
fn nothing_is_overwritten_without_consent() {
    assert!(matches!(restore_start("a.timer", &Ok(vec![])), Next::Move(false)));
    let taken = vec!["/tmp/a.timer".to_string()];
    match restore_start("a.timer", &Ok(taken.clone())) {
        Next::Ask(body) => assert_eq!(body, conflict_body("a.timer", &taken)),
        other => panic!("{other:?}"),
    }
    assert!(matches!(restore_answered(true), Next::Move(true)));
    assert!(matches!(restore_answered(false), Next::Stop(_)));
    // A path that appeared in between is asked about, once.
    let late = Err(RestoreError::Conflict(taken));
    assert!(matches!(restore_moved("a.timer", false, &late), Next::Ask(_)));
    assert!(matches!(restore_moved("a.timer", true, &late), Next::Fail(_, _)));
}

/// The report of a restore with nothing in the way.
fn restored(e: &TrashEntry) -> RestoreReport {
    let here = vec![false; e.files.len()];
    Trash::at("/trash").restore(e, &here, false).unwrap().0
}

#[test]
fn a_restored_unit_is_offered_its_old_state() {
    let report = restored(&entry("x", "a.timer", 0, 1));
    let (question, args) = revive(&report).expect("it was enabled");
    assert!(question.starts_with("a.timer was enabled"), "{question}");
    assert_eq!(args, vec!["enable", "a.timer"]);
    assert!(restored_status(&report, true).ends_with(", enabled again"));
    let mut off = entry("x", "a.timer", 0, 1);
    off.was_enabled = false;
    assert!(revive(&restored(&off)).is_none());
}

#[test]
fn keys_choose_and_a_discarded_entry_leaves_the_list() {
    let press = |code| Some(Key::Press(code, false));
    assert_eq!(key(press(KeyCode::Down), 0, 3, 10, 1), Action::Stay(1));
    assert_eq!(key(press(KeyCode::Enter), 2, 3, 10, 1), Action::Restore(2));
    assert_eq!(key(press(KeyCode::Char('x')), 1, 3, 10, 1), Action::Discard(1));
    assert_eq!(key(press(KeyCode::Char('q')), 1, 3, 10, 1), Action::Close);
    assert_eq!(key(None, 1, 3, 10, 1), Action::Close);
    let entries = [entry("a", "a.timer", 1, 1), entry("b", "b.timer", 2, 1)];
    let (left, sel) = without(&entries, "b", 1);
    assert_eq!((left.len(), left[0].id.as_str(), sel), (1, "a", 0));
}
