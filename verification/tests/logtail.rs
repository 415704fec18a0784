//! The journal pane under the list.

use notcron::ui::logtail::{
    arrived, journal_command, split, Tail, FOOTER_HEIGHT, LIST_MIN, PANE_HEIGHT,
};
use notcron::ui::term::Rect;
use notcron::unit::model::Scope;

fn rect(w: u16, h: u16) -> Rect {
    Rect {
        x: 2,
        y: 5,
        width: w,
        height: h,
    }
}

/// The exhaustive bounds grid: at every size, with the pane on and off,
/// every rect must sit inside the frame and none may overlap.
#[test]
fn the_split_stays_in_bounds_at_every_size() {
    for w in 0..=40u16 {
        for h in 0..=40u16 {
            for tail in [false, true] {
                let area = rect(w, h);
                let p = split(area, tail);
                // In the order they are stacked down the frame.
                let mut rects = vec![p.header, p.list];
                rects.extend(p.tail);
                rects.push(p.footer);
                let mut total = 0u16;
                for r in &rects {
                    assert_eq!(r.x, area.x, "{w}x{h} tail={tail}");
                    assert_eq!(r.width, area.width, "{w}x{h} tail={tail}");
                    assert!(r.y >= area.y, "{w}x{h} tail={tail}");
                    assert!(
                        r.y + r.height <= area.y + area.height,
                        "{w}x{h} tail={tail}: {r:?} escapes {area:?}"
                    );
                    total += r.height;
                }
                assert!(total <= area.height, "{w}x{h} tail={tail}");
                // Laid out top to bottom, back to back.
                for pair in rects.windows(2) {
                    assert_eq!(pair[0].y + pair[0].height, pair[1].y, "{w}x{h}");
                }
            }
        }
    }
}

#[test]
fn a_zero_height_frame_yields_nothing_at_all() {
    let p = split(rect(80, 0), true);
    assert_eq!(p.header.height, 0);
    assert_eq!(p.list.height, 0);
    assert_eq!(p.footer.height, 0);
    assert!(p.tail.is_none());
}

/// The list is what the screen is for: the pane goes before it does, and
/// the footer goes before the list drops below three rows.
#[test]
fn the_list_is_the_last_thing_to_lose_space() {
    for h in 0..=8u16 {
        let p = split(rect(80, h), true);
        if p.list.height > 0 && h >= 5 {
            assert!(p.list.height >= LIST_MIN.min(h), "h={h}: {p:?}");
        }
        if p.tail.is_some() {
            assert!(p.list.height >= LIST_MIN, "h={h}: pane starved the list");
        }
    }
}

#[test]
fn the_pane_appears_once_there_is_room_and_takes_its_full_height() {
    let p = split(rect(80, 40), true);
    assert_eq!(p.tail.map(|r| r.height), Some(PANE_HEIGHT));
    assert_eq!(p.header.height, 1);
    assert_eq!(p.footer.height, FOOTER_HEIGHT);
    assert_eq!(
        p.header.height + p.list.height + PANE_HEIGHT + p.footer.height,
        40
    );
}

#[test]
fn the_pane_shrinks_before_it_starves_the_list() {
    // 1 header + 3 list + 3 footer = 7; a 15-row frame leaves 8 for the pane.
    let p = split(rect(80, 15), true);
    let t = p.tail.expect("a pane");
    assert!(t.height < PANE_HEIGHT, "{t:?}");
    assert!(p.list.height >= LIST_MIN);
}

#[test]
fn switching_the_pane_off_gives_the_rows_back_to_the_list() {
    let on = split(rect(80, 30), true);
    let off = split(rect(80, 30), false);
    assert!(off.tail.is_none());
    assert_eq!(off.list.height, on.list.height + PANE_HEIGHT);
}

#[test]
fn the_user_journal_is_asked_for_explicitly() {
    let args = journal_command(Scope::User, false, "x.service", 10, false);
    assert!(args.contains(&"--user".to_string()), "{args:?}");
    assert!(!args.contains(&"-f".to_string()), "{args:?}");
    assert!(args.contains(&"x.service".to_string()));
    assert_eq!(args[0], "journalctl");
}

/// journalctl has no `--system`: the system journal is its default, and
/// passing a flag that does not exist would fail outright.
#[test]
fn the_system_journal_takes_no_scope_flag() {
    let args = journal_command(Scope::System, true, "x.service", 10, false);
    assert!(
        !args.iter().any(|a| a == "--user" || a == "--system"),
        "{args:?}"
    );
}

#[test]
fn following_adds_the_follow_flag_and_keeps_the_line_count() {
    let args = journal_command(Scope::User, false, "x.timer", 10, true);
    assert!(args.contains(&"-f".to_string()), "{args:?}");
    assert!(args.contains(&"10".to_string()), "{args:?}");
}

// -----------------------------------------------------------------
// Pane contents
// -----------------------------------------------------------------

fn tail_with(lines: &[&str]) -> Tail {
    Tail {
        unit: "x.service".into(),
        scope: Some(Scope::User),
        lines: lines.iter().map(|s| s.to_string()).collect(),
        ..Tail::default()
    }
}

#[test]
fn the_body_shows_the_newest_lines_and_never_overflows() {
    let all: Vec<String> = (0..50).map(|i| format!("line {i}")).collect();
    let refs: Vec<&str> = all.iter().map(String::as_str).collect();
    let t = tail_with(&refs);
    let body = t.body(20, 5);
    assert_eq!(body.len(), 5);
    assert_eq!(body[4], "line 49");
    assert_eq!(body[0], "line 45");
    for w in 0..30usize {
        for h in 0..15usize {
            for l in t.body(w, h) {
                assert!(l.chars().count() <= w, "{w}x{h}");
            }
        }
    }
}

#[test]
fn an_empty_journal_says_so_rather_than_showing_a_blank_pane() {
    let t = tail_with(&[]);
    assert_eq!(t.body(40, 5), vec!["(no journal entries)".to_string()]);
}

#[test]
fn a_note_replaces_the_lines() {
    let mut t = tail_with(&["something"]);
    t.note = "cannot follow the journal: no such file".into();
    assert_eq!(t.body(80, 5).len(), 1);
    assert!(t.body(80, 5)[0].starts_with("cannot follow"));
}

#[test]
fn the_title_says_whether_it_is_following() {
    let t = tail_with(&[]);
    assert!(t.title().contains("f follows"));
    assert!(!t.following());
    assert!(Tail::default().title().contains("(nothing selected)"));
}

#[test]
fn following_nothing_is_refused_rather_than_spawning() {
    let mut t = Tail::default();
    assert!(t.follow_target().is_none());
    t.follow(&Ok(()));
    assert!(!t.following());
    assert!(!t.note.is_empty());
}

#[test]
fn unfollowing_is_idempotent() {
    let mut t = tail_with(&[]);
    t.unfollow();
    t.unfollow();
    assert!(!t.following());
}

/// Moving the selection ends the follow, and says so rather than just
/// going quiet -- a follow that stopped for no visible reason reads as a
/// bug in the pane.
#[test]
fn moving_the_selection_reports_that_the_follow_ended() {
    let mut t = tail_with(&["old"]);
    t.note = "something".into();
    t.show(Scope::User, "other.service", "a line");
    assert!(!t.following());
    assert_eq!(t.unit, "other.service");
    // Not following to begin with: nothing to report.
    assert!(t.note.is_empty(), "{:?}", t.note);
}

/// The pane must not re-read the journal when the selection has not moved.
#[test]
fn showing_the_same_unit_twice_is_a_no_op() {
    let mut t = tail_with(&["kept"]);
    t.show(Scope::User, "x.service", "fresh");
    assert_eq!(t.lines, vec!["kept".to_string()]);
}

#[test]
fn following_takes_over_from_the_last_read() {
    let mut t = tail_with(&["old"]);
    assert_eq!(t.follow_target(), Some((Scope::User, "x.service".to_string())));
    t.follow(&Ok(()));
    assert!(t.following());
    t.poll(&vec!["new".to_string()], false);
    assert_eq!(t.lines, vec!["new".to_string()]);
    // A reader that ended says so.
    t.poll(&vec!["new".to_string()], true);
    assert!(!t.following());
    t.follow(&Err("no such file".to_string()));
    assert!(!t.following());
    assert!(t.note.contains("no such file"), "{}", t.note);
    // Moving on ends a follow and says so.
    t.note = String::new();
    t.follow(&Ok(()));
    t.show(Scope::User, "other.service", "a\nb");
    assert!(!t.following());
    assert!(!t.note.is_empty());
}

#[test]
fn only_the_newest_lines_are_kept() {
    let mut buf = vec!["a".to_string(), "b".to_string()];
    arrived(&mut buf, "c".to_string(), 2);
    assert_eq!(buf, vec!["b".to_string(), "c".to_string()]);
}
