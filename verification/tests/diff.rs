//! The review of what is about to be written.

use notcron::ui::diff;
use notcron::ui::diff::{
    against_disk, any_change, any_drift, diff, diff_lines, diff_rect, is_empty, render_lines,
    render_text, review_key, review_lines, review_title, stats, with_context, Change, FileDiff,
    Review, Target, MAX_LINES,
};
use notcron::ui::paint::{Color, Line};
use notcron::ui::term::{Key, KeyCode, Rect};

fn file_diff(name: &str, baseline: Option<&str>, disk: Option<&str>, new: &str) -> FileDiff {
    diff::file_diff(name, &baseline.map(str::to_string), &disk.map(str::to_string), new)
}

/// A file as it was read, as it is now, and as it is about to be written.
fn target(baseline: Option<&str>, disk: Option<&str>, body: &str) -> Target {
    Target {
        name: "a.service".into(),
        baseline: baseline.map(str::to_string),
        disk: disk.map(str::to_string),
        body: body.into(),
    }
}

#[test]
fn identical_texts_have_no_changes() {
    let d = diff("a\nb\nc", "a\nb\nc");
    assert!(is_empty(&d));
    assert_eq!(stats(&d), (0, 0));
    assert_eq!(d.len(), 3);
}

#[test]
fn a_trailing_newline_is_not_a_change() {
    assert!(is_empty(&diff("a\nb\n", "a\nb")));
    assert!(is_empty(&diff("", "")));
}

#[test]
fn an_added_line_shows_as_an_addition() {
    let d = diff("a\nc", "a\nb\nc");
    assert_eq!(render_text(&d), " a\n+b\n c");
    assert_eq!(stats(&d), (1, 0));
    assert!(!is_empty(&d));
}

#[test]
fn a_removed_line_shows_as_a_deletion() {
    let d = diff("a\nb\nc", "a\nc");
    assert_eq!(render_text(&d), " a\n-b\n c");
    assert_eq!(stats(&d), (0, 1));
}

/// A changed line is a deletion immediately followed by an insertion, in
/// that order -- the reader wants the old value before the new one.
#[test]
fn a_changed_line_reads_old_then_new() {
    let d = diff(
        "[Service]\nExecStart=/bin/old\nUser=bob",
        "[Service]\nExecStart=/bin/new\nUser=bob",
    );
    assert_eq!(
        render_text(&d),
        " [Service]\n-ExecStart=/bin/old\n+ExecStart=/bin/new\n User=bob"
    );
    assert_eq!(stats(&d), (1, 1));
}

#[test]
fn creating_a_file_is_all_additions() {
    let d = diff("", "a\nb");
    assert_eq!(render_text(&d), "+a\n+b");
    assert_eq!(stats(&d), (2, 0));
}

#[test]
fn emptying_a_file_is_all_deletions() {
    let d = diff("a\nb", "");
    assert_eq!(stats(&d), (0, 2));
}

/// The LCS must find the longest run, not the first plausible one.
#[test]
fn a_moved_block_diffs_minimally() {
    let d = diff("a\nb\nc\nd\ne", "a\nc\nd\ne\nf");
    assert_eq!(stats(&d), (1, 1));
    assert_eq!(render_text(&d), " a\n-b\n c\n d\n e\n+f");
}

#[test]
fn interleaved_changes_keep_their_order() {
    let d = diff("1\n2\n3\n4", "1\nX\n3\nY");
    assert_eq!(render_text(&d), " 1\n-2\n+X\n 3\n-4\n+Y");
}

#[test]
fn a_repeated_line_is_not_confused_with_its_twin() {
    let d = diff("x\nx\nx", "x\nx");
    assert_eq!(stats(&d), (0, 1));
}

// -----------------------------------------------------------------
// Context folding
// -----------------------------------------------------------------

#[test]
fn long_unchanged_runs_are_elided() {
    let old: Vec<String> = (0..40).map(|i| format!("line {i}")).collect();
    let mut new = old.clone();
    new[20] = "line twenty, changed".into();
    let folded = with_context(&diff_lines(&old, &new), 3);
    assert!(matches!(folded[0], Change::Skip(_)), "{folded:?}");
    assert!(matches!(folded.last(), Some(Change::Skip(_))), "{folded:?}");
    // The changed line and three lines either side survive.
    assert_eq!(stats(&folded), (1, 1));
    let text = render_text(&folded);
    assert!(
        text.contains("line 17") && text.contains("line 23"),
        "{text}"
    );
    assert!(!text.contains("line 5"), "{text}");
    assert!(folded.len() < 20, "{} lines", folded.len());
}

#[test]
fn a_short_unchanged_run_is_not_worth_eliding() {
    // One line between two changes: the marker would be no shorter.
    let d = with_context(&diff("a\nb\nc", "X\nb\nY"), 0);
    assert_eq!(render_text(&d), "-a\n+X\n b\n-c\n+Y");
}

#[test]
fn folding_an_unchanged_file_elides_everything() {
    let d = with_context(&diff("a\nb\nc\nd\ne", "a\nb\nc\nd\ne"), 3);
    assert_eq!(d, vec![Change::Skip(5)]);
    assert!(is_empty(&d));
}

#[test]
fn folding_empty_input_is_empty() {
    assert!(with_context(&[], 3).is_empty());
}

#[test]
fn the_skip_marker_agrees_on_plurals() {
    assert_eq!(render_text(&[Change::Skip(1)]), "@@ 1 unchanged line @@");
    assert_eq!(render_text(&[Change::Skip(9)]), "@@ 9 unchanged lines @@");
}

// -----------------------------------------------------------------
// Rendering
// -----------------------------------------------------------------

#[test]
fn additions_are_green_and_deletions_red() {
    let d = diff("a", "b");
    let lines = render_lines(&d, 40);
    assert_eq!(lines[0].spans[0].style.fg, Some(Color::Red));
    assert_eq!(lines[1].spans[0].style.fg, Some(Color::Green));
}

#[test]
fn rendered_lines_never_exceed_the_width() {
    let d = diff("a very long line indeed, quite unreasonably so", "short");
    for w in 0..60usize {
        for l in render_lines(&d, w) {
            assert!(l.spans[0].content.chars().count() <= w, "width {w}");
        }
    }
}

// -----------------------------------------------------------------
// Drift
// -----------------------------------------------------------------

#[test]
fn a_file_untouched_under_the_editor_has_not_drifted() {
    let fd = file_diff("x.service", Some("a\nb"), Some("a\nb"), "a\nc");
    assert!(!fd.drifted);
    assert!(fd.changed());
}

#[test]
fn a_file_rewritten_under_the_editor_has_drifted() {
    let fd = file_diff("x.service", Some("a\nb"), Some("a\nZZZ"), "a\nc");
    assert!(fd.drifted);
}

#[test]
fn a_file_deleted_under_the_editor_has_drifted() {
    let fd = file_diff("x.service", Some("a\nb"), None, "a\nb");
    assert!(fd.drifted);
    // The new text is entirely an addition, since there is nothing there.
    assert_eq!(stats(&fd.changes), (2, 0));
}

#[test]
fn a_file_created_under_the_editor_has_drifted() {
    let fd = file_diff("x.service", None, Some("a"), "a");
    assert!(fd.drifted);
    assert!(!fd.changed());
}

#[test]
fn a_brand_new_file_has_not_drifted() {
    let fd = file_diff("x.service", None, None, "a\nb");
    assert!(!fd.drifted);
    assert!(fd.changed());
}

// -----------------------------------------------------------------
// Baselines and the review
// -----------------------------------------------------------------

/// The rendered text of a set of lines. Blank separator lines carry no
/// spans at all, so they cannot simply be indexed.
fn text_of(lines: &[Line]) -> String {
    lines
        .iter()
        .map(|l| {
            l.spans
                .first()
                .map(|s| s.content.to_string())
                .unwrap_or_default()
        })
        .collect::<Vec<_>>()
        .join("\n")
}

#[test]
fn diffing_against_disk_notices_an_edit_made_elsewhere() {
    // Someone else edited the file while the builder was open.
    let diffs = against_disk(&[target(
        Some("[Service]\nExecStart=/bin/old\n"),
        Some("[Service]\nExecStart=/bin/theirs\n"),
        "[Service]\nExecStart=/bin/mine\n",
    )]);
    assert_eq!(diffs.len(), 1);
    assert_eq!(diffs[0].name, "a.service");
    assert!(any_drift(&diffs), "the edit underneath was not noticed");
    assert!(any_change(&diffs));
    // The diff is against what is there now, not against the stale copy.
    let text = render_text(&diffs[0].changes);
    assert!(text.contains("-ExecStart=/bin/theirs"), "{text}");
    assert!(text.contains("+ExecStart=/bin/mine"), "{text}");
    assert!(!text.contains("/bin/old"), "{text}");
}

#[test]
fn an_untouched_file_does_not_report_drift() {
    let old = Some("[Service]\nExecStart=/bin/old\n");
    let diffs = against_disk(&[target(old, old, "[Service]\nExecStart=/bin/new\n")]);
    assert!(!any_drift(&diffs));
    assert!(any_change(&diffs));
}

#[test]
fn writing_the_same_bytes_back_is_no_change_at_all() {
    let body = "[Service]\nExecStart=/bin/true\n";
    let diffs = against_disk(&[target(Some(body), Some(body), body)]);
    assert!(!any_change(&diffs));
    assert!(!any_drift(&diffs));
}

/// A file deleted underneath the editor is drift, and the whole unit
/// reads as new -- which is exactly what writing it would do.
#[test]
fn a_file_deleted_underneath_is_drift() {
    let diffs = against_disk(&[target(Some("[Service]\n"), None, "[Service]\n")]);
    assert!(any_drift(&diffs));
}

#[test]
fn the_review_names_each_file_and_counts_its_changes() {
    let diffs = vec![
        file_diff("a.timer", Some("a"), Some("a"), "a\nb"),
        file_diff("a.service", Some("x"), Some("x"), "x"),
    ];
    let text = text_of(&review_lines(&diffs, 80));
    assert!(text.contains("a.timer  (+1 -0)"), "{text}");
    assert!(text.contains("a.service  (unchanged)"), "{text}");
    assert!(text.contains("(no change)"), "{text}");
}

/// Drift is called out in the review itself, not just in the title bar.
#[test]
fn the_review_warns_about_a_file_that_changed_on_disk() {
    let diffs = vec![file_diff("a.timer", Some("a"), Some("b"), "c")];
    let text = text_of(&review_lines(&diffs, 100));
    assert!(text.contains("changed on disk"), "{text}");
}

#[test]
fn review_lines_never_exceed_their_width() {
    let diffs = vec![
        file_diff("a-very-long-unit-name.service", Some("a"), Some("b"), "c"),
        file_diff("b.timer", None, None, &"x".repeat(200)),
    ];
    for w in 0..80usize {
        for l in review_lines(&diffs, w) {
            for span in &l.spans {
                assert!(span.content.chars().count() <= w, "width {w}");
            }
        }
    }
}

#[test]
fn an_empty_review_renders_nothing_rather_than_panicking() {
    assert!(review_lines(&[], 80).is_empty());
    assert!(!any_change(&[]));
    assert!(!any_drift(&[]));
}

/// The exhaustive bounds grid for the review dialog.
#[test]
fn the_review_dialog_stays_inside_every_frame() {
    for w in 0..=40u16 {
        for h in 0..=40u16 {
            let area = Rect {
                x: 4,
                y: 1,
                width: w,
                height: h,
            };
            let r = diff_rect(area);
            assert!(r.x >= area.x && r.y >= area.y, "{w}x{h}: {r:?}");
            assert!(r.x + r.width <= area.x + area.width, "{w}x{h}: {r:?}");
            assert!(r.y + r.height <= area.y + area.height, "{w}x{h}: {r:?}");
        }
    }
}

#[test]
fn a_huge_file_falls_back_to_a_wholesale_replace() {
    let old: Vec<String> = (0..MAX_LINES + 1).map(|i| i.to_string()).collect();
    let d = diff_lines(&old, &["one line".to_string()]);
    assert_eq!(stats(&d), (1, MAX_LINES + 1));
}

/// The old text and the new one can both be read off a diff.
#[test]
fn a_diff_holds_both_texts() {
    let (old, new) = ("a\nb\nc\nb", "b\nc\nd\nb");
    let d = diff(old, new);
    let mut before = Vec::new();
    let mut after = Vec::new();
    for c in &d {
        match c {
            Change::Same(l) => {
                before.push(l.as_str());
                after.push(l.as_str());
            }
            Change::Del(l) => before.push(l.as_str()),
            Change::Add(l) => after.push(l.as_str()),
            Change::Skip(_) => unreachable!(),
        }
    }
    assert_eq!(before.join("\n"), old);
    assert_eq!(after.join("\n"), new);
    assert_eq!(stats(&d), (1, 1));
}

#[test]
fn only_y_writes() {
    let press = |c| Some(Key::Press(KeyCode::Char(c), false));
    assert_eq!(review_key(press('y'), 0, 5, 20), Review::Yes);
    assert_eq!(review_key(press('n'), 0, 5, 20), Review::No);
    assert_eq!(review_key(press('q'), 0, 5, 20), Review::No);
    assert_eq!(review_key(Some(Key::Press(KeyCode::Esc, false)), 0, 5, 20), Review::No);
    assert_eq!(review_key(None, 0, 5, 20), Review::No);
    assert_eq!(review_key(Some(Key::Press(KeyCode::PageDown, false)), 0, 5, 20), Review::Stay(5));
    assert_eq!(review_key(Some(Key::Press(KeyCode::End, false)), 0, 5, 20), Review::Stay(19));
    assert_eq!(review_key(Some(Key::Scroll(-3)), 1, 5, 20), Review::Stay(0));
    let drifted = [file_diff("a", Some("x"), None, "y")];
    assert_eq!(
        review_title("Write", &drifted),
        " Write -- y writes, n cancels, CHANGED ON DISK "
    );
}
