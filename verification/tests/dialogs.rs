//! Message boxes, questions, prompts, pick lists and pagers.

use notcron::complete::Completion;
use notcron::ui::dialogs::{
    block_of, candidate_lines, confirm, dismisses, keybinding_line, page, pager, pager_title, pick,
    pick_rows, pick_start, pick_top, prompt_rect, wrapped_height, Asked, Confirmed, Paged, Picked,
    Prompt, PromptOpts, CANDIDATE_ROWS,
};
use notcron::ui::term::{Key, KeyCode, Rect};

#[test]
fn wrapping_counts_plain_lines() {
    assert_eq!(wrapped_height("", 20), 1);
    assert_eq!(wrapped_height("short", 20), 1);
    assert_eq!(wrapped_height("a\nb\nc", 20), 3);
    // Blank lines still occupy a row.
    assert_eq!(wrapped_height("a\n\nb", 20), 3);
}

#[test]
fn wrapping_counts_the_rows_a_paragraph_really_takes() {
    // 30 characters of words at width 10 cannot fit on fewer than 3 rows.
    let text = "one two three four five six seven";
    for width in [8usize, 10, 20, 40] {
        let rows = wrapped_height(text, width);
        assert!(rows >= text.len().div_ceil(width), "{width}: {rows}");
        assert!(rows <= text.split_whitespace().count(), "{width}: {rows}");
    }
    // A single unbreakable word spills across rows.
    assert_eq!(wrapped_height(&"x".repeat(25), 10), 3);
    assert_eq!(wrapped_height(&"x".repeat(10), 10), 1);
}

/// The prompt sizes itself from its help text. A field summary plus its
/// examples runs to several lines, and the box has to keep the error and
/// the keybindings visible underneath -- otherwise a rejected value is
/// indistinguishable from a dead keyboard.
#[test]
fn a_prompt_box_grows_to_fit_a_long_help_and_its_error() {
    let help = "Read username/password from a root-only file instead of the \
                options string.\n\n  Examples: credentials=/etc/cifs-credentials, \
                credentials=/root/.smbcreds-nas";
    let body = format!(
        "{help}\n\n  /etc/creds_\n\n  ! a value cannot contain a comma; it \
         separates options\n  Enter accepts, Esc cancels"
    );
    let inner_w = 70usize;
    let height = wrapped_height(&body, inner_w) + 2;
    assert!(height > 9, "a fixed height of nine would clip this");
    // Everything fits: the box is at least as tall as the text plus its
    // two border rows.
    assert!(height >= body.lines().count() + 2);
    // And it still fits on a normal terminal.
    assert!(
        height <= 24,
        "{height} rows is too tall for an 80x24 screen"
    );
}

// -----------------------------------------------------------------
// Completion and the live note
// -----------------------------------------------------------------

#[test]
fn candidates_are_listed_up_to_a_limit_and_then_counted() {
    assert!(candidate_lines(&[], 40).is_empty());
    let few: Vec<String> = (0..3).map(|i| format!("/bin/x{i}")).collect();
    let lines = candidate_lines(&few, 40);
    assert_eq!(lines.len(), 3);
    assert!(lines[0].contains("/bin/x0"));

    let many: Vec<String> = (0..30).map(|i| format!("/bin/x{i}")).collect();
    let lines = candidate_lines(&many, 40);
    assert_eq!(lines.len(), CANDIDATE_ROWS + 1);
    assert!(lines.last().unwrap().contains("22 more"), "{lines:?}");
}

/// A long candidate is clipped rather than allowed to widen the box.
#[test]
fn candidates_are_clipped_to_the_box() {
    let long = vec!["/".to_string() + &"a".repeat(200)];
    for width in [8usize, 20, 40, 74] {
        for l in candidate_lines(&long, width) {
            assert!(l.chars().count() <= width.max(8), "{width}: {l}");
        }
    }
}

#[test]
fn a_prompt_only_advertises_the_keys_it_has() {
    let plain = PromptOpts::default();
    let line = keybinding_line(&plain, false);
    assert!(line.contains("Enter accepts") && line.contains("Esc cancels"));
    assert!(!line.contains("Tab"), "{line}");
    assert!(!line.contains("Ctrl-A"), "{line}");

    let full = PromptOpts {
        complete: true,
        toggle: Some("system accounts".into()),
        ..Default::default()
    };
    let line = keybinding_line(&full, false);
    assert!(line.contains("Tab completes"), "{line}");
    assert!(line.contains("Ctrl-A shows system accounts"), "{line}");
    assert!(
        keybinding_line(&full, true).contains("Ctrl-A hides"),
        "{line}"
    );
}

/// An absent note or candidate list costs no vertical space at all.
#[test]
fn empty_blocks_take_no_rows() {
    assert_eq!(block_of(&[]), "");
    assert_eq!(block_of(&["a".to_string()]), "\na\n");
}

/// The box has to grow for the candidate list too, or completing a
/// directory pushes the keybindings out of sight -- the same failure the
/// option help caused.
#[test]
fn a_prompt_box_grows_to_fit_its_candidates() {
    let many: Vec<String> = (0..30).map(|i| format!("/usr/bin/thing{i}")).collect();
    let body = format!(
        "help line\n\n  /usr/bin/th_\n{}\n\n  Enter accepts, Esc cancels",
        block_of(&candidate_lines(&many, 70))
    );
    let height = wrapped_height(&body, 70) + 2;
    assert!(height >= body.lines().count() + 2, "{height}");
    assert!(height <= 24, "{height} rows will not fit an 80x24 screen");
}

fn key(code: KeyCode) -> Key {
    Key::Press(code, false)
}

fn typed(c: char) -> Key {
    key(KeyCode::Char(c))
}

fn completion(candidates: &[&str], common: &str) -> Completion {
    Completion {
        candidates: candidates.iter().map(|s| s.to_string()).collect(),
        common: common.to_string(),
    }
}

#[test]
fn only_an_explicit_yes_confirms() {
    assert_eq!(confirm(false, Some(typed('y'))), Confirmed::Answer(true));
    assert_eq!(confirm(true, Some(typed('n'))), Confirmed::Answer(false));
    assert_eq!(confirm(true, Some(key(KeyCode::Esc))), Confirmed::Answer(false));
    assert_eq!(confirm(true, None), Confirmed::Answer(false));
    assert_eq!(confirm(false, Some(key(KeyCode::Tab))), Confirmed::Stay(true));
    assert_eq!(confirm(true, Some(key(KeyCode::Enter))), Confirmed::Answer(true));
    assert_eq!(confirm(false, Some(key(KeyCode::Enter))), Confirmed::Answer(false));
}

#[test]
fn any_key_closes_a_message() {
    assert!(dismisses(Some(typed('x'))) && dismisses(None));
    assert!(!dismisses(Some(Key::Resize)) && !dismisses(Some(Key::Scroll(1))));
}

#[test]
fn a_prompt_edits_completes_and_validates() {
    let opts = PromptOpts { complete: true, ..Default::default() };
    let mut p = Prompt::new("/us");
    assert_eq!(p.press(&opts, typed('r')), Asked::Stay);
    assert_eq!(p.value, "/usr");
    assert_eq!(p.press(&opts, key(KeyCode::Backspace)), Asked::Stay);
    assert_eq!(p.value, "/us");
    assert_eq!(p.press(&opts, key(KeyCode::Tab)), Asked::Complete(false));
    // Completing makes progress first, and lists only when it cannot.
    p.completed(&completion(&["/usr/bin/", "/usr/sbin/"], "/usr/"));
    assert_eq!(p.value, "/usr/");
    assert!(p.candidates.is_empty());
    p.completed(&completion(&["/usr/bin/", "/usr/sbin/"], "/usr/"));
    assert_eq!(p.candidates.len(), 2);
    // Editing drops the list and the complaint.
    p.refused("no such program");
    assert_eq!(p.err, "no such program");
    assert_eq!(p.press(&opts, typed('x')), Asked::Stay);
    assert!(p.candidates.is_empty() && p.err.is_empty());
    p.completed(&completion(&[], "/usr/x"));
    assert_eq!(p.err, "no completions");
    assert_eq!(p.press(&opts, key(KeyCode::Enter)), Asked::Validate);
    assert_eq!(p.press(&opts, key(KeyCode::Esc)), Asked::Cancel);
}

#[test]
fn a_note_is_stale_until_it_is_given_for_the_value() {
    let opts = PromptOpts { note: true, ..Default::default() };
    let mut p = Prompt::new("daily");
    assert!(p.is_stale(&opts));
    assert!(!p.is_stale(&PromptOpts::default()));
    p.noted(vec!["  Next runs:".into()]);
    assert!(!p.is_stale(&opts));
    p.press(&opts, typed('x'));
    assert!(p.is_stale(&opts));
}

#[test]
fn a_pick_list_wraps_scrolls_and_takes_digits() {
    assert_eq!(pick_start(0, 3), None);
    assert_eq!(pick_start(3, 9), Some(2));
    assert_eq!(pick(Some(key(KeyCode::Down)), 1, 3), Picked::Stay(2));
    assert_eq!(pick(Some(typed('2')), 0, 3), Picked::Chosen(1));
    assert_eq!(pick(Some(key(KeyCode::Enter)), 1, 3), Picked::Chosen(1));
    assert_eq!(pick(Some(key(KeyCode::Esc)), 1, 3), Picked::Cancel);
    assert_eq!(pick(None, 1, 3), Picked::Cancel);
    assert_eq!(pick_top(9, 4), 6);
    assert_eq!(pick_top(2, 4), 0);
    let items: Vec<String> = (0..10).map(|i| format!("item {i}")).collect();
    let rows = pick_rows(&items, 9, 4);
    assert_eq!(rows.len(), 4);
    assert!(rows[3].contains("item 9") && rows[3].contains('>'), "{rows:?}");
}

#[test]
fn a_pager_scrolls_within_its_text() {
    assert_eq!(pager(Some(key(KeyCode::PageDown)), 0, 10, 25), Paged::Stay(10));
    assert_eq!(pager(Some(key(KeyCode::End)), 0, 10, 25), Paged::Stay(24));
    assert_eq!(pager(Some(typed('q')), 0, 10, 25), Paged::Close);
    assert_eq!(pager(None, 0, 10, 25), Paged::Close);
    let lines: Vec<String> = (0..5).map(|i| i.to_string()).collect();
    assert_eq!(page(&lines, 3, 10), vec!["3", "4"]);
    assert!(pager_title("Log", 2, 25).contains("3/25"), "{}", pager_title("Log", 2, 25));
}

#[test]
fn prompts_stay_inside_every_frame() {
    for w in 0..=30u16 {
        for h in 0..=30u16 {
            let area = Rect { x: 1, y: 2, width: w, height: h };
            let r = prompt_rect(area, "help\n\n  value_\n\n  Enter accepts");
            assert!(r.x + r.width <= area.x + w && r.y + r.height <= area.y + h, "{w}x{h}");
        }
    }
}

#[test]
fn a_prompt_ends_only_on_a_value_that_is_accepted() {
    let mut p = Prompt::new("25:00");
    assert_eq!(p.judged(&Err("hour must be 0-23".to_string())), None);
    assert_eq!(p.err, "hour must be 0-23");
    assert_eq!(p.value, "25:00");
    assert_eq!(p.judged(&Ok(())), Some("25:00".to_string()));
}
