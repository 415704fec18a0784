//! The text editor.

use notcron::ui::editor::{Buffer, Verdict};
use notcron::ui::term::{Key, KeyCode};

#[test]
fn empty_input_starts_with_one_blank_line() {
    let b = Buffer::new("");
    assert_eq!(b.lines, [""]);
    assert_eq!(b.text(), "");
}

#[test]
fn typing_and_newlines_build_text() {
    let mut b = Buffer::new("");
    for c in "[Service]".chars() {
        b.insert(c);
    }
    b.newline();
    for c in "Nice=19".chars() {
        b.insert(c);
    }
    assert_eq!(b.text(), "[Service]\nNice=19");
    assert_eq!((b.row, b.col), (1, 7));
}

#[test]
fn backspace_joins_lines() {
    let mut b = Buffer::new("ab\ncd");
    b.row = 1;
    b.col = 0;
    b.backspace();
    assert_eq!(b.lines, ["abcd"]);
    assert_eq!((b.row, b.col), (0, 2));
}

#[test]
fn delete_at_end_of_line_joins_the_next() {
    let mut b = Buffer::new("ab\ncd");
    b.row = 0;
    b.col = 2;
    b.delete();
    assert_eq!(b.lines, ["abcd"]);
}

#[test]
fn kill_line_never_empties_the_buffer() {
    let mut b = Buffer::new("only");
    b.kill_line();
    assert_eq!(b.lines, [""]);
    assert_eq!(b.row, 0);
}

#[test]
fn trailing_blank_lines_are_trimmed_on_save() {
    let mut b = Buffer::new("Nice=19");
    b.end();
    b.newline();
    b.newline();
    assert_eq!(b.text(), "Nice=19");
}

#[test]
fn editing_is_character_oriented_not_byte_oriented() {
    let mut b = Buffer::new("caf\u{e9}");
    b.end();
    assert_eq!(b.col, 4);
    b.backspace();
    assert_eq!(b.text(), "caf");
    b.insert('\u{e9}');
    b.insert('s');
    assert_eq!(b.text(), "caf\u{e9}s");
}

#[test]
fn cursor_motion_stays_in_bounds() {
    let mut b = Buffer::new("ab\ncdef");
    b.move_up();
    assert_eq!((b.row, b.col), (0, 0));
    b.move_left();
    assert_eq!((b.row, b.col), (0, 0));
    b.end();
    b.move_right(); // wraps to the next line
    assert_eq!((b.row, b.col), (1, 0));
    b.end();
    b.move_right(); // already at the very end
    assert_eq!((b.row, b.col), (1, 4));
    b.move_down();
    assert_eq!(b.row, 1);
}

#[test]
fn a_long_line_clamps_the_column_when_moving_up() {
    let mut b = Buffer::new("ab\nlonger line");
    b.row = 1;
    b.end();
    b.move_up();
    assert_eq!((b.row, b.col), (0, 2));
}

fn key(code: KeyCode) -> Key {
    Key::Press(code, false)
}

fn typed(c: char) -> Key {
    key(KeyCode::Char(c))
}

fn ctrl(c: char) -> Key {
    Key::Press(KeyCode::Char(c), true)
}

#[test]
fn keys_edit_and_decide() {
    let mut b = Buffer::new("");
    for c in "Nice=19".chars() {
        assert_eq!(b.press(typed(c)), Verdict::Stay);
    }
    assert_eq!(b.press(key(KeyCode::Enter)), Verdict::Stay);
    assert_eq!(b.press(typed('x')), Verdict::Stay);
    assert_eq!(b.lines, ["Nice=19", "x"]);
    assert_eq!(b.press(ctrl('s')), Verdict::Save);
    assert_eq!(b.press(key(KeyCode::Esc)), Verdict::Cancel);
    assert_eq!(b.press(ctrl('k')), Verdict::Stay);
    assert_eq!(b.lines, ["Nice=19"]);
}

/// Backspace takes back what was typed, and a line break.
#[test]
fn backspace_undoes_typing_and_breaking() {
    let mut b = Buffer::new("ab\ncd");
    b.row = 0;
    b.col = 1;
    b.insert('x');
    assert_eq!(b.lines, ["axb", "cd"]);
    b.backspace();
    assert_eq!((b.lines.join("|"), b.row, b.col), ("ab|cd".to_string(), 0, 1));
    b.newline();
    assert_eq!(b.lines, ["a", "b", "cd"]);
    b.backspace();
    assert_eq!((b.lines.join("|"), b.row, b.col), ("ab|cd".to_string(), 0, 1));
}
