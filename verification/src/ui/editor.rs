//! The manual-entry escape hatch: a small multi-line text editor.
//!
//! Used for free-form unit directives (whole `[Section]` blocks are fine) and
//! for `Environment=` lists, one `KEY=VALUE` per line.

use crate::parts;
use crate::text;
use crate::ui::term::{Key, KeyCode};
use vstd::prelude::*;

verus! {

broadcast use vstd::string::group_string_axioms;

/// A line-oriented text buffer with a single cursor. Column positions are
/// character indices, not bytes, so non-ASCII text edits correctly.
#[derive(Debug, PartialEq, Eq)]
pub struct Buffer {
    pub lines: Vec<String>,
    pub row: usize,
    pub col: usize,
}

/// The contents of a [`Buffer`].
#[verifier::ext_equal]
pub struct BufferView {
    pub lines: Seq<Seq<char>>,
    pub row: int,
    pub col: int,
}

impl View for Buffer {
    type V = BufferView;

    open spec fn view(&self) -> BufferView {
        BufferView {
            lines: text::texts(self.lines@),
            row: self.row as int,
            col: self.col as int,
        }
    }
}

impl Clone for Buffer {
    fn clone(&self) -> (r: Buffer)
        ensures
            r@ == self@,
    {
        Buffer { lines: text::clone_strings(&self.lines), row: self.row, col: self.col }
    }
}

// ---------------------------------------------------------------------------
// What the operations mean
// ---------------------------------------------------------------------------

/// The lines up to the last one that is not blank.
pub open spec fn without_blank_end(lines: Seq<Seq<char>>) -> Seq<Seq<char>>
    decreases lines.len(),
{
    if lines.len() > 0 && text::is_blank(lines.last()) {
        without_blank_end(lines.drop_last())
    } else {
        lines
    }
}

impl BufferView {
    /// Whether the cursor is in the text.
    pub open spec fn in_bounds(self) -> bool {
        &&& 0 <= self.row < self.lines.len()
        &&& 0 <= self.col <= self.lines[self.row].len()
    }

    /// The number of characters in a line; none where there is no such line.
    pub open spec fn line_len_of(self, row: int) -> int {
        if 0 <= row < self.lines.len() {
            self.lines[row].len() as int
        } else {
            0
        }
    }

    /// The buffer with its cursor moved into the text.
    pub open spec fn clamped(self) -> BufferView {
        let row = if self.row >= self.lines.len() {
            if self.lines.len() > 0 {
                self.lines.len() - 1
            } else {
                0
            }
        } else {
            self.row
        };
        let end = self.line_len_of(row);
        BufferView {
            lines: self.lines,
            row,
            col: if self.col < end {
                self.col
            } else {
                end
            },
        }
    }

    /// The text of the buffer.
    pub open spec fn text_of(self) -> Seq<char> {
        parts::join_of(without_blank_end(self.lines), "\n"@)
    }

    /// With `c` put in at the cursor.
    pub open spec fn inserted(self, c: char) -> BufferView {
        let b = self.clamped();
        BufferView {
            lines: b.lines.update(b.row, b.lines[b.row].insert(b.col, c)),
            row: b.row,
            col: b.col + 1,
        }
    }

    /// With the line broken at the cursor.
    pub open spec fn broken(self) -> BufferView {
        let b = self.clamped();
        let line = b.lines[b.row];
        BufferView {
            lines: b.lines.update(b.row, line.take(b.col)).insert(b.row + 1, line.skip(b.col)),
            row: b.row + 1,
            col: 0,
        }
    }

    /// With line `i + 1` put behind line `i`.
    pub open spec fn joined_lines(self, i: int) -> Seq<Seq<char>> {
        self.lines.update(i, self.lines[i] + self.lines[i + 1]).remove(i + 1)
    }

    /// With the character before the cursor, or the line break, taken out.
    pub open spec fn backspaced(self) -> BufferView {
        let b = self.clamped();
        if b.col > 0 {
            BufferView {
                lines: b.lines.update(b.row, b.lines[b.row].remove(b.col - 1)),
                row: b.row,
                col: b.col - 1,
            }
        } else if b.row > 0 {
            BufferView {
                lines: b.joined_lines(b.row - 1),
                row: b.row - 1,
                col: b.lines[b.row - 1].len() as int,
            }
        } else {
            b
        }
    }

    /// With the character behind the cursor, or the line break, taken out.
    pub open spec fn deleted(self) -> BufferView {
        let b = self.clamped();
        if b.col < b.lines[b.row].len() {
            BufferView { lines: b.lines.update(b.row, b.lines[b.row].remove(b.col)), ..b }
        } else if b.row + 1 < b.lines.len() {
            BufferView { lines: b.joined_lines(b.row), ..b }
        } else {
            b
        }
    }

    /// Without the line of the cursor.
    pub open spec fn killed(self) -> BufferView {
        let b = self.clamped();
        let rest = b.lines.remove(b.row);
        BufferView {
            lines: if rest.len() == 0 {
                seq![seq![]]
            } else {
                rest
            },
            row: if b.row < rest.len() || b.row == 0 {
                b.row
            } else {
                b.row - 1
            },
            col: 0,
        }
    }

    /// With the cursor one line up.
    pub open spec fn up(self) -> BufferView {
        BufferView {
            row: if self.row > 0 {
                self.row - 1
            } else {
                0
            },
            ..self
        }.clamped()
    }

    /// With the cursor one line down.
    pub open spec fn down(self) -> BufferView {
        BufferView {
            row: if self.row + 1 < self.lines.len() {
                self.row + 1
            } else {
                self.row
            },
            ..self
        }.clamped()
    }

    /// With the cursor one character back, across line breaks.
    pub open spec fn left(self) -> BufferView {
        if self.col > 0 {
            BufferView { col: self.col - 1, ..self }
        } else if self.row > 0 {
            BufferView { row: self.row - 1, col: self.line_len_of(self.row - 1), ..self }
        } else {
            self
        }
    }

    /// With the cursor one character on, across line breaks.
    pub open spec fn right(self) -> BufferView {
        if self.col < self.line_len_of(self.row) {
            BufferView { col: self.col + 1, ..self }
        } else if self.row + 1 < self.lines.len() {
            BufferView { row: self.row + 1, col: 0, ..self }
        } else {
            self
        }
    }
}

// ---------------------------------------------------------------------------
// The operations
// ---------------------------------------------------------------------------

impl Buffer {
    pub fn new(initial: &str) -> (r: Buffer)
        ensures
            r@.lines == if parts::lines_of(initial@).len() == 0 {
                seq![Seq::<char>::empty()]
            } else {
                parts::lines_of(initial@)
            },
            r@.row == 0,
            r@.col == 0,
            r@.in_bounds(),
    {
        let mut lines = parts::lines(initial);
        if lines.len() == 0 {
            lines.push(String::new());
            assert(text::texts(lines@) =~= seq![Seq::<char>::empty()]);
        }
        Buffer { lines, row: 0, col: 0 }
    }

    /// The buffer as text, with trailing blank lines trimmed. An all-blank
    /// buffer becomes the empty string, which is how "no manual directives"
    /// is represented in the model.
    pub fn text(&self) -> (r: String)
        ensures
            r@ == self@.text_of(),
    {
        let mut lines = text::clone_strings(&self.lines);
        while lines.len() > 0 && text::blank(lines[lines.len() - 1].as_str())
            invariant
                without_blank_end(text::texts(lines@)) == without_blank_end(self@.lines),
            decreases lines@.len(),
        {
            let ghost before = text::texts(lines@);
            assert(before.last() == lines@[lines@.len() - 1]@);
            lines.pop();
            assert(text::texts(lines@) =~= before.drop_last());
        }
        proof {
            let now = text::texts(lines@);
            if now.len() > 0 {
                assert(now.last() == lines@[lines@.len() - 1]@);
            }
        }
        parts::join(&lines, "\n")
    }

    fn line_len(&self, row: usize) -> (r: usize)
        ensures
            r == self@.line_len_of(row as int),
    {
        if row < self.lines.len() {
            self.lines[row].as_str().unicode_len()
        } else {
            0
        }
    }

    fn clamp(&mut self)
        ensures
            final(self)@ == old(self)@.clamped(),
    {
        if self.row >= self.lines.len() {
            self.row = if self.lines.len() > 0 {
                self.lines.len() - 1
            } else {
                0
            };
        }
        let end: usize = self.line_len(self.row);
        if self.col >= end {
            self.col = end;
        }
    }

    /// Replaces the line of the cursor.
    fn put_line(&mut self, line: String)
        requires
            old(self).row < old(self).lines@.len(),
        ensures
            final(self)@ == (BufferView {
                lines: old(self)@.lines.update(old(self)@.row, line@),
                ..old(self)@
            }),
    {
        let ghost before = self@.lines;
        let i: usize = self.row;
        self.lines.set(i, line);
        assert(self@.lines =~= before.update(i as int, line@));
    }

    pub fn insert(&mut self, c: char)
        requires
            old(self).lines@.len() > 0,
        ensures
            final(self)@ == old(self)@.inserted(c),
    {
        self.clamp();
        let ghost b = self@;
        let line = self.lines[self.row].as_str();
        let n: usize = line.unicode_len();
        let head = line.substring_char(0, self.col);
        let tail = line.substring_char(self.col, n);
        let mut out = head.to_owned();
        out.push(c);
        out.push_str(tail);
        assert(out@ =~= b.lines[b.row].insert(b.col, c));
        let longer: usize = out.as_str().unicode_len();
        assert(longer == n + 1);
        self.put_line(out);
        self.col = self.col + 1;
    }

    pub fn newline(&mut self)
        requires
            old(self).lines@.len() > 0,
        ensures
            final(self)@ == old(self)@.broken(),
    {
        self.clamp();
        let ghost b = self@;
        let line = self.lines[self.row].as_str();
        let n: usize = line.unicode_len();
        let head = line.substring_char(0, self.col).to_owned();
        let tail = line.substring_char(self.col, n).to_owned();
        proof {
            assert(head@ =~= b.lines[b.row].take(b.col));
            assert(tail@ =~= b.lines[b.row].skip(b.col));
        }
        self.put_line(head);
        let ghost mid = self@.lines;
        assert(mid.len() == b.lines.len());
        let n: usize = self.lines.len();
        assert(self.row < n);
        let i: usize = self.row + 1;
        self.lines.insert(i, tail);
        assert(self@.lines =~= mid.insert(i as int, tail@));
        self.row = i;
        self.col = 0;
    }

    /// Puts the line behind `i` at the end of it.
    fn join_next(&mut self, i: usize)
        requires
            i + 1 < old(self).lines@.len(),
        ensures
            final(self)@.lines == old(self)@.joined_lines(i as int),
            final(self)@.row == old(self)@.row,
            final(self)@.col == old(self)@.col,
    {
        let ghost before = self@.lines;
        let n: usize = self.lines.len();
        assert(i + 1 < n);
        let next = self.lines.remove(i + 1);
        let joined = text::cat2(self.lines[i].as_str(), next.as_str());
        self.lines.set(i, joined);
        assert(self@.lines =~= before.update(i as int, before[i as int] + before[i + 1]).remove(
            i + 1,
        ));
    }

    /// Takes the character at `at` out of the line of the cursor.
    fn take_out(&mut self, at: usize)
        requires
            old(self).row < old(self).lines@.len(),
            at < old(self)@.lines[old(self)@.row].len(),
        ensures
            final(self)@ == (BufferView {
                lines: old(self)@.lines.update(
                    old(self)@.row,
                    old(self)@.lines[old(self)@.row].remove(at as int),
                ),
                ..old(self)@
            }),
    {
        let ghost b = self@;
        let line = self.lines[self.row].as_str();
        let n: usize = line.unicode_len();
        let out = text::cat2(line.substring_char(0, at), line.substring_char(at + 1, n));
        assert(out@ =~= b.lines[b.row].remove(at as int));
        self.put_line(out);
    }

    pub fn backspace(&mut self)
        requires
            old(self).lines@.len() > 0,
        ensures
            final(self)@ == old(self)@.backspaced(),
    {
        self.clamp();
        if self.col > 0 {
            let at: usize = self.col - 1;
            self.take_out(at);
            self.col = at;
        } else if self.row > 0 {
            let i: usize = self.row - 1;
            let end: usize = self.line_len(i);
            self.join_next(i);
            self.row = i;
            self.col = end;
        }
    }

    pub fn delete(&mut self)
        requires
            old(self).lines@.len() > 0,
        ensures
            final(self)@ == old(self)@.deleted(),
    {
        self.clamp();
        let end: usize = self.line_len(self.row);
        if self.col < end {
            let at: usize = self.col;
            self.take_out(at);
        } else if self.row < self.lines.len() - 1 {
            let i: usize = self.row;
            self.join_next(i);
        }
    }

    /// Delete the current line, the way Ctrl-K works here.
    pub fn kill_line(&mut self)
        requires
            old(self).lines@.len() > 0,
        ensures
            final(self)@ == old(self)@.killed(),
    {
        self.clamp();
        let ghost b = self@;
        let i: usize = self.row;
        self.lines.remove(i);
        assert(self@.lines =~= b.lines.remove(b.row));
        if self.lines.len() == 0 {
            self.lines.push(String::new());
            assert(self@.lines =~= seq![seq![]]);
        }
        if self.row >= self.lines.len() {
            self.row = self.lines.len() - 1;
        }
        self.col = 0;
    }

    pub fn move_up(&mut self)
        ensures
            final(self)@ == old(self)@.up(),
    {
        if self.row > 0 {
            self.row = self.row - 1;
        }
        self.clamp();
    }

    pub fn move_down(&mut self)
        ensures
            final(self)@ == old(self)@.down(),
    {
        if self.lines.len() > 0 && self.row < self.lines.len() - 1 {
            self.row = self.row + 1;
        }
        self.clamp();
    }

    pub fn move_left(&mut self)
        ensures
            final(self)@ == old(self)@.left(),
    {
        if self.col > 0 {
            self.col = self.col - 1;
        } else if self.row > 0 {
            self.row = self.row - 1;
            self.col = self.line_len(self.row);
        }
    }

    pub fn move_right(&mut self)
        ensures
            final(self)@ == old(self)@.right(),
    {
        let end: usize = self.line_len(self.row);
        if self.col < end {
            self.col = self.col + 1;
        } else if self.lines.len() > 0 && self.row < self.lines.len() - 1 {
            self.row = self.row + 1;
            self.col = 0;
        }
    }

    pub fn home(&mut self)
        ensures
            final(self)@ == (BufferView { col: 0, ..old(self)@ }),
    {
        self.col = 0;
    }

    pub fn end(&mut self)
        ensures
            final(self)@ == (BufferView {
                col: old(self)@.line_len_of(old(self)@.row),
                ..old(self)@
            }),
    {
        self.col = self.line_len(self.row);
    }
}

// ---------------------------------------------------------------------------
// Keys
// ---------------------------------------------------------------------------

/// What a key does to the editor.
#[derive(Debug, Clone, Copy, PartialEq, Eq, Structural)]
pub enum Verdict {
    /// Go on editing.
    Stay,
    /// Keep the text.
    Save,
    /// Throw the changes away.
    Cancel,
}

/// `n` blanks typed at the cursor.
pub open spec fn blanks_typed(b: BufferView, n: nat) -> BufferView
    decreases n,
{
    if n == 0 {
        b
    } else {
        blanks_typed(b, (n - 1) as nat).inserted(' ')
    }
}

/// Whether a key ends the editing, and how.
pub open spec fn verdict_of(k: Key) -> Verdict {
    if k.controls('s') {
        Verdict::Save
    } else if k.code_of() == Some(KeyCode::Esc) {
        Verdict::Cancel
    } else {
        Verdict::Stay
    }
}

/// The buffer after a key.
pub open spec fn after_key(b: BufferView, k: Key) -> BufferView {
    match k {
        Key::Scroll(d) => if d < 0 {
            b.up()
        } else {
            b.down()
        },
        Key::Press(code, _) => if k.controls('s') {
            b
        } else if k.controls('k') {
            b.killed()
        } else {
            match code {
                KeyCode::Enter => b.broken(),
                KeyCode::Backspace => b.backspaced(),
                KeyCode::Delete => b.deleted(),
                KeyCode::Up => b.up(),
                KeyCode::Down => b.down(),
                KeyCode::Left => b.left(),
                KeyCode::Right => b.right(),
                KeyCode::Home => BufferView { col: 0, ..b },
                KeyCode::End => BufferView { col: b.line_len_of(b.row), ..b },
                KeyCode::Tab => blanks_typed(b, 4),
                KeyCode::Char(c) => b.inserted(c),
                _ => b,
            }
        },
        _ => b,
    }
}

impl Buffer {
    /// Answers a key: edits the text, or says that editing is over.
    pub fn press(&mut self, k: Key) -> (r: Verdict)
        requires
            old(self)@.in_bounds(),
        ensures
            r == verdict_of(k),
            final(self)@ == after_key(old(self)@, k),
            final(self)@.in_bounds(),
    {
        proof {
            law_keys_stay_in_bounds(self@, k);
        }
        match k {
            Key::Scroll(d) => {
                if d < 0 {
                    self.move_up();
                } else {
                    self.move_down();
                }
                return Verdict::Stay;
            },
            Key::Press(code, _) => {
                if k.is_ctrl('s') {
                    return Verdict::Save;
                }
                if k.is_ctrl('k') {
                    self.kill_line();
                    return Verdict::Stay;
                }
                match code {
                    KeyCode::Esc => {
                        return Verdict::Cancel;
                    },
                    KeyCode::Enter => self.newline(),
                    KeyCode::Backspace => self.backspace(),
                    KeyCode::Delete => self.delete(),
                    KeyCode::Up => self.move_up(),
                    KeyCode::Down => self.move_down(),
                    KeyCode::Left => self.move_left(),
                    KeyCode::Right => self.move_right(),
                    KeyCode::Home => self.home(),
                    KeyCode::End => self.end(),
                    KeyCode::Tab => {
                        let ghost b = self@;
                        proof {
                            lemma_inserted_in_bounds(b, ' ');
                            lemma_inserted_in_bounds(b.inserted(' '), ' ');
                            lemma_inserted_in_bounds(b.inserted(' ').inserted(' '), ' ');
                            reveal_with_fuel(blanks_typed, 5);
                        }
                        self.insert(' ');
                        self.insert(' ');
                        self.insert(' ');
                        self.insert(' ');
                    },
                    KeyCode::Char(c) => self.insert(c),
                    _ => {},
                }
                Verdict::Stay
            },
            _ => Verdict::Stay,
        }
    }
}

// ---------------------------------------------------------------------------
// Drawing
// ---------------------------------------------------------------------------

/// The first line to show: the one shown before, moved just enough to keep
/// the line of the cursor among `visible` lines.
pub open spec fn scrolled_of(row: int, top: int, visible: int) -> int {
    if row < top {
        row
    } else if row >= top + visible {
        row + 1 - visible
    } else {
        top
    }
}

/// The first line to show.
pub fn scrolled(row: usize, top: usize, visible: usize) -> (r: usize)
    requires
        visible > 0,
    ensures
        r == scrolled_of(row as int, top as int, visible as int),
        r <= row < r + visible,
{
    if row < top {
        row
    } else if row - top >= visible {
        row - visible + 1
    } else {
        top
    }
}

/// A line with a caret in it.
pub open spec fn with_caret(line: Seq<char>, col: int) -> Seq<char> {
    line.insert(
        if col < line.len() {
            col
        } else {
            line.len() as int
        },
        '\u{2502}',
    )
}

/// The lines from `top` up to, not with, `end`, each ended by a newline, with
/// a caret where the cursor is.
pub open spec fn shown_lines(b: BufferView, top: int, end: int) -> Seq<char>
    decreases end - top,
{
    if end <= top {
        seq![]
    } else {
        let i = end - 1;
        shown_lines(b, top, i) + (if i == b.row {
            with_caret(b.lines[i], b.col)
        } else {
            b.lines[i]
        }).push('\n')
    }
}

/// The number of the line behind the last one that is shown.
pub open spec fn last_shown(b: BufferView, top: int, visible: int) -> int {
    if top + visible < b.lines.len() {
        top + visible
    } else {
        b.lines.len() as int
    }
}

impl Buffer {
    /// What the editor shows: the help, an empty line, and as many lines as
    /// there is room for.
    pub fn screen(&self, help: &str, top: usize, visible: usize) -> (r: String)
        ensures
            r@ == help@ + "\n\n"@ + shown_lines(
                self@,
                top as int,
                last_shown(self@, top as int, visible as int),
            ),
    {
        let mut out = text::cat2(help, "\n\n");
        let ghost head = out@;
        let n: usize = self.lines.len();
        let end: usize = if top < n && n - top > visible {
            top + visible
        } else {
            n
        };
        let mut i: usize = top;
        assert(head + shown_lines(self@, top as int, top as int) =~= head);
        while i < end
            invariant
                end <= n == self.lines@.len(),
                top <= i,
                i <= end || i == top,
                out@ == head + shown_lines(self@, top as int, i as int),
            decreases end - i,
        {
            let line = self.lines[i].as_str();
            let ghost before = out@;
            if i == self.row {
                let m: usize = line.unicode_len();
                let at: usize = if self.col < m {
                    self.col
                } else {
                    m
                };
                out.push_str(line.substring_char(0, at));
                out.push('\u{2502}');
                out.push_str(line.substring_char(at, m));
                assert(out@ =~= before + with_caret(self@.lines[i as int], self@.col));
            } else {
                out.push_str(line);
            }
            out.push('\n');
            assert(out@ =~= head + shown_lines(self@, top as int, i + 1));
            i += 1;
        }
        out
    }
}

// ---------------------------------------------------------------------------
// What the editor promises
// ---------------------------------------------------------------------------

proof fn lemma_inserted_in_bounds(b: BufferView, c: char)
    requires
        b.in_bounds(),
    ensures
        b.inserted(c).in_bounds(),
{
}

/// Whatever key is pressed, the cursor stays in the text, and the text keeps
/// at least one line.
pub proof fn law_keys_stay_in_bounds(b: BufferView, k: Key)
    requires
        b.in_bounds(),
    ensures
        after_key(b, k).in_bounds(),
{
    lemma_inserted_in_bounds(b, ' ');
    lemma_inserted_in_bounds(b.inserted(' '), ' ');
    lemma_inserted_in_bounds(b.inserted(' ').inserted(' '), ' ');
    reveal_with_fuel(blanks_typed, 5);
}

/// Taking back a character that was typed gives the buffer as it was.
pub proof fn law_backspace_undoes_typing(b: BufferView, c: char)
    requires
        b.in_bounds(),
    ensures
        b.inserted(c).backspaced() == b,
{
    let t = b.inserted(c);
    let line = b.lines[b.row];
    assert(line.insert(b.col, c).remove(b.col) =~= line);
    assert(t.lines.update(b.row, line) =~= b.lines);
    assert(t.backspaced() =~= b);
}

/// Taking back a line break that was typed gives the buffer as it was.
pub proof fn law_backspace_undoes_a_line_break(b: BufferView)
    requires
        b.in_bounds(),
    ensures
        b.broken().backspaced() == b,
{
    let t = b.broken();
    let line = b.lines[b.row];
    assert(line.take(b.col) + line.skip(b.col) =~= line);
    assert(t.lines[b.row] =~= line.take(b.col));
    assert(t.lines[b.row + 1] =~= line.skip(b.col));
    assert(t.joined_lines(b.row) =~= b.lines);
    assert(t.backspaced() =~= b);
}

/// A right move takes back a left one that moved, and the other way round.
pub proof fn law_left_and_right(b: BufferView)
    requires
        b.in_bounds(),
    ensures
        b.left() != b ==> b.left().right() == b,
        b.right() != b ==> b.right().left() == b,
{
    if b.left() != b {
        assert(b.left().right() =~= b);
    }
    if b.right() != b {
        assert(b.right().left() =~= b);
    }
}

/// A typed character stands before the cursor, and the rest of the text is
/// as it was.
pub proof fn law_typing_goes_to_the_cursor(b: BufferView, c: char)
    requires
        b.in_bounds(),
    ensures
        ({
            let t = b.inserted(c);
            let line = b.lines[b.row];
            &&& t.row == b.row && t.col == b.col + 1
            &&& t.lines.len() == b.lines.len()
            &&& t.lines[b.row] == line.take(b.col) + seq![c] + line.skip(b.col)
            &&& forall|i: int|
                0 <= i < b.lines.len() && i != b.row ==> #[trigger] t.lines[i] == b.lines[i]
        }),
{
    let line = b.lines[b.row];
    assert(line.insert(b.col, c) =~= line.take(b.col) + seq![c] + line.skip(b.col));
}

/// Deleting takes what a step to the right and a backspace take.
pub proof fn law_delete_takes_the_next(b: BufferView)
    requires
        b.in_bounds(),
        b.right() != b,
    ensures
        b.deleted() == b.right().backspaced(),
{
    assert(b.deleted() =~= b.right().backspaced());
}

/// Killing a line takes that line and no other; a text keeps one line.
pub proof fn law_killing_takes_one_line(b: BufferView)
    requires
        b.in_bounds(),
    ensures
        b.lines.len() > 1 ==> b.killed().lines == b.lines.take(b.row) + b.lines.skip(b.row + 1),
        b.lines.len() == 1 ==> b.killed().lines == seq![Seq::<char>::empty()],
        b.killed().col == 0,
{
    if b.lines.len() > 1 {
        assert(b.lines.remove(b.row) =~= b.lines.take(b.row) + b.lines.skip(b.row + 1));
    } else {
        assert(b.lines.remove(b.row).len() == 0);
    }
}

/// Moving changes no text, and goes by one line at a time.
pub proof fn law_moving_changes_no_text(b: BufferView)
    requires
        b.in_bounds(),
    ensures
        b.up().lines == b.lines && b.down().lines == b.lines,
        b.left().lines == b.lines && b.right().lines == b.lines,
        b.row > 0 ==> b.up().row == b.row - 1,
        b.row + 1 < b.lines.len() ==> b.down().row == b.row + 1,
{
}

} // verus!
