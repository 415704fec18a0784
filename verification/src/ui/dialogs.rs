//! Modal dialogs: message box, confirm, single-line prompt, list picker and a
//! scrollable pager. Each is a small state that takes one key at a time.

use crate::complete::{Completion, CompletionView};
use crate::number;
use crate::parts;
use crate::text;
use crate::ui::diff;
use crate::ui::diff::Scrolled;
use crate::ui::term;
use crate::ui::term::{Key, KeyCode, Rect};
use crate::unit::escape;
use vstd::prelude::*;

verus! {

broadcast use vstd::string::group_string_axioms;

/// The title of a dialog, as it stands in the border.
pub fn dialog_title(title: &str) -> (r: String)
    ensures
        r@ == " "@ + title@ + " "@,
{
    text::cat3(" ", title, " ")
}

// ---------------------------------------------------------------------------
// Message box and confirmation
// ---------------------------------------------------------------------------

fn clamped(n: usize, most: u16) -> (r: u16)
    ensures
        r == (if n < most {
            n as int
        } else {
            most as int
        }),
{
    if n < most as usize {
        n as u16
    } else {
        most
    }
}

/// Where a message box stands: tall enough for up to twenty lines.
pub fn msgbox_rect(area: Rect, body: &str) -> (r: Rect)
    requires
        area.fits(),
    ensures
        r == term::popup_of(
            area,
            70,
            4 + (if parts::lines_of(body@).len() < 20 {
                parts::lines_of(body@).len() as int
            } else {
                20
            }),
        ),
        r.is_inside(area),
{
    let lines = parts::lines(body);
    assert(text::texts(lines@).len() == lines@.len());
    term::popup_rect(area, 70, clamped(lines.len(), 20) + 4)
}

/// The text of a message box.
pub fn msgbox_text(body: &str) -> (r: String)
    ensures
        r@ == body@ + "\n\nPress any key to close"@,
{
    text::cat2(body, "\n\nPress any key to close")
}

/// Whether an event closes a message box: any key or click does, and so does
/// a lost terminal.
pub fn dismisses(k: Option<Key>) -> (r: bool)
    ensures
        r == match k {
            None => true,
            Some(Key::Resize) => false,
            Some(Key::Scroll(_)) => false,
            _ => true,
        },
{
    match k {
        None => true,
        Some(Key::Resize) => false,
        Some(Key::Scroll(_)) => false,
        _ => true,
    }
}

/// Where a confirmation stands: tall enough for up to sixteen lines.
pub fn confirm_rect(area: Rect, body: &str) -> (r: Rect)
    requires
        area.fits(),
    ensures
        r == term::popup_of(
            area,
            70,
            5 + (if parts::lines_of(body@).len() < 16 {
                parts::lines_of(body@).len() as int
            } else {
                16
            }),
        ),
        r.is_inside(area),
{
    let lines = parts::lines(body);
    assert(text::texts(lines@).len() == lines@.len());
    term::popup_rect(area, 70, clamped(lines.len(), 16) + 5)
}

/// The text of a confirmation, with the focused button in brackets.
pub fn confirm_text(body: &str, yes: bool) -> (r: String)
    ensures
        r@ == body@ + (if yes {
            "\n\n  [(Yes)]   [ No ]"@
        } else {
            "\n\n  [ Yes ]   [(No)]"@
        }),
{
    let buttons = if yes {
        "\n\n  [(Yes)]   [ No ]"
    } else {
        "\n\n  [ Yes ]   [(No)]"
    };
    text::cat2(body, buttons)
}

/// What a confirmation comes to.
#[derive(Debug, Clone, Copy, PartialEq, Eq, Structural)]
pub enum Confirmed {
    /// It goes on, with this button focused.
    Stay(bool),
    Answer(bool),
}

/// What a key does to a confirmation.
pub open spec fn confirmed_of(yes: bool, k: Option<Key>) -> Confirmed {
    match k {
        None => Confirmed::Answer(false),
        Some(k) => match k {
            Key::Press(KeyCode::Left, _) => Confirmed::Stay(!yes),
            Key::Press(KeyCode::Right, _) => Confirmed::Stay(!yes),
            Key::Press(KeyCode::Tab, _) => Confirmed::Stay(!yes),
            Key::Press(KeyCode::Enter, _) => Confirmed::Answer(yes),
            Key::Press(KeyCode::Esc, _) => Confirmed::Answer(false),
            _ => if k.types('y') || k.types('Y') {
                Confirmed::Answer(true)
            } else if k.types('n') || k.types('N') {
                Confirmed::Answer(false)
            } else {
                Confirmed::Stay(yes)
            },
        },
    }
}

/// Answers a key of a yes/no question. `false` is the default, the Escape
/// answer and that of a lost terminal.
pub fn confirm(yes: bool, k: Option<Key>) -> (r: Confirmed)
    ensures
        r == confirmed_of(yes, k),
{
    let k = match k {
        None => {
            return Confirmed::Answer(false);
        },
        Some(k) => k,
    };
    match k {
        Key::Press(KeyCode::Left, _) => Confirmed::Stay(!yes),
        Key::Press(KeyCode::Right, _) => Confirmed::Stay(!yes),
        Key::Press(KeyCode::Tab, _) => Confirmed::Stay(!yes),
        Key::Press(KeyCode::Enter, _) => Confirmed::Answer(yes),
        Key::Press(KeyCode::Esc, _) => Confirmed::Answer(false),
        _ => if k.is_char('y') || k.is_char('Y') {
            Confirmed::Answer(true)
        } else if k.is_char('n') || k.is_char('N') {
            Confirmed::Answer(false)
        } else {
            Confirmed::Stay(yes)
        },
    }
}

/// A question is answered yes only on an explicit key: with the default focus
/// that is `y`, and otherwise Enter on the other button.
pub proof fn law_yes_is_explicit(yes: bool, k: Option<Key>)
    ensures
        confirmed_of(yes, k) == Confirmed::Answer(true) ==> k is Some && (k.unwrap().types('y')
            || k.unwrap().types('Y') || (yes && k.unwrap().code_of() == Some(KeyCode::Enter))),
{
}

// ---------------------------------------------------------------------------
// The prompt
// ---------------------------------------------------------------------------

/// How long typing has to stop before the note is recomputed, in
/// milliseconds.
pub const NOTE_DEBOUNCE: u64 = 250;

/// How many completion candidates the prompt lists before summarising the
/// rest. Small enough that the box still fits an 80x24 terminal.
pub const CANDIDATE_ROWS: usize = 8;

/// Optional behaviours a prompt can take on. Most prompts want none of it.
#[derive(Debug)]
pub struct PromptOpts {
    /// Whether Tab completes this field.
    pub complete: bool,
    /// What Ctrl-A widens to, e.g. `all accounts`. `None` hides the toggle
    /// and pins the completer's flag to `false`.
    pub toggle: Option<String>,
    /// Whether extra lines stand under the field, recomputed once typing
    /// pauses.
    pub note: bool,
}

impl Default for PromptOpts {
    fn default() -> (r: PromptOpts)
        ensures
            r == (PromptOpts { complete: false, toggle: None, note: false }),
    {
        PromptOpts { complete: false, toggle: None, note: false }
    }
}

/// What is typed into a prompt so far, and what stands under it.
#[derive(Debug)]
pub struct Prompt {
    pub value: String,
    pub err: String,
    /// Candidates are only listed once completing has stopped making
    /// progress, so a unique match never flashes a one-item list.
    pub candidates: Vec<String>,
    pub all: bool,
    pub note: Vec<String>,
    /// The value that the note describes; `None` means that it is stale.
    pub note_for: Option<String>,
}

/// The contents of a [`Prompt`].
#[verifier::ext_equal]
pub struct PromptView {
    pub value: Seq<char>,
    pub err: Seq<char>,
    pub candidates: Seq<Seq<char>>,
    pub all: bool,
    pub note: Seq<Seq<char>>,
    pub note_for: Option<Seq<char>>,
}

impl View for Prompt {
    type V = PromptView;

    open spec fn view(&self) -> PromptView {
        PromptView {
            value: self.value@,
            err: self.err@,
            candidates: text::texts(self.candidates@),
            all: self.all,
            note: text::texts(self.note@),
            note_for: text::opt_text(self.note_for),
        }
    }
}

/// What a prompt asks of its surroundings after a key.
#[derive(Debug, Clone, Copy, PartialEq, Eq, Structural)]
pub enum Asked {
    /// The next key.
    Stay,
    /// The prompt was left without a value.
    Cancel,
    /// The value is to be checked, and is the answer if it passes.
    Validate,
    /// The value is to be completed, from the wider set where the flag says
    /// so.
    Complete(bool),
}

/// A prompt with another value and nothing under it.
pub open spec fn edited(p: PromptView, value: Seq<char>) -> PromptView {
    PromptView { value, err: seq![], candidates: seq![], ..p }
}

/// What a key does to a prompt.
pub open spec fn pressed_of(p: PromptView, complete: bool, toggle: bool, k: Key) -> (
    PromptView,
    Asked,
) {
    if k.controls('a') && toggle {
        (PromptView { all: !p.all, ..edited(p, p.value) }, Asked::Stay)
    } else if k.controls('u') {
        (edited(p, seq![]), Asked::Stay)
    } else {
        match k {
            Key::Press(KeyCode::Esc, _) => (p, Asked::Cancel),
            Key::Press(KeyCode::Enter, _) => (p, Asked::Validate),
            Key::Press(KeyCode::Tab, _) | Key::Press(KeyCode::BackTab, _) => if complete {
                (p, Asked::Complete(p.all && toggle))
            } else {
                (p, Asked::Stay)
            },
            Key::Press(KeyCode::Backspace, _) => (
                edited(
                    p,
                    if p.value.len() > 0 {
                        p.value.drop_last()
                    } else {
                        p.value
                    },
                ),
                Asked::Stay,
            ),
            Key::Press(KeyCode::Char(c), false) => (edited(p, p.value.push(c)), Asked::Stay),
            _ => (p, Asked::Stay),
        }
    }
}

/// What a completion does to a prompt: it fills in what all candidates share,
/// and only lists them when there is nothing more to fill in.
pub open spec fn completed_of(p: PromptView, c: CompletionView) -> PromptView {
    let q = edited(p, p.value);
    if c.candidates.len() == 0 {
        PromptView { err: "no completions"@, ..q }
    } else if c.common != p.value {
        PromptView { value: c.common, ..q }
    } else if c.candidates.len() != 1 {
        PromptView { candidates: c.candidates, ..q }
    } else {
        q
    }
}

/// The value without its last character.
fn shorter(s: &str) -> (r: String)
    ensures
        r@ == (if s@.len() > 0 {
            s@.drop_last()
        } else {
            s@
        }),
{
    let n: usize = s.unicode_len();
    if n == 0 {
        s.to_owned()
    } else {
        assert(s@.subrange(0, n - 1) =~= s@.drop_last());
        s.substring_char(0, n - 1).to_owned()
    }
}

impl Prompt {
    pub fn new(initial: &str) -> (r: Prompt)
        ensures
            r@ == (PromptView {
                value: initial@,
                err: seq![],
                candidates: seq![],
                all: false,
                note: seq![],
                note_for: None,
            }),
    {
        let r = Prompt {
            value: initial.to_owned(),
            err: String::new(),
            candidates: Vec::new(),
            all: false,
            note: Vec::new(),
            note_for: None,
        };
        assert(r@.err =~= seq![]);
        assert(r@.candidates =~= seq![]);
        assert(r@.note =~= seq![]);
        r
    }

    fn set(&mut self, value: String)
        ensures
            final(self)@ == edited(old(self)@, value@),
    {
        self.value = value;
        self.err = String::new();
        self.candidates = Vec::new();
        assert(self@.err =~= seq![]);
        assert(self@.candidates =~= seq![]);
    }

    /// Takes one key.
    pub fn press(&mut self, opts: &PromptOpts, k: Key) -> (r: Asked)
        ensures
            (final(self)@, r) == pressed_of(old(self)@, opts.complete, opts.toggle is Some, k),
    {
        if k.is_ctrl('a') && opts.toggle.is_some() {
            let v = self.value.clone();
            self.set(v);
            self.all = !self.all;
            return Asked::Stay;
        }
        if k.is_ctrl('u') {
            let v = String::new();
            assert(v@ =~= seq![]);
            self.set(v);
            return Asked::Stay;
        }
        match k {
            Key::Press(KeyCode::Esc, _) => Asked::Cancel,
            Key::Press(KeyCode::Enter, _) => Asked::Validate,
            Key::Press(KeyCode::Tab, _) | Key::Press(KeyCode::BackTab, _) => if opts.complete {
                Asked::Complete(self.all && opts.toggle.is_some())
            } else {
                Asked::Stay
            },
            Key::Press(KeyCode::Backspace, _) => {
                let v = shorter(self.value.as_str());
                self.set(v);
                Asked::Stay
            },
            Key::Press(KeyCode::Char(c), false) => {
                let mut v = self.value.clone();
                v.push(c);
                self.set(v);
                Asked::Stay
            },
            _ => Asked::Stay,
        }
    }

    /// Takes what completing the value gave. `common` is a full replacement
    /// for the field, never something to append to it.
    pub fn completed(&mut self, c: &Completion)
        ensures
            final(self)@ == completed_of(old(self)@, c@),
    {
        let v = self.value.clone();
        self.set(v);
        if c.is_empty() {
            self.err = "no completions".to_owned();
        } else if !text::same(c.common.as_str(), self.value.as_str()) {
            self.value = c.common.clone();
        } else if !c.is_unique() {
            self.candidates = text::clone_strings(&c.candidates);
        }
    }

    /// Takes the reason why the value was not accepted; the prompt goes on.
    pub fn refused(&mut self, e: &str)
        ensures
            final(self)@ == (PromptView { err: e@, ..old(self)@ }),
    {
        self.err = e.to_owned();
    }

    /// Takes what was found of the value on Enter: the value where it was
    /// accepted, which ends the prompt, else the prompt goes on with the
    /// reason.
    pub fn judged(&mut self, checked: &Result<(), String>) -> (r: Option<String>)
        ensures
            match checked {
                Ok(_) => r is Some && r->0@ == old(self)@.value && final(self)@ == old(self)@,
                Err(e) => r is None && final(self)@ == (PromptView { err: e@, ..old(self)@ }),
            },
    {
        match checked {
            Ok(_) => Some(self.value.clone()),
            Err(e) => {
                self.refused(e.as_str());
                None
            },
        }
    }

    /// Whether the note has to be computed before the prompt can wait for a
    /// key without a limit.
    pub fn is_stale(&self, opts: &PromptOpts) -> (r: bool)
        ensures
            r == (opts.note && self@.note_for != Some(self@.value)),
    {
        if !opts.note {
            return false;
        }
        match &self.note_for {
            Some(v) => !text::same(v.as_str(), self.value.as_str()),
            None => true,
        }
    }

    /// Takes the note on the present value.
    pub fn noted(&mut self, lines: Vec<String>)
        ensures
            final(self)@ == (PromptView {
                note: text::texts(lines@),
                note_for: Some(old(self)@.value),
                ..old(self)@
            }),
    {
        self.note = lines;
        self.note_for = Some(self.value.clone());
    }

    /// The text of the dialog.
    pub fn body(&self, opts: &PromptOpts, help: &str, inner_w: usize) -> (r: String)
        ensures
            r@ == body_of(self@, opts.complete, text::opt_text(opts.toggle), help@, inner_w as int),
    {
        let shown = tail(self.value.as_str(), inner_w);
        let listed = block_of(&candidate_lines(&self.candidates, inner_w));
        let noted = block_of(&self.note);
        let problem = if self.err.as_str().unicode_len() == 0 {
            String::new()
        } else {
            text::cat3("  ! ", self.err.as_str(), "\n")
        };
        let keys = keybinding_line(opts, self.all);
        let head = text::cat5(help, "\n\n  ", shown.as_str(), "_\n", listed.as_str());
        let more = text::cat5(head.as_str(), noted.as_str(), "\n", problem.as_str(), keys.as_str());
        proof {
            reveal_strlit("");
            assert(self.err@.len() == 0 ==> problem@ =~= seq![]);
        }
        more
    }
}

/// The last `w` characters of `s`, or all of them.
pub open spec fn tail_of(s: Seq<char>, w: int) -> Seq<char> {
    if s.len() > w {
        s.skip(s.len() - w)
    } else {
        s
    }
}

fn tail(s: &str, w: usize) -> (r: String)
    ensures
        r@ == tail_of(s@, w as int),
{
    let n: usize = s.unicode_len();
    if n > w {
        assert(s@.subrange(n - w, n as int) =~= s@.skip(n - w));
        s.substring_char(n - w, n).to_owned()
    } else {
        s.to_owned()
    }
}

/// The text of a prompt: help, field, candidates, note, error and keys.
pub open spec fn body_of(
    p: PromptView,
    complete: bool,
    toggle: Option<Seq<char>>,
    help: Seq<char>,
    inner_w: int,
) -> Seq<char> {
    help + "\n\n  "@ + tail_of(p.value, inner_w) + "_\n"@ + block_lines(
        candidate_lines_of(p.candidates, inner_w),
    ) + block_lines(p.note) + "\n"@ + (if p.err.len() == 0 {
        seq![]
    } else {
        "  ! "@ + p.err + "\n"@
    }) + keys_of(complete, toggle, p.all)
}

/// How wide a prompt is: 74 columns where the frame has room with a margin.
pub fn prompt_width(area: Rect) -> (r: u16)
    ensures
        r == (if area.width <= 3 {
            1
        } else if area.width < 76 {
            area.width - 2
        } else {
            74
        }),
{
    if area.width <= 3 {
        1
    } else if area.width < 76 {
        area.width - 2
    } else {
        74
    }
}

/// How many columns of a prompt its text has.
pub fn prompt_inner(width: u16) -> (r: usize)
    ensures
        r == (if width > 4 {
            width - 4
        } else {
            0
        }),
{
    if width > 4 {
        (width - 4) as usize
    } else {
        0
    }
}

/// Where a prompt with the text `body` stands. The box is as tall as the
/// wrapped text, so that a long help never pushes the error and the keys out
/// of it.
pub fn prompt_rect(area: Rect, body: &str) -> (r: Rect)
    requires
        area.fits(),
        body@.len() < usize::MAX,
    ensures
        ({
            let width = if area.width <= 3 {
                1
            } else if area.width < 76 {
                area.width - 2
            } else {
                74
            };
            let inner = if width > 5 {
                width - 4
            } else {
                1
            };
            let rows = height_of(parts::split_of(body@, '\n'), inner);
            r == term::popup_of(
                area,
                width,
                2 + (if rows < 65533 {
                    rows
                } else {
                    65533
                }),
            )
        }),
        r.is_inside(area),
{
    let width = prompt_width(area);
    let inner: usize = prompt_inner(width);
    let rows: usize = wrapped_height(
        body,
        if inner > 1 {
            inner
        } else {
            1
        },
    );
    term::popup_rect(area, width, clamped(rows, 65533) + 2)
}

/// A group of lines as a block, or nothing at all when it is empty.
pub open spec fn block_lines(lines: Seq<Seq<char>>) -> Seq<char> {
    if lines.len() == 0 {
        seq![]
    } else {
        "\n"@ + parts::join_of(lines, "\n"@) + "\n"@
    }
}

/// Render a group of lines as a block, or nothing at all when it is empty --
/// so an absent note costs no vertical space.
pub fn block_of(lines: &[String]) -> (r: String)
    ensures
        r@ == block_lines(text::texts(lines@)),
{
    if lines.len() == 0 {
        let r = String::new();
        assert(r@ =~= seq![]);
        r
    } else {
        let all = parts::join(lines, "\n");
        text::cat3("\n", all.as_str(), "\n")
    }
}

/// Candidates as lines: at most [`CANDIDATE_ROWS`] of them, each clipped to
/// the box, with a count of whatever did not fit.
pub open spec fn candidate_lines_of(candidates: Seq<Seq<char>>, width: int) -> Seq<Seq<char>> {
    let w = if width < 8 {
        8
    } else {
        width
    };
    let shown = if candidates.len() < CANDIDATE_ROWS {
        candidates.len() as int
    } else {
        CANDIDATE_ROWS as int
    };
    Seq::new(shown as nat, |i: int| escape::clip_of("  - "@ + candidates[i], w)) + (
    if candidates.len() > CANDIDATE_ROWS {
        seq![
            "  ... and "@ + number::decimal((candidates.len() - CANDIDATE_ROWS) as nat) + " more"@,
        ]
    } else {
        seq![]
    })
}

/// Candidates as displayable lines: at most [`CANDIDATE_ROWS`] of them, each
/// clipped to the box, with a count of whatever did not fit.
pub fn candidate_lines(candidates: &[String], width: usize) -> (r: Vec<String>)
    ensures
        text::texts(r@) == candidate_lines_of(text::texts(candidates@), width as int),
{
    let ghost all = text::texts(candidates@);
    let ghost want = candidate_lines_of(all, width as int);
    let w: usize = if width < 8 {
        8
    } else {
        width
    };
    let shown: usize = if candidates.len() < CANDIDATE_ROWS {
        candidates.len()
    } else {
        CANDIDATE_ROWS
    };
    let mut out: Vec<String> = Vec::new();
    let mut i: usize = 0;
    while i < shown
        invariant
            i <= shown <= candidates@.len(),
            all == text::texts(candidates@),
            want == candidate_lines_of(all, width as int),
            shown <= want.len(),
            forall|k: int|
                0 <= k < shown ==> #[trigger] want[k] == escape::clip_of("  - "@ + all[k], w as int),
            text::texts(out@) == want.take(i as int),
        decreases shown - i,
    {
        let line = text::cat2("  - ", candidates[i].as_str());
        let ghost before = text::texts(out@);
        out.push(escape::clip(line.as_str(), w));
        assert(text::texts(out@) =~= before.push(want[i as int]));
        assert(before.push(want[i as int]) =~= want.take(i + 1));
        i += 1;
    }
    if candidates.len() > CANDIDATE_ROWS {
        let n = number::usize_decimal(candidates.len() - CANDIDATE_ROWS);
        let ghost before = text::texts(out@);
        out.push(text::cat3("  ... and ", n.as_str(), " more"));
        assert(text::texts(out@) =~= before.push(want[shown as int]));
        assert(before.push(want[shown as int]) =~= want);
    } else {
        assert(want.take(shown as int) =~= want);
    }
    out
}

/// The bottom line of a prompt.
pub open spec fn keys_of(complete: bool, toggle: Option<Seq<char>>, all: bool) -> Seq<char> {
    "  Enter accepts, Esc cancels"@ + (if complete {
        ", Tab completes"@
    } else {
        ""@
    }) + (match toggle {
        Some(label) => (if all {
            ", Ctrl-A hides "@
        } else {
            ", Ctrl-A shows "@
        }) + label,
        None => ""@,
    })
}

/// The bottom line of a prompt, naming only the keys this prompt has.
pub fn keybinding_line(opts: &PromptOpts, all: bool) -> (r: String)
    ensures
        r@ == keys_of(opts.complete, text::opt_text(opts.toggle), all),
{
    let tab = if opts.complete {
        ", Tab completes"
    } else {
        ""
    };
    let widen = match &opts.toggle {
        Some(label) => text::cat2(
            if all {
                ", Ctrl-A hides "
            } else {
                ", Ctrl-A shows "
            },
            label.as_str(),
        ),
        None => "".to_owned(),
    };
    text::cat3("  Enter accepts, Esc cancels", tab, widen.as_str())
}

/// Anything is accepted.
pub fn no_validation(value: &str) -> (r: Result<(), String>)
    ensures
        r == Ok::<(), String>(()),
{
    Ok(())
}

/// Only completing and typing change the value of a prompt, and each drops
/// the error and the candidates that belonged to the value before.
pub proof fn law_editing_clears(p: PromptView, complete: bool, toggle: bool, k: Key)
    ensures
        ({
            let q = pressed_of(p, complete, toggle, k).0;
            q.value != p.value ==> q.err.len() == 0 && q.candidates.len() == 0
        }),
        pressed_of(p, complete, toggle, k).1 != Asked::Stay ==> pressed_of(
            p,
            complete,
            toggle,
            k,
        ).0 == p,
{
}

/// Completing twice lists the candidates of an ambiguous value: the first
/// time fills in what they share, and then there is nothing more to fill in.
pub proof fn law_second_tab_lists(p: PromptView, c: CompletionView)
    requires
        c.candidates.len() > 1,
    ensures
        completed_of(completed_of(p, c), c).value == c.common,
        completed_of(completed_of(p, c), c).candidates == c.candidates,
{
}

// ---------------------------------------------------------------------------
// Wrapping
// ---------------------------------------------------------------------------

/// How many line breaks wrapping puts before and into the words, where the
/// row holds `used` columns of text already (`wrote` says that there is any).
/// A word longer than the row spills onto further rows of its own.
pub open spec fn breaks_of(words: Seq<Seq<char>>, width: int, used: int, wrote: bool) -> int
    decreases words.len(),
{
    if words.len() == 0 {
        0
    } else {
        let w = words[0].len() as int;
        let over = wrote && used + 1 + w > width;
        let at = if wrote && !over {
            used + 1
        } else {
            0
        };
        (if over {
            1int
        } else {
            0
        }) + (if w > width {
            (w - 1) / width + breaks_of(words.skip(1), width, w % width, true)
        } else {
            breaks_of(words.skip(1), width, at + w, true)
        })
    }
}

/// How many rows lines take once word-wrapped.
pub open spec fn height_of(lines: Seq<Seq<char>>, width: int) -> int
    decreases lines.len(),
{
    if lines.len() == 0 {
        0
    } else {
        1 + breaks_of(parts::words_of(lines[0]), width, 0, false) + height_of(lines.skip(1), width)
    }
}

/// The characters in some words.
spec fn total_len(words: Seq<Seq<char>>) -> int
    decreases words.len(),
{
    if words.len() == 0 {
        0
    } else {
        words[0].len() + total_len(words.skip(1))
    }
}

/// The characters in some lines with their line breaks.
spec fn total_lines(lines: Seq<Seq<char>>) -> int
    decreases lines.len(),
{
    if lines.len() == 0 {
        0
    } else {
        lines[0].len() + 1 + total_lines(lines.skip(1))
    }
}

proof fn lemma_words_len(s: Seq<char>)
    ensures
        total_len(parts::words_of(s)) <= s.len(),
        forall|i: int| 0 <= i < parts::words_of(s).len() ==> (#[trigger] parts::words_of(s)[i]).len() > 0,
    decreases s.len(),
{
    let t = text::trim_start_of(s);
    text::lemma_trim_start(s);
    if t.len() > 0 {
        let k = parts::word_len(t);
        parts::lemma_word_len(t);
        let rest = parts::words_of(t.skip(k));
        let all = parts::words_of(s);
        assert(k > 0);
        lemma_words_len(t.skip(k));
        assert(all == seq![t.take(k)] + rest);
        assert(all.skip(1) =~= rest);
        assert forall|i: int| 0 <= i < all.len() implies (#[trigger] all[i]).len() > 0 by {
            if i > 0 {
                assert(all[i] == rest[i - 1]);
            }
        }
    }
}

proof fn lemma_split_len(s: Seq<char>)
    ensures
        total_lines(parts::split_of(s, '\n')) == s.len() + 1,
    decreases s.len(),
{
    text::lemma_first_index(s, '\n');
    let k = text::first_index(s, '\n');
    let all = parts::split_of(s, '\n');
    if k < s.len() {
        lemma_split_len(s.skip(k + 1));
        assert(all.skip(1) =~= parts::split_of(s.skip(k + 1), '\n'));
    } else {
        assert(all =~= seq![s]);
        assert(all.skip(1) =~= seq![]);
        reveal_with_fuel(total_lines, 2);
    }
}

proof fn lemma_div_small(w: int, width: int)
    by (nonlinear_arith)
    requires
        w >= 1,
        width >= 1,
    ensures
        0 <= (w - 1) / width <= w - 1,
        0 <= w % width < width,
{
}

proof fn lemma_breaks_bound(words: Seq<Seq<char>>, width: int, used: int, wrote: bool)
    requires
        width >= 1,
        forall|i: int| 0 <= i < words.len() ==> (#[trigger] words[i]).len() > 0,
    ensures
        0 <= breaks_of(words, width, used, wrote) <= total_len(words),
        !wrote && words.len() > 0 ==> breaks_of(words, width, used, wrote) < total_len(words),
    decreases words.len(),
{
    if words.len() > 0 {
        let w = words[0].len() as int;
        lemma_div_small(w, width);
        let rest = words.skip(1);
        assert forall|i: int| 0 <= i < rest.len() implies (#[trigger] rest[i]).len() > 0 by {
            assert(rest[i] == words[i + 1]);
        }
        let over = wrote && used + 1 + w > width;
        let at = if wrote && !over {
            used + 1
        } else {
            0
        };
        if w > width {
            lemma_breaks_bound(rest, width, w % width, true);
        } else {
            lemma_breaks_bound(rest, width, at + w, true);
        }
    }
}

proof fn lemma_height_bound(lines: Seq<Seq<char>>, width: int)
    requires
        width >= 1,
    ensures
        lines.len() <= height_of(lines, width) <= total_lines(lines),
    decreases lines.len(),
{
    if lines.len() > 0 {
        lemma_words_len(lines[0]);
        lemma_breaks_bound(parts::words_of(lines[0]), width, 0, false);
        lemma_height_bound(lines.skip(1), width);
    }
}

/// Wrapped text takes at least a row for each of its lines, and never more
/// rows than it has characters and lines.
pub proof fn law_wrapped_height(s: Seq<char>, width: int)
    requires
        width >= 1,
    ensures
        parts::split_of(s, '\n').len() <= height_of(parts::split_of(s, '\n'), width) <= s.len() + 1,
{
    lemma_height_bound(parts::split_of(s, '\n'), width);
    lemma_split_len(s);
}

/// How many lines `text` occupies once word-wrapped at `width`, matching what
/// a wrapping renderer does closely enough to size a box around it.
///
/// A word longer than the width is not broken by this count but is by the
/// renderer, so it is charged the rows it will actually take.
pub fn wrapped_height(text: &str, width: usize) -> (r: usize)
    requires
        text@.len() < usize::MAX,
    ensures
        r == height_of(
            parts::split_of(text@, '\n'),
            if width >= 1 {
                width as int
            } else {
                1
            },
        ),
{
    let width: usize = if width >= 1 {
        width
    } else {
        1
    };
    let lines = parts::split(text, '\n');
    let ghost all = text::texts(lines@);
    let mut rows: usize = 0;
    let mut i: usize = 0;
    assert(all.skip(0) =~= all);
    proof {
        law_wrapped_height(text@, width as int);
    }
    let ghost total = height_of(all, width as int);
    while i < lines.len()
        invariant
            i <= lines@.len(),
            all == text::texts(lines@),
            width >= 1,
            total <= usize::MAX,
            rows + height_of(all.skip(i as int), width as int) == total,
        decreases lines@.len() - i,
    {
        let ghost rest = all.skip(i + 1);
        proof {
            assert(all.skip(i as int)[0] == lines@[i as int]@);
            assert(all.skip(i as int).skip(1) =~= rest);
            lemma_height_bound(rest, width as int);
            lemma_words_len(lines@[i as int]@);
        }
        let words = parts::words(lines[i].as_str());
        let ghost ws = text::texts(words@);
        let mut used: usize = 0;
        let mut wrote = false;
        let mut k: usize = 0;
        assert(ws.skip(0) =~= ws);
        while k < words.len()
            invariant
                k <= words@.len(),
                ws == text::texts(words@),
                width >= 1,
                used <= width,
                total <= usize::MAX,
                forall|j: int| 0 <= j < ws.len() ==> (#[trigger] ws[j]).len() > 0,
                height_of(rest, width as int) >= 0,
                rows + 1 + breaks_of(ws.skip(k as int), width as int, used as int, wrote)
                    + height_of(rest, width as int) == total,
            decreases words@.len() - k,
        {
            let w: usize = words[k].as_str().unicode_len();
            proof {
                let now = ws.skip(k as int);
                assert(now[0] == words@[k as int]@);
                assert(ws[k as int] == words@[k as int]@);
                assert(now.skip(1) =~= ws.skip(k + 1));
                let next = ws.skip(k + 1);
                assert forall|j: int| 0 <= j < next.len() implies (#[trigger] next[j]).len() > 0 by {
                    assert(next[j] == ws[k + 1 + j]);
                }
                lemma_div_small(w as int, width as int);
                lemma_breaks_bound(next, width as int, w as int % width as int, true);
                lemma_breaks_bound(next, width as int, w as int, true);
                lemma_breaks_bound(next, width as int, used + 1 + w, true);
            }
            let over = wrote && (w >= width || used > width - 1 - w);
            let at: usize = if wrote && !over {
                used + 1
            } else {
                0
            };
            if over {
                rows += 1;
            }
            if w > width {
                rows += (w - 1) / width;
                used = w % width;
            } else {
                used = at + w;
            }
            wrote = true;
            k += 1;
        }
        assert(ws.skip(k as int).len() == 0);
        rows += 1;
        i += 1;
    }
    assert(all.skip(i as int).len() == 0);
    rows
}

// ---------------------------------------------------------------------------
// Picking from a list
// ---------------------------------------------------------------------------

/// What picking from a list comes to.
#[derive(Debug, Clone, Copy, PartialEq, Eq, Structural)]
pub enum Picked {
    /// It goes on, with this item selected.
    Stay(usize),
    Chosen(usize),
    Cancel,
}

/// The item a digit key names, counted from 1.
pub open spec fn digit_item(c: char) -> Option<int> {
    if '1' <= c && c <= '9' {
        Some(c as int - '1' as int)
    } else {
        None
    }
}

/// What a key does to a list of `n` items, the one at `sel` being selected.
pub open spec fn picked_of(k: Option<Key>, sel: int, n: int) -> Picked {
    match k {
        None => Picked::Cancel,
        Some(k) => match k {
            Key::Scroll(d) => Picked::Stay(diff::moved_of(sel, d as int, n - 1) as usize),
            Key::Press(KeyCode::Esc, _) => Picked::Cancel,
            Key::Press(KeyCode::Enter, _) => Picked::Chosen(sel as usize),
            Key::Press(KeyCode::Up, _) => Picked::Stay(diff::moved_of(sel, -1, n - 1) as usize),
            Key::Press(KeyCode::Down, _) => Picked::Stay(diff::moved_of(sel, 1, n - 1) as usize),
            Key::Press(KeyCode::Home, _) => Picked::Stay(0),
            Key::Press(KeyCode::End, _) => Picked::Stay((n - 1) as usize),
            Key::Press(KeyCode::Char(c), _) if digit_item(c) is Some => {
                let i = digit_item(c).unwrap();
                if i < n {
                    Picked::Chosen(i as usize)
                } else {
                    Picked::Stay(sel as usize)
                }
            },
            _ => if k.types('k') {
                Picked::Stay(diff::moved_of(sel, -1, n - 1) as usize)
            } else if k.types('j') {
                Picked::Stay(diff::moved_of(sel, 1, n - 1) as usize)
            } else {
                Picked::Stay(sel as usize)
            },
        },
    }
}

/// The item that is selected at first, where there is any.
pub fn pick_start(n: usize, initial: usize) -> (r: Option<usize>)
    ensures
        r == (if n == 0 {
            None
        } else if initial < n {
            Some(initial)
        } else {
            Some((n - 1) as usize)
        }),
{
    if n == 0 {
        None
    } else if initial < n {
        Some(initial)
    } else {
        Some(n - 1)
    }
}

/// Takes one key of a list of `n` items.
pub fn pick(k: Option<Key>, sel: usize, n: usize) -> (r: Picked)
    requires
        sel < n,
    ensures
        r == picked_of(k, sel as int, n as int),
        match r {
            Picked::Stay(i) => i < n,
            Picked::Chosen(i) => i < n,
            Picked::Cancel => true,
        },
{
    let k = match k {
        None => {
            return Picked::Cancel;
        },
        Some(k) => k,
    };
    match k {
        Key::Scroll(d) => match diff::scroll_key(k, sel, 1, n - 1, 1) {
            Scrolled::At(i) => Picked::Stay(i),
            Scrolled::Not => Picked::Stay(sel),
        },
        Key::Press(KeyCode::Esc, _) => Picked::Cancel,
        Key::Press(KeyCode::Enter, _) => Picked::Chosen(sel),
        Key::Press(KeyCode::Up, _) => Picked::Stay(
            if sel > 0 {
                sel - 1
            } else {
                0
            },
        ),
        Key::Press(KeyCode::Down, _) => Picked::Stay(
            if sel < n - 1 {
                sel + 1
            } else {
                sel
            },
        ),
        Key::Press(KeyCode::Home, _) => Picked::Stay(0),
        Key::Press(KeyCode::End, _) => Picked::Stay(n - 1),
        Key::Press(KeyCode::Char(c), _) if '1' <= c && c <= '9' => {
            let i: usize = (c as u32 - '1' as u32) as usize;
            if i < n {
                Picked::Chosen(i)
            } else {
                Picked::Stay(sel)
            }
        },
        _ => if k.is_char('k') {
            Picked::Stay(
                if sel > 0 {
                    sel - 1
                } else {
                    0
                },
            )
        } else if k.is_char('j') {
            Picked::Stay(
                if sel < n - 1 {
                    sel + 1
                } else {
                    sel
                },
            )
        } else {
            Picked::Stay(sel)
        },
    }
}

/// The first item shown, so that the selected one is.
pub open spec fn first_shown(sel: int, visible: int) -> int {
    let rows = if visible > 0 {
        visible - 1
    } else {
        0
    };
    if sel > rows {
        sel - rows
    } else {
        0
    }
}

/// The first item of a list that is shown.
pub fn pick_top(sel: usize, visible: usize) -> (r: usize)
    ensures
        r == first_shown(sel as int, visible as int),
        visible > 0 ==> r <= sel < r + visible,
{
    let rows: usize = if visible > 0 {
        visible - 1
    } else {
        0
    };
    if sel > rows {
        sel - rows
    } else {
        0
    }
}

/// One row of a list.
pub open spec fn pick_row(item: Seq<char>, selected: bool) -> Seq<char> {
    (if selected {
        " > "@
    } else {
        "   "@
    }) + item
}

/// The rows of a list that are shown.
pub fn pick_rows(items: &[String], sel: usize, visible: usize) -> (r: Vec<String>)
    ensures
        ({
            let top = first_shown(sel as int, visible as int);
            let left = items@.len() - top;
            let shown = if left < 0 {
                0
            } else if left < visible {
                left
            } else {
                visible as int
            };
            text::texts(r@) == Seq::new(
                shown as nat,
                |i: int| pick_row(items@[top + i]@, top + i == sel),
            )
        }),
{
    let top: usize = pick_top(sel, visible);
    let mut out: Vec<String> = Vec::new();
    let mut i: usize = 0;
    while i < visible && items.len() > top && i < items.len() - top
        invariant
            i <= visible,
            i == 0 || i <= items@.len() - top,
            top == first_shown(sel as int, visible as int),
            out@.len() == i,
            forall|j: int|
                0 <= j < i ==> (#[trigger] out@[j])@ == pick_row(items@[top + j]@, top + j == sel),
        decreases visible - i,
    {
        let mark = if top + i == sel {
            " > "
        } else {
            "   "
        };
        out.push(text::cat2(mark, items[top + i].as_str()));
        i += 1;
    }
    out
}

/// How many bytes a character takes in UTF-8.
pub open spec fn char_bytes(c: char) -> int {
    if c <= '\u{7f}' {
        1
    } else if c <= '\u{7ff}' {
        2
    } else if c <= '\u{ffff}' {
        3
    } else {
        4
    }
}

/// How many bytes a text takes in UTF-8.
pub open spec fn byte_len(s: Seq<char>) -> int
    decreases s.len(),
{
    if s.len() == 0 {
        0
    } else {
        byte_len(s.drop_last()) + char_bytes(s.last())
    }
}

/// The bytes of the widest of some texts.
pub open spec fn widest_of(items: Seq<Seq<char>>) -> int
    decreases items.len(),
{
    if items.len() == 0 {
        0
    } else {
        let rest = widest_of(items.drop_last());
        if byte_len(items.last()) > rest {
            byte_len(items.last())
        } else {
            rest
        }
    }
}

/// The widest a list is laid out for.
const WIDEST: u16 = 65527;

proof fn lemma_byte_len(s: Seq<char>, i: int)
    requires
        0 <= i <= s.len(),
    ensures
        byte_len(s.take(i)) <= byte_len(s),
    decreases s.len(),
{
    if i < s.len() {
        lemma_byte_len(s.drop_last(), i);
        assert(s.drop_last().take(i) =~= s.take(i));
    } else {
        assert(s.take(i) =~= s);
    }
}

fn bytes_up_to(s: &str) -> (r: u16)
    ensures
        r == (if byte_len(s@) < WIDEST {
            byte_len(s@)
        } else {
            WIDEST as int
        }),
{
    let v = text::chars_of(s);
    let mut n: u16 = 0;
    let mut i: usize = 0;
    assert(s@.take(0) =~= seq![]);
    while i < v.len()
        invariant
            i <= v@.len(),
            v@ == s@,
            n < WIDEST,
            n == byte_len(s@.take(i as int)),
        decreases v@.len() - i,
    {
        let c = v[i];
        proof {
            assert(s@.take(i + 1).drop_last() =~= s@.take(i as int));
            lemma_byte_len(s@, i + 1);
        }
        let w: u16 = if c <= '\u{7f}' {
            1
        } else if c <= '\u{7ff}' {
            2
        } else if c <= '\u{ffff}' {
            3
        } else {
            4
        };
        n += w;
        if n >= WIDEST {
            return WIDEST;
        }
        i += 1;
    }
    assert(s@.take(i as int) =~= s@);
    n
}

/// Where a list of items stands: wide enough for the widest of them and tall
/// enough for up to eighteen.
pub fn pick_rect(area: Rect, items: &[String]) -> (r: Rect)
    requires
        area.fits(),
    ensures
        ({
            let wide = widest_of(text::texts(items@));
            let w = if wide < 22 {
                30
            } else if wide < 65527 {
                wide + 8
            } else {
                65535
            };
            let h = if items@.len() < 18 {
                items@.len() as int
            } else {
                18
            };
            r == term::popup_of(area, w, h + 2)
        }),
        r.is_inside(area),
{
    let ghost all = text::texts(items@);
    let mut wide: u16 = 0;
    let mut i: usize = 0;
    assert(all.take(0) =~= seq![]);
    while i < items.len()
        invariant
            i <= items@.len(),
            all == text::texts(items@),
            wide <= WIDEST,
            wide == (if widest_of(all.take(i as int)) < WIDEST {
                widest_of(all.take(i as int))
            } else {
                WIDEST as int
            }),
        decreases items@.len() - i,
    {
        assert(all.take(i + 1).drop_last() =~= all.take(i as int));
        let n: u16 = bytes_up_to(items[i].as_str());
        if n > wide {
            wide = n;
        }
        i += 1;
    }
    assert(all.take(items@.len() as int) =~= all);
    let w: u16 = wide + 8;
    let w: u16 = if w < 30 {
        30
    } else {
        w
    };
    term::popup_rect(area, w, clamped(items.len(), 18) + 2)
}

// ---------------------------------------------------------------------------
// The pager
// ---------------------------------------------------------------------------

/// Where a pager stands: the whole height, and the width less a margin.
pub fn pager_rect(area: Rect) -> (r: Rect)
    requires
        area.fits(),
    ensures
        r == term::popup_of(
            area,
            if area.width > 4 {
                area.width - 4
            } else {
                0
            },
            area.height as int,
        ),
        r.is_inside(area),
{
    let w: u16 = if area.width > 4 {
        area.width - 4
    } else {
        0
    };
    term::popup_rect(area, w, area.height)
}

/// The title of a pager: where it stands in how many lines, both from 1.
pub fn pager_title(title: &str, top: usize, total: usize) -> (r: String)
    requires
        top < usize::MAX,
    ensures
        ({
            let n = if total > 0 {
                total as int
            } else {
                1
            };
            let at = if top + 1 < n {
                top + 1
            } else {
                n
            };
            r@ == title@ + "  ["@ + number::decimal(at as nat) + "/"@ + number::decimal(n as nat)
                + "]  q closes"@
        }),
{
    let n: usize = if total > 0 {
        total
    } else {
        1
    };
    let at: usize = if top + 1 < n {
        top + 1
    } else {
        n
    };
    let a = number::usize_decimal(at);
    let b = number::usize_decimal(n);
    let head = text::cat5(title, "  [", a.as_str(), "/", b.as_str());
    text::cat2(head.as_str(), "]  q closes")
}

/// The lines of a pager that are shown.
pub open spec fn page_of(lines: Seq<Seq<char>>, top: int, visible: int) -> Seq<Seq<char>> {
    let from = if top < lines.len() {
        top
    } else {
        lines.len() as int
    };
    let to = if lines.len() - from < visible {
        lines.len() as int
    } else {
        from + visible
    };
    lines.subrange(from, to)
}

/// The lines of a pager that are shown.
pub fn page(lines: &[String], top: usize, visible: usize) -> (r: Vec<String>)
    ensures
        text::texts(r@) == page_of(text::texts(lines@), top as int, visible as int),
{
    let ghost want = page_of(text::texts(lines@), top as int, visible as int);
    let n: usize = lines.len();
    let from: usize = if top < n {
        top
    } else {
        n
    };
    let count: usize = if n - from < visible {
        n - from
    } else {
        visible
    };
    let mut out: Vec<String> = Vec::new();
    let mut i: usize = 0;
    while i < count
        invariant
            i <= count <= n - from,
            from <= n == lines@.len(),
            out@.len() == i,
            forall|j: int| 0 <= j < i ==> (#[trigger] out@[j])@ == lines@[from + j]@,
        decreases count - i,
    {
        out.push(lines[from + i].clone());
        i += 1;
    }
    assert(text::texts(out@) =~= want);
    out
}

/// What a pager comes to.
#[derive(Debug, Clone, Copy, PartialEq, Eq, Structural)]
pub enum Paged {
    /// It goes on, from this line.
    Stay(usize),
    Close,
}

/// Takes one key of a pager of `total` lines, `page` of which are shown.
pub fn pager(k: Option<Key>, top: usize, page: usize, total: usize) -> (r: Paged)
    ensures
        match k {
            None => r == Paged::Close,
            Some(k) => {
                let max = if total > 0 {
                    total - 1
                } else {
                    0
                };
                if k.types('q') || k.code_of() == Some(KeyCode::Esc) || k.code_of() == Some(
                    KeyCode::Enter,
                ) {
                    r == Paged::Close
                } else {
                    r matches Paged::Stay(t) && t == match diff::scrolled_by(
                        k,
                        top as int,
                        page as int,
                        max,
                        3,
                    ) {
                        Some(s) => s,
                        None => top as int,
                    }
                }
            },
        },
{
    let k = match k {
        Some(k) => k,
        None => {
            return Paged::Close;
        },
    };
    if k.is_char('q') {
        return Paged::Close;
    }
    match k.code() {
        Some(KeyCode::Esc) => {
            return Paged::Close;
        },
        Some(KeyCode::Enter) => {
            return Paged::Close;
        },
        _ => {},
    }
    let max: usize = if total > 0 {
        total - 1
    } else {
        0
    };
    match diff::scroll_key(k, top, page, max, 3) {
        Scrolled::At(t) => Paged::Stay(t),
        Scrolled::Not => Paged::Stay(top),
    }
}

/// A digit picks the item that it numbers, and Enter the one that is
/// selected.
pub proof fn law_digits_pick_their_item(i: int, sel: int, n: int, ctrl: bool)
    requires
        0 <= i < 9,
        0 <= sel < n <= usize::MAX,
    ensures
        ({
            let c = ('1' as int + i) as char;
            picked_of(Some(Key::Press(KeyCode::Char(c), ctrl)), sel, n) == if i < n {
                Picked::Chosen(i as usize)
            } else {
                Picked::Stay(sel as usize)
            }
        }),
        picked_of(Some(Key::Press(KeyCode::Enter, ctrl)), sel, n) == Picked::Chosen(sel as usize),
        picked_of(Some(Key::Press(KeyCode::Esc, ctrl)), sel, n) == Picked::Cancel,
{
}

/// A page shows the lines from its top on, as many as fit.
pub proof fn law_pages_show_lines_in_order(
    lines: Seq<Seq<char>>,
    top: int,
    visible: int,
    i: int,
)
    requires
        0 <= top <= lines.len(),
        0 <= visible,
        0 <= i,
        i < visible,
        top + i < lines.len(),
    ensures
        page_of(lines, top, visible).len() <= visible,
        i < page_of(lines, top, visible).len(),
        page_of(lines, top, visible)[i] == lines[top + i],
{
}

} // verus!
