//! The builder screen, kept apart from any terminal: the form with its
//! selection, the side pane, the two lines under them, and what every key
//! does.

use crate::fieldhelp;
use crate::parts;
use crate::strmap::StrMap;
use crate::systemd::{NextRun, PreviewError};
use crate::text;
use crate::ui::builder::checks;
use crate::ui::builder::fields;
use crate::ui::builder::pane;
use crate::ui::builder::pane::{Derived, DerivedView, Pane, RunsView};
use crate::ui::builder::rows;
use crate::ui::builder::rows::{Id, Row, RowView};
use crate::ui::paint;
use crate::ui::paint::{Color, Line, Span, SpanView, Style};
use crate::ui::term::{Key, KeyCode};
use crate::ui::wrap;
use crate::unit::generate;
use crate::unit::model::{Unit, UnitView};
use vstd::prelude::*;

verus! {

broadcast use vstd::string::group_string_axioms;

/// Lines that a page key moves the pane by.
pub const PANE_SCROLL: usize = 10;

/// Columns of a label on the form.
pub const LABEL_WIDTH: usize = 22;

/// The whole builder screen.
#[derive(Debug)]
pub struct Screen {
    pub title: String,
    pub rows: Vec<Row>,
    pub sel: usize,
    pub top: usize,
    pub pane: Pane,
    pub pane_top: usize,
    pub status: String,
    /// A one-shot message that outranks the status line until the next key.
    pub flash: Option<String>,
    pub browsable: bool,
    pub derived: Derived,
}

/// The contents of a [`Screen`].
#[verifier::ext_equal]
pub struct ScreenView {
    pub title: Seq<char>,
    pub rows: Seq<RowView>,
    pub sel: int,
    pub top: int,
    pub pane: Pane,
    pub pane_top: int,
    pub status: Seq<char>,
    pub flash: Option<Seq<char>>,
    pub browsable: bool,
    pub derived: DerivedView,
}

impl View for Screen {
    type V = ScreenView;

    open spec fn view(&self) -> ScreenView {
        ScreenView {
            title: self.title@,
            rows: rows::row_views(self.rows@),
            sel: self.sel as int,
            top: self.top as int,
            pane: self.pane,
            pane_top: self.pane_top as int,
            status: self.status@,
            flash: text::opt_text(self.flash),
            browsable: self.browsable,
            derived: self.derived@,
        }
    }
}

impl ScreenView {
    /// The row in focus.
    pub open spec fn focus(self) -> Id {
        if 0 <= self.sel < self.rows.len() {
            self.rows[self.sel].id
        } else {
            Id::Heading
        }
    }

    /// The selection is on a row that can be selected.
    pub open spec fn wf(self) -> bool {
        0 <= self.sel < self.rows.len() && self.rows[self.sel].id != Id::Heading
    }
}

/// What depends on which row is focused, brought in line with it.
pub open spec fn refocused_of(v: ScreenView, u: UnitView) -> ScreenView {
    ScreenView {
        browsable: fields::browsable_of(u, v.focus()) is Some,
        status: checks::status_of(u, v.derived, v.focus()),
        ..v
    }
}

/// The selection after the rows changed: inside them, and off a heading.
pub open spec fn settled_of(rows: Seq<RowView>, sel: int) -> int {
    let at = if sel < rows.len() {
        sel
    } else if rows.len() > 0 {
        rows.len() - 1
    } else {
        0
    };
    if 0 <= at < rows.len() && rows[at].id == Id::Heading {
        rows::step_of(rows, at, 1)
    } else {
        at
    }
}

/// The screen brought in line with a unit.
pub open spec fn synced_of(
    v: ScreenView,
    u: UnitView,
    dir: Seq<char>,
    found: Map<Seq<char>, Seq<char>>,
    runs: RunsView,
) -> ScreenView {
    refocused_of(
        ScreenView {
            rows: rows::rows_of(u),
            sel: settled_of(rows::rows_of(u), v.sel),
            derived: pane::refreshed_of(v.derived, u, dir, found, runs),
            ..v
        },
        u,
    )
}

/// A screen for a unit.
pub open spec fn opened_of(
    u: UnitView,
    title: Seq<char>,
    shown: Pane,
    dir: Seq<char>,
    found: Map<Seq<char>, Seq<char>>,
    runs: RunsView,
) -> ScreenView {
    synced_of(
        ScreenView {
            title,
            rows: rows::rows_of(u),
            sel: rows::first_from(rows::rows_of(u), 0),
            top: 0,
            pane: shown,
            pane_top: 0,
            status: seq![],
            flash: None,
            browsable: false,
            derived: pane::blank_derived(),
        },
        u,
        dir,
        found,
        runs,
    )
}

/// The screen after a move of the selection.
pub open spec fn stepped_of(v: ScreenView, delta: int) -> ScreenView {
    ScreenView { sel: rows::step_of(v.rows, v.sel, delta), pane_top: 0, ..v }
}

// ---------------------------------------------------------------------------
// Keys
// ---------------------------------------------------------------------------

/// What the screen asks for after a key.
#[derive(Debug, Clone, Copy, PartialEq, Eq, Structural)]
pub enum Action {
    Stay,
    /// Install the unit.
    Save,
    /// Ask whether to throw the unit away.
    Discard,
    /// Edit the row in focus.
    Activate(Id),
    /// Browse for the path in focus.
    Browse(Id),
    /// Show the files.
    Preview,
    /// Walk the advisory checks.
    Review,
    /// Apply the fix of the row in focus.
    Fix(Id),
    /// Explain the row in focus.
    Explain(Id),
}

/// What browsing says on a row that holds no path.
pub open spec fn browse_refusal() -> Seq<char> {
    "b browses only path fields: ExecStart, ExecStartPre, ExecStopPost, WorkingDirectory, What and Where"@
}

/// What is said of another pane.
pub open spec fn pane_flash(p: Pane) -> Seq<char> {
    if p == Pane::Off {
        "pane off -- v brings it back"@
    } else {
        "pane: "@ + p.title_of()
    }
}

/// The screen after a key, and what it asks for.
#[verifier::opaque]
pub open spec fn pressed_of(v: ScreenView, u: UnitView, k: Key) -> (ScreenView, Action) {
    let v = ScreenView { flash: None, ..v };
    match k {
        Key::Resize | Key::Click(_, _) | Key::DoubleClick(_, _) => (v, Action::Stay),
        Key::Scroll(d) => (stepped_of(v, d as int), Action::Stay),
        Key::Press(code, _) => if k.controls('s') {
            (v, Action::Save)
        } else if code == KeyCode::Esc {
            (v, Action::Discard)
        } else if code == KeyCode::Up || code == KeyCode::BackTab || k.types('k') {
            (stepped_of(v, -1), Action::Stay)
        } else if code == KeyCode::Down || code == KeyCode::Tab || k.types('j') {
            (stepped_of(v, 1), Action::Stay)
        } else if code == KeyCode::PageUp {
            (
                ScreenView {
                    pane_top: if v.pane_top > PANE_SCROLL {
                        v.pane_top - PANE_SCROLL
                    } else {
                        0
                    },
                    ..v
                },
                Action::Stay,
            )
        } else if code == KeyCode::PageDown {
            (
                ScreenView {
                    pane_top: if v.pane_top + PANE_SCROLL < usize::MAX {
                        v.pane_top + PANE_SCROLL
                    } else {
                        usize::MAX as int
                    },
                    ..v
                },
                Action::Stay,
            )
        } else if code == KeyCode::Enter {
            if v.focus() == Id::Save {
                (v, Action::Save)
            } else {
                (v, Action::Activate(v.focus()))
            }
        } else if k.types('b') {
            if fields::browsable_of(u, v.focus()) is Some {
                (v, Action::Browse(v.focus()))
            } else {
                (ScreenView { flash: Some(browse_refusal()), ..v }, Action::Stay)
            }
        } else if k.types('p') {
            (v, Action::Preview)
        } else if k.types('v') {
            (
                ScreenView {
                    pane: v.pane.next_of(),
                    pane_top: 0,
                    flash: Some(pane_flash(v.pane.next_of())),
                    ..v
                },
                Action::Stay,
            )
        } else if k.types('c') {
            (v, Action::Review)
        } else if k.types('f') {
            (v, Action::Fix(v.focus()))
        } else if k.types('?') {
            (v, Action::Explain(v.focus()))
        } else {
            (v, Action::Stay)
        },
    }
}

impl Screen {
    /// A screen for a unit: where its files go, where programs were found,
    /// and what the analysis of its schedule gave.
    pub fn new(
        u: &Unit,
        title: &str,
        shown: Pane,
        dir: &str,
        found: &StrMap<String>,
        ran: Result<Vec<NextRun>, PreviewError>,
    ) -> (r: Screen)
        ensures
            r@ == opened_of(u@, title@, shown, dir@, found@, pane::analysed_of(ran)),
    {
        let list = rows::rows_for(u);
        let sel = rows::first_selectable(&list);
        let mut v = Screen {
            title: title.to_owned(),
            rows: list,
            sel,
            top: 0,
            pane: shown,
            pane_top: 0,
            status: String::new(),
            flash: None,
            browsable: false,
            derived: Derived::blank(),
        };
        assert(v@.status =~= seq![]);
        v.sync(u, dir, found, ran);
        v
    }

    /// Rebuild everything that follows from the unit after an edit.
    pub fn sync(
        &mut self,
        u: &Unit,
        dir: &str,
        found: &StrMap<String>,
        ran: Result<Vec<NextRun>, PreviewError>,
    )
        ensures
            final(self)@ == synced_of(old(self)@, u@, dir@, found@, pane::analysed_of(ran)),
    {
        self.rows = rows::rows_for(u);
        let n: usize = self.rows.len();
        let ghost all = rows::row_views(self.rows@);
        assert(all.len() == n);
        if self.sel >= n {
            self.sel = if n > 0 {
                n - 1
            } else {
                0
            };
        }
        if self.sel < n {
            assert(all[self.sel as int] == self.rows@[self.sel as int]@);
            if self.rows[self.sel].id == Id::Heading {
                self.sel = rows::step(&self.rows, self.sel, 1);
            }
        }
        self.derived.refresh(u, dir, found, ran);
        self.refocus(u);
    }

    /// Everything that depends on which row is focused rather than on the
    /// unit's contents.
    pub fn refocus(&mut self, u: &Unit)
        ensures
            final(self)@ == refocused_of(old(self)@, u@),
    {
        let id = self.current();
        self.browsable = fields::browsable(u, id).is_some();
        self.status = checks::status_line(u, &self.derived, id);
    }

    /// The row in focus.
    pub fn current(&self) -> (r: Id)
        ensures
            r == self@.focus(),
    {
        assert(self@.rows.len() == self.rows@.len());
        if self.sel < self.rows.len() {
            assert(self@.rows[self.sel as int] == self.rows@[self.sel as int]@);
            self.rows[self.sel].id
        } else {
            Id::Heading
        }
    }

    /// Moves the selection past headings.
    pub fn step(&mut self, delta: i8)
        ensures
            final(self)@ == stepped_of(old(self)@, delta as int),
    {
        self.sel = rows::step(&self.rows, self.sel, delta);
        self.pane_top = 0;
    }

    /// Handles a key, and says what it asks for.
    pub fn press(&mut self, u: &Unit, k: Key) -> (r: Action)
        ensures
            (final(self)@, r) == pressed_of(old(self)@, u@, k),
    {
        proof {
            reveal(pressed_of);
        }
        self.flash = None;
        let code = match k {
            Key::Resize | Key::Click(_, _) | Key::DoubleClick(_, _) => {
                return Action::Stay;
            },
            Key::Scroll(d) => {
                self.step(d);
                return Action::Stay;
            },
            Key::Press(code, _) => code,
        };
        let id = self.current();
        if k.is_ctrl('s') {
            return Action::Save;
        }
        if code == KeyCode::Esc {
            return Action::Discard;
        }
        if code == KeyCode::Up || code == KeyCode::BackTab || k.is_char('k') {
            self.step(-1);
            return Action::Stay;
        }
        if code == KeyCode::Down || code == KeyCode::Tab || k.is_char('j') {
            self.step(1);
            return Action::Stay;
        }
        if code == KeyCode::PageUp {
            self.pane_top = if self.pane_top > PANE_SCROLL {
                self.pane_top - PANE_SCROLL
            } else {
                0
            };
            return Action::Stay;
        }
        if code == KeyCode::PageDown {
            self.pane_top = if self.pane_top < usize::MAX - PANE_SCROLL {
                self.pane_top + PANE_SCROLL
            } else {
                usize::MAX
            };
            return Action::Stay;
        }
        if code == KeyCode::Enter {
            return if id == Id::Save {
                Action::Save
            } else {
                Action::Activate(id)
            };
        }
        if k.is_char('b') {
            if fields::browsable(u, id).is_some() {
                return Action::Browse(id);
            }
            self.flash =
            Some(
                "b browses only path fields: ExecStart, ExecStartPre, ExecStopPost, WorkingDirectory, What and Where".to_owned(),
            );
            return Action::Stay;
        }
        if k.is_char('p') {
            return Action::Preview;
        }
        if k.is_char('v') {
            self.pane = self.pane.next();
            self.pane_top = 0;
            self.flash =
            Some(
                if self.pane == Pane::Off {
                    "pane off -- v brings it back".to_owned()
                } else {
                    text::cat2("pane: ", self.pane.title())
                },
            );
            return Action::Stay;
        }
        if k.is_char('c') {
            return Action::Review;
        }
        if k.is_char('f') {
            return Action::Fix(id);
        }
        if k.is_char('?') {
            return Action::Explain(id);
        }
        Action::Stay
    }
}

/// How far the row `t` is ahead of the row `i`, going down and around.
pub open spec fn ahead(i: int, t: int, n: int) -> int {
    if t > i {
        t - i
    } else {
        t + n - i
    }
}

proof fn lemma_step_finds(rows: Seq<RowView>, from: int, i: int, t: int, left: int)
    requires
        0 <= i < rows.len(),
        0 <= t < rows.len(),
        rows[t].id != Id::Heading,
        ahead(i, t, rows.len() as int) <= left,
    ensures
        ({
            let r = rows::stepped_from(rows, from, i, 1, left);
            0 <= r < rows.len() && rows[r].id != Id::Heading
        }),
    decreases left,
{
    let n = rows.len() as int;
    let j = (i + 1) % n;
    if i + 1 == n {
        vstd::arithmetic::div_mod::lemma_mod_self_0(n);
    } else {
        vstd::arithmetic::div_mod::lemma_small_mod((i + 1) as nat, n as nat);
    }
    if rows[j].id == Id::Heading {
        lemma_step_finds(rows, from, j, t, left - 1);
    }
}

proof fn lemma_first_selectable(rows: Seq<RowView>, i: int, t: int)
    requires
        0 <= i <= t < rows.len(),
        rows[t].id != Id::Heading,
    ensures
        0 <= rows::first_from(rows, i) < rows.len(),
        rows[rows::first_from(rows, i)].id != Id::Heading,
    decreases t - i,
{
    if rows[i].id == Id::Heading {
        lemma_first_selectable(rows, i + 1, t);
    }
}

/// The selection never rests on a heading: not when the screen opens, not
/// after the unit changed under it, and not after any key.
pub proof fn law_a_row_is_always_selected(
    v: ScreenView,
    u: UnitView,
    title: Seq<char>,
    shown: Pane,
    dir: Seq<char>,
    found: Map<Seq<char>, Seq<char>>,
    runs: RunsView,
    k: Key,
)
    requires
        v.sel >= 0,
    ensures
        opened_of(u, title, shown, dir, found, runs).wf(),
        synced_of(v, u, dir, found, runs).wf(),
        v.wf() ==> pressed_of(v, u, k).0.wf(),
{
    let list = rows::rows_of(u);
    rows::law_every_form_can_be_saved(u);
    let t = choose|t: int| 0 <= t < list.len() && list[t].id == Id::Save;
    lemma_first_selectable(list, 0, t);
    let at = if v.sel < list.len() {
        v.sel
    } else {
        list.len() - 1
    };
    if list[at].id == Id::Heading {
        lemma_step_finds(list, at, at, t, list.len() as int);
    }
    reveal(pressed_of);
    if v.wf() {
        rows::law_steps_skip_headings(v.rows, v.sel, 1);
        rows::law_steps_skip_headings(v.rows, v.sel, -1);
        if let Key::Scroll(d) = k {
            rows::law_steps_skip_headings(v.rows, v.sel, d as int);
        }
    }
}

// ---------------------------------------------------------------------------
// What the screen shows
// ---------------------------------------------------------------------------

/// The first row shown, so that the selected one is among the visible ones.
pub open spec fn top_of(sel: int, top: int, visible: int) -> int {
    if sel < top {
        sel
    } else if sel >= top + visible {
        sel + 1 - visible
    } else {
        top
    }
}

/// One line of the form.
pub open spec fn row_line(r: RowView, selected: bool, width: int) -> Seq<SpanView> {
    if r.id == Id::Heading {
        paint::styled_of(
            " "@ + r.label,
            Style { bold: true, fg: Some(Color::Cyan), ..Style::plain_of() },
        )
    } else {
        paint::styled_of(
            rows::truncated_of(
                " "@ + (if selected {
                    ">"@
                } else {
                    " "@
                }) + " "@ + text::pad_right_of(r.label, LABEL_WIDTH as int) + " "@
                    + rows::truncated_of(r.value, width - (LABEL_WIDTH + 4)),
                width,
            ),
            if selected {
                Style { bold: true, reversed: true, ..Style::plain_of() }
            } else {
                Style::plain_of()
            },
        )
    }
}

fn draw_row(r: &Row, selected: bool, width: usize) -> (l: Line)
    ensures
        l@ == row_line(r@, selected, width as int),
{
    let mut style = Style::plain();
    if r.id == Id::Heading {
        style.bold = true;
        style.fg = Some(Color::Cyan);
        return paint::styled(text::cat2(" ", r.label), style);
    }
    let mark = if selected {
        ">"
    } else {
        " "
    };
    let room: usize = if width > LABEL_WIDTH + 4 {
        width - (LABEL_WIDTH + 4)
    } else {
        0
    };
    let value = rows::truncate(r.value.as_str(), room);
    let label = text::pad_right(r.label, LABEL_WIDTH);
    let left = text::cat5(" ", mark, " ", label.as_str(), " ");
    let all = text::cat2(left.as_str(), value.as_str());
    if selected {
        style.bold = true;
        style.reversed = true;
    }
    paint::styled(rows::truncate(all.as_str(), width), style)
}

/// The rows of the form in view, in `visible` lines of `width` columns.
pub open spec fn form_of(v: ScreenView, width: int, visible: int) -> Seq<Seq<SpanView>> {
    let top = top_of(v.sel, v.top, visible);
    let left = v.rows.len() - top;
    let n = if left < 0 {
        0
    } else if left < visible {
        left
    } else {
        visible
    };
    Seq::new(n as nat, |i: int| row_line(v.rows[top + i], top + i == v.sel, width))
}

/// The two ways the browsing hint is put.
pub open spec fn browse_hint(on: bool) -> Seq<char> {
    if on {
        "b browses this path"@
    } else {
        "b browses paths"@
    }
}

/// How a hint looks: the browsing one stands out where a path is in focus.
pub open spec fn hint_style(on: bool, hint: Seq<char>) -> Style {
    if on && hint == browse_hint(on) {
        Style { bold: true, fg: Some(Color::Cyan), ..Style::plain_of() }
    } else {
        Style::fg_of(Color::DarkGray)
    }
}

/// The keybinding line, with two columns between hints.
pub open spec fn hints_of(hints: Seq<Seq<char>>, on: bool) -> Seq<SpanView>
    decreases hints.len(),
{
    if hints.len() == 0 {
        seq![]
    } else {
        let before = hints_of(hints.drop_last(), on);
        let gap = if before.len() == 0 {
            before
        } else {
            before.push(SpanView { content: "  "@, style: Style::plain_of() })
        };
        gap.push(SpanView { content: hints.last(), style: hint_style(on, hints.last()) })
    }
}

/// How the pane looks.
pub open spec fn pane_style(v: ScreenView) -> Style {
    if v.pane == Pane::Checks && v.derived.diags.len() > 0 {
        Style::fg_of(Color::Yellow)
    } else if v.pane == Pane::Preview {
        Style::fg_of(Color::Gray)
    } else {
        Style::plain_of()
    }
}

/// The first line of the pane shown: one that the pane has.
pub open spec fn pane_top_of(top: int, len: int) -> int {
    if len == 0 {
        0
    } else if top < len {
        top
    } else {
        len - 1
    }
}

/// The lines of the pane in view.
pub open spec fn pane_lines_of(
    v: ScreenView,
    doc: Seq<fieldhelp::EntryView>,
    width: int,
    height: int,
) -> Seq<Seq<SpanView>> {
    let body = pane::pane_body_of(v.pane, v.focus(), doc, v.derived, width);
    let top = pane_top_of(v.pane_top, body.len() as int);
    let left = body.len() - top;
    let n = if left < height {
        left
    } else {
        height
    };
    Seq::new(n as nat, |i: int| paint::styled_of(body[top + i], pane_style(v)))
}

impl Screen {
    /// The form in `height` lines of `width` columns, scrolled so that the
    /// selected row shows.
    pub fn form_lines(&mut self, width: usize, height: usize) -> (r: Vec<Line>)
        requires
            old(self).sel < usize::MAX,
        ensures
            ({
                let visible = if height > 0 {
                    height as int
                } else {
                    1
                };
                &&& paint::line_views(r@) == form_of(old(self)@, width as int, visible)
                &&& final(self)@ == (ScreenView {
                    top: top_of(old(self)@.sel, old(self)@.top, visible),
                    ..old(self)@
                })
            }),
    {
        let visible: usize = if height > 0 {
            height
        } else {
            1
        };
        let ghost v = self@;
        if self.sel < self.top {
            self.top = self.sel;
        } else if self.sel - self.top >= visible {
            self.top = self.sel + 1 - visible;
        }
        let top = self.top;
        let n: usize = self.rows.len();
        let ghost all = rows::row_views(self.rows@);
        let mut out: Vec<Line> = Vec::new();
        let mut i: usize = 0;
        while i < visible && top < n && i < n - top
            invariant
                n == self.rows@.len(),
                i <= visible,
                top < n ==> i <= n - top,
                top >= n ==> i == 0,
                top == self.top,
                all == rows::row_views(self.rows@),
                out@.len() == i,
                forall|j: int|
                    0 <= j < i ==> (#[trigger] out@[j])@ == row_line(
                        all[top + j],
                        top + j == self.sel,
                        width as int,
                    ),
            decreases visible - i,
        {
            let at: usize = top + i;
            assert(all[at as int] == self.rows@[at as int]@);
            out.push(draw_row(&self.rows[at], at == self.sel, width));
            i += 1;
        }
        assert(paint::line_views(out@) =~= form_of(v, width as int, visible as int));
        out
    }

    /// The status line: the one-shot message where there is one.
    pub fn status_text(&self, width: usize) -> (r: String)
        ensures
            r@ == rows::truncated_of(
                match self@.flash {
                    Some(s) => s,
                    None => self@.status,
                },
                width as int,
            ),
    {
        match &self.flash {
            Some(s) => rows::truncate(s.as_str(), width),
            None => rows::truncate(self.status.as_str(), width),
        }
    }

    /// The keybinding line.
    pub fn hint_line(&self, width: usize) -> (r: Line)
        ensures
            r@ == hints_of(
                rows::fitted_hints(
                    rows::all_hints(browse_hint(self@.browsable)),
                    rows::droppable(browse_hint(self@.browsable)),
                    width as int,
                ),
                self@.browsable,
            ),
    {
        let on = self.browsable;
        let browse = if on {
            "b browses this path"
        } else {
            "b browses paths"
        };
        let hints = rows::key_hints(browse, width);
        let ghost all = text::texts(hints@);
        let mut spans: Vec<Span> = Vec::new();
        let mut i: usize = 0;
        assert(all.take(0) =~= seq![]);
        assert(paint::span_views(spans@) =~= seq![]);
        while i < hints.len()
            invariant
                i <= hints@.len(),
                all == text::texts(hints@),
                browse@ == browse_hint(on),
                paint::span_views(spans@) == hints_of(all.take(i as int), on),
            decreases hints@.len() - i,
        {
            assert(all.take(i + 1).drop_last() =~= all.take(i as int));
            assert(all.take(i + 1).last() == hints@[i as int]@);
            let ghost before = paint::span_views(spans@);
            assert(before.len() == spans@.len());
            if spans.len() > 0 {
                spans.push(Span { content: "  ".to_owned(), style: Style::plain() });
                assert(paint::span_views(spans@) =~= before.push(
                    SpanView { content: "  "@, style: Style::plain_of() },
                ));
            }
            let ghost gap = paint::span_views(spans@);
            let mut style = Style::colored(Color::DarkGray);
            if on && text::same(hints[i].as_str(), browse) {
                style = Style::plain();
                style.bold = true;
                style.fg = Some(Color::Cyan);
            }
            spans.push(Span { content: hints[i].clone(), style });
            assert(paint::span_views(spans@) =~= gap.push(
                SpanView { content: all[i as int], style: hint_style(on, all[i as int]) },
            ));
            i += 1;
        }
        assert(all.take(hints@.len() as int) =~= all);
        Line { spans }
    }

    /// The pane in `height` lines of `width` columns, scrolled to a line that
    /// it has.
    pub fn pane_lines(&mut self, doc: &[fieldhelp::Entry], width: usize, height: usize) -> (r: Vec<
        Line,
    >)
        ensures
            paint::line_views(r@) == pane_lines_of(
                old(self)@,
                fieldhelp::entry_views(doc@),
                width as int,
                height as int,
            ),
            final(self)@ == (ScreenView {
                pane_top: pane_top_of(
                    old(self)@.pane_top,
                    pane::pane_body_of(
                        old(self)@.pane,
                        old(self)@.focus(),
                        fieldhelp::entry_views(doc@),
                        old(self)@.derived,
                        width as int,
                    ).len() as int,
                ),
                ..old(self)@
            }),
    {
        let ghost v = self@;
        let body = pane::pane_body(self.pane, self.current(), doc, &self.derived, width);
        let ghost all = text::texts(body@);
        let len: usize = body.len();
        assert(all.len() == len);
        if self.pane_top >= len {
            self.pane_top = if len > 0 {
                len - 1
            } else {
                0
            };
        }
        let top = self.pane_top;
        assert(self.derived@.diags.len() == self.derived.diags@.len());
        let style = if self.pane == Pane::Checks && self.derived.diags.len() > 0 {
            Style::colored(Color::Yellow)
        } else if self.pane == Pane::Preview {
            Style::colored(Color::Gray)
        } else {
            Style::plain()
        };
        let mut out: Vec<Line> = Vec::new();
        let mut i: usize = 0;
        while i < height && i < len - top
            invariant
                i <= height,
                i <= len - top,
                top <= len == body@.len(),
                all == text::texts(body@),
                out@.len() == i,
                forall|j: int|
                    0 <= j < i ==> (#[trigger] out@[j])@ == paint::styled_of(all[top + j], style),
            decreases height - i,
        {
            let at: usize = top + i;
            assert(all[at as int] == body@[at as int]@);
            out.push(paint::styled(body[at].clone(), style));
            i += 1;
        }
        assert(paint::line_views(out@) =~= pane_lines_of(
            v,
            fieldhelp::entry_views(doc@),
            width as int,
            height as int,
        ));
        out
    }
}

/// The selected row is always among the lines shown.
pub proof fn law_the_selected_row_shows(v: ScreenView, width: int, visible: int)
    requires
        v.wf(),
        v.top >= 0,
        visible > 0,
    ensures
        ({
            let top = top_of(v.sel, v.top, visible);
            &&& 0 <= v.sel - top < form_of(v, width, visible).len()
            &&& form_of(v, width, visible)[v.sel - top] == row_line(v.rows[v.sel], true, width)
        }),
{
}

// ---------------------------------------------------------------------------
// Dialogs
// ---------------------------------------------------------------------------

/// The help of a row: its title and its text.
pub open spec fn explained_of(id: Id, doc: Seq<fieldhelp::EntryView>) -> Option<
    (Seq<char>, Seq<char>),
> {
    match rows::help_key_of(id) {
        None => None,
        Some(key) => match fieldhelp::entry_of(doc, key) {
            None => None,
            Some(e) => Some(
                (
                    e.label,
                    parts::join_of(
                        wrap::wrapped_of(
                            e.summary + "\n\n"@ + e.detail + "\n\nExamples: "@ + e.examples,
                            76,
                        ),
                        "\n"@,
                    ),
                ),
            ),
        },
    }
}

/// The full help entry of a row, for when the pane is off or too narrow for
/// the detail paragraph: its title and its text.
pub fn explain(id: Id, doc: &[fieldhelp::Entry]) -> (r: Option<(String, String)>)
    ensures
        match r {
            Some((t, s)) => explained_of(id, fieldhelp::entry_views(doc@)) == Some((t@, s@)),
            None => explained_of(id, fieldhelp::entry_views(doc@)) is None,
        },
{
    match rows::help_key(id) {
        None => None,
        Some(key) => match fieldhelp::entry(doc, key) {
            None => None,
            Some(e) => {
                let body = text::cat5(
                    e.summary.as_str(),
                    "\n\n",
                    e.detail.as_str(),
                    "\n\nExamples: ",
                    e.examples.as_str(),
                );
                let lines = wrap::wrap_lines(body.as_str(), 76);
                Some((e.label.clone(), parts::join(&lines, "\n")))
            },
        },
    }
}

/// The files as they would be written, with what is missing on top.
pub fn preview(u: &Unit, dir: &str) -> (r: String)
    ensures
        r@ == (match u@.error_of() {
            None => generate::preview_of(u@, dir@),
            Some(e) => "(incomplete: "@ + e + ")\n\n"@ + generate::preview_of(u@, dir@),
        }),
{
    let body = generate::preview(u, dir);
    match u.validate() {
        Ok(_) => body,
        Err(e) => {
            let head = text::cat3("(incomplete: ", e.as_str(), ")\n\n");
            text::cat2(head.as_str(), body.as_str())
        },
    }
}

/// The files that an installation writes, or why it cannot be done.
pub open spec fn installable_of(u: UnitView) -> Result<Seq<Seq<char>>, Seq<char>> {
    match u.error_of() {
        Some(e) => Err(e),
        None => u.filenames_of(),
    }
}

/// The files that an installation writes, or why it cannot be done.
pub fn installable(u: &Unit) -> (r: Result<Vec<String>, String>)
    ensures
        match r {
            Ok(v) => installable_of(u@) == Ok::<Seq<Seq<char>>, Seq<char>>(text::texts(v@)),
            Err(e) => installable_of(u@) == Err::<Seq<Seq<char>>, Seq<char>>(e@),
        },
{
    match u.validate() {
        Err(e) => Err(e),
        Ok(_) => u.filenames(),
    }
}

/// What is asked before an installation: where to, which files, and which of
/// them are already there.
pub fn install_body(dir: &str, files: &[String], existing: &[String]) -> (r: String)
    ensures
        r@ == "Write into "@ + dir@ + ":\n  "@ + parts::join_of(text::texts(files@), "\n  "@) + "\n"@
            + (if existing@.len() == 0 {
            ""@
        } else {
            "\nOverwrites: "@ + parts::join_of(text::texts(existing@), ", "@) + "\n"@
        }),
{
    let list = parts::join(files, "\n  ");
    let head = text::cat5("Write into ", dir, ":\n  ", list.as_str(), "\n");
    if existing.len() == 0 {
        text::cat2(head.as_str(), "")
    } else {
        let old_files = parts::join(existing, ", ");
        let tail = text::cat3("\nOverwrites: ", old_files.as_str(), "\n");
        text::cat2(head.as_str(), tail.as_str())
    }
}

/// Warnings, each in a paragraph of its own.
pub open spec fn warned_of(warnings: Seq<Seq<char>>) -> Seq<char>
    decreases warnings.len(),
{
    if warnings.len() == 0 {
        seq![]
    } else {
        warned_of(warnings.drop_last()) + "\n\nwarning: "@ + warnings.last()
    }
}

/// What is said after an installation.
pub fn installed_body(written: &[String], warnings: &[String]) -> (r: String)
    ensures
        r@ == "Installed:\n  "@ + parts::join_of(text::texts(written@), "\n  "@) + warned_of(
            text::texts(warnings@),
        ),
{
    let list = parts::join(written, "\n  ");
    let head = text::cat2("Installed:\n  ", list.as_str());
    let ghost all = text::texts(warnings@);
    let mut out = head.clone();
    let mut i: usize = 0;
    assert(all.take(0) =~= seq![]);
    assert(head@ + seq![] =~= head@);
    while i < warnings.len()
        invariant
            i <= warnings@.len(),
            all == text::texts(warnings@),
            out@ == head@ + warned_of(all.take(i as int)),
        decreases warnings@.len() - i,
    {
        assert(all.take(i + 1).drop_last() =~= all.take(i as int));
        assert(all.take(i + 1).last() == warnings@[i as int]@);
        let ghost before = out@;
        out.push_str("\n\nwarning: ");
        out.push_str(warnings[i].as_str());
        assert(out@ =~= head@ + warned_of(all.take(i + 1)));
        i += 1;
    }
    assert(all.take(warnings@.len() as int) =~= all);
    out
}

} // verus!
