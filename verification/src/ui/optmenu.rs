//! The mount `Options=` menu: a modal list of the options that actually do
//! something in a `.mount` unit, filtered by the filesystem type, with the
//! composed option string shown live underneath.

use crate::fieldhelp;
use crate::text;
use crate::ui::paint;
use crate::ui::paint::{Color, Line, SpanView, Style};
use crate::ui::steps;
use crate::ui::term;
use crate::ui::term::{Key, KeyCode, Rect};
use crate::ui::wrap;
use crate::unit::escape;
use crate::unit::mountopts;
use crate::unit::mountopts::{Family, Kind, OptionSet, SetView, Spec, SpecView};
use vstd::prelude::*;

verus! {

broadcast use vstd::string::group_string_axioms;

/// A line in the menu.
#[derive(Debug, Clone, PartialEq, Eq)]
pub enum Row {
    /// A non-selectable heading.
    Heading(&'static str),
    /// A toggleable option.
    Opt(Spec),
    /// The free-text entry holding every option the menu cannot represent.
    /// Its existence is what makes editing someone else's unit lossless.
    Extras,
    /// A non-selectable note. Points at the companion `.automount` toggle,
    /// which is the only thing that actually produces automount behaviour.
    Note(&'static str),
}

/// The contents of a [`Row`].
#[verifier::ext_equal]
pub enum RowView {
    Heading(Seq<char>),
    Opt(SpecView),
    Extras,
    Note(Seq<char>),
}

impl View for Row {
    type V = RowView;

    open spec fn view(&self) -> RowView {
        match self {
            Row::Heading(h) => RowView::Heading(h@),
            Row::Opt(s) => RowView::Opt(s@),
            Row::Extras => RowView::Extras,
            Row::Note(n) => RowView::Note(n@),
        }
    }
}

impl RowView {
    /// Whether the selection can stand on the row.
    pub open spec fn is_selectable(self) -> bool {
        self is Opt || self is Extras
    }
}

impl Row {
    /// Whether the selection can stand on the row.
    pub fn selectable(&self) -> (r: bool)
        ensures
            r == self@.is_selectable(),
    {
        match self {
            Row::Opt(_) => true,
            Row::Extras => true,
            _ => false,
        }
    }
}

/// The contents of a list of rows.
pub open spec fn row_views(v: Seq<Row>) -> Seq<RowView> {
    Seq::new(v.len(), |i: int| v[i]@)
}

/// A row for each option.
pub open spec fn option_rows(specs: Seq<SpecView>) -> Seq<RowView> {
    Seq::new(specs.len(), |i: int| RowView::Opt(specs[i]))
}

/// The note at the end of the menu.
pub open spec fn note_text() -> Seq<char> {
    "x-systemd.* options are fstab-only and do nothing in a unit file \u{2014} for automounting, use the builder's \"Companion .automount\" toggle."@
}

/// The rows for a filesystem family, in menu order: the generic options, then
/// the ones specific to it, then the free-text entry and the note.
pub open spec fn rows_of(family: Family) -> Seq<RowView> {
    seq![RowView::Heading("Generic"@)] + option_rows(mountopts::generic_specs()) + (
    if family.extra_specs().len() == 0 {
        seq![]
    } else {
        seq![RowView::Heading(family.label_of())] + option_rows(family.extra_specs())
    }) + seq![
        RowView::Heading("Anything else"@),
        RowView::Extras,
        RowView::Note(note_text()),
    ]
}

fn add_options(out: &mut Vec<Row>, specs: &[Spec])
    ensures
        row_views(final(out)@) == row_views(old(out)@) + option_rows(
            mountopts::spec_views(specs@),
        ),
{
    let ghost start = row_views(out@);
    let ghost more = option_rows(mountopts::spec_views(specs@));
    let mut i: usize = 0;
    assert(start + more.take(0) =~= start);
    while i < specs.len()
        invariant
            i <= specs@.len(),
            more == option_rows(mountopts::spec_views(specs@)),
            row_views(out@) == start + more.take(i as int),
        decreases specs@.len() - i,
    {
        let ghost before = row_views(out@);
        out.push(Row::Opt(specs[i]));
        assert(row_views(out@) =~= before.push(more[i as int]));
        assert((start + more.take(i as int)).push(more[i as int]) =~= start + more.take(i + 1));
        i += 1;
    }
    assert(more.take(specs@.len() as int) =~= more);
}

/// The rows for a set, in menu order: the generic options, then the ones
/// specific to this filesystem, then the free-text entry and the note.
pub fn rows(set: &OptionSet) -> (r: Vec<Row>)
    ensures
        row_views(r@) == rows_of(set@.family),
{
    let family = set.family();
    let mut out: Vec<Row> = Vec::new();
    out.push(Row::Heading("Generic"));
    assert(row_views(out@) =~= seq![RowView::Heading("Generic"@)]);
    let generic = mountopts::generic();
    add_options(&mut out, &generic);
    let extras = family.extras();
    let ghost head = row_views(out@);
    assert(mountopts::spec_views(extras@).len() == extras@.len());
    if extras.len() > 0 {
        out.push(Row::Heading(family.label()));
        assert(row_views(out@) =~= head + seq![RowView::Heading(family.label_of())]);
        add_options(&mut out, &extras);
        assert(row_views(out@) =~= head + (seq![RowView::Heading(family.label_of())] + option_rows(
            family.extra_specs(),
        )));
    } else {
        assert(head + seq![] =~= head);
    }
    let ghost most = row_views(out@);
    out.push(Row::Heading("Anything else"));
    out.push(Row::Extras);
    out.push(
        Row::Note(
            "x-systemd.* options are fstab-only and do nothing in a unit file \u{2014} for automounting, use the builder's \"Companion .automount\" toggle.",
        ),
    );
    assert(row_views(out@) =~= most + seq![
        RowView::Heading("Anything else"@),
        RowView::Extras,
        RowView::Note(note_text()),
    ]);
    out
}

/// Whether an option of that key is set.
pub open spec fn is_on_of(set: SetView, key: Seq<char>) -> bool {
    exists|i: int| 0 <= i < set.opts.len() && (#[trigger] set.opts[i]).key == key
}

/// The value set for a key, if it is present and has one.
pub open spec fn value_at(set: SetView, key: Seq<char>) -> Option<Seq<char>> {
    let i = mountopts::key_index(set.opts, key);
    if i < set.opts.len() {
        set.opts[i].value
    } else {
        None
    }
}

/// The options that the menu cannot represent, as text.
pub open spec fn extras_text_of(set: SetView) -> Seq<char> {
    mountopts::compose_of(mountopts::extras_of(set.opts, set.family))
}

/// The text of one row.
pub open spec fn label_of(set: SetView, row: RowView) -> Seq<char> {
    match row {
        RowView::Heading(h) => h,
        RowView::Note(n) => n,
        RowView::Extras => if extras_text_of(set).len() == 0 {
            "[ ] other options"@
        } else {
            "[x] other options   "@ + extras_text_of(set)
        },
        RowView::Opt(spec) => (if is_on_of(set, spec.key) {
            "[x] "@
        } else {
            "[ ] "@
        }) + spec.key + (match spec.kind {
            Kind::Flag => ""@,
            Kind::Value => match value_at(set, spec.key) {
                Some(v) => "="@ + v,
                None => if is_on_of(set, spec.key) {
                    ""@
                } else {
                    "=\u{2026}"@
                },
            },
        }),
    }
}

/// The text of one row, given the current state of the set.
pub fn label(set: &OptionSet, row: &Row) -> (r: String)
    ensures
        r@ == label_of(set@, row@),
{
    match row {
        Row::Heading(h) => (*h).to_owned(),
        Row::Note(n) => (*n).to_owned(),
        Row::Extras => {
            let extras = set.extras_text();
            if extras.as_str().unicode_len() == 0 {
                "[ ] other options".to_owned()
            } else {
                text::cat2("[x] other options   ", extras.as_str())
            }
        },
        Row::Opt(spec) => {
            let on = set.is_on(spec.key);
            let mark = if on {
                "[x] "
            } else {
                "[ ] "
            };
            let tail = match spec.kind {
                Kind::Flag => "".to_owned(),
                Kind::Value => match set.value_of(spec.key) {
                    Some(v) => text::cat2("=", v),
                    None => if on {
                        "".to_owned()
                    } else {
                        "=\u{2026}".to_owned()
                    },
                },
            };
            text::cat3(mark, spec.key, tail.as_str())
        },
    }
}

/// The one-line summary for a row, by a help document.
pub open spec fn summary_of(row: RowView, doc: Seq<fieldhelp::EntryView>) -> Seq<char> {
    match row {
        RowView::Opt(spec) => match fieldhelp::entry_of(doc, spec.help) {
            Some(e) => e.summary,
            None => ""@,
        },
        RowView::Extras => "Options notcron does not offer, kept verbatim so nothing is lost."@,
        _ => ""@,
    }
}

/// The one-line summary shown under the list for the focused row.
pub fn summary(row: &Row, doc: &[fieldhelp::Entry]) -> (r: String)
    ensures
        r@ == summary_of(row@, fieldhelp::entry_views(doc@)),
{
    match row {
        Row::Opt(spec) => match fieldhelp::entry(doc, spec.help) {
            Some(e) => e.summary.clone(),
            None => "".to_owned(),
        },
        Row::Extras => "Options notcron does not offer, kept verbatim so nothing is lost.".to_owned(),
        _ => "".to_owned(),
    }
}

/// The menu's popup, sized like the picker's so the two feel like one thing.
pub fn menu_rect(area: Rect) -> (r: Rect)
    requires
        area.fits(),
    ensures
        r == term::popup_of(
            area,
            if area.width > 36 {
                area.width - 6
            } else {
                30
            },
            if area.height > 12 {
                area.height - 2
            } else {
                10
            },
        ),
        r.is_inside(area),
        r.fits(),
{
    let w: u16 = if area.width > 36 {
        area.width - 6
    } else {
        30
    };
    let h: u16 = if area.height > 12 {
        area.height - 2
    } else {
        10
    };
    term::popup_rect(area, w, h)
}

// ---------------------------------------------------------------------------
// State
// ---------------------------------------------------------------------------

/// Everything the menu paints.
#[derive(Debug)]
pub struct State {
    pub set: OptionSet,
    pub rows: Vec<Row>,
    pub sel: usize,
    pub top: usize,
}

/// The contents of a [`State`].
#[verifier::ext_equal]
pub struct StateView {
    pub set: SetView,
    pub rows: Seq<RowView>,
    pub sel: int,
    pub top: int,
}

impl View for State {
    type V = StateView;

    open spec fn view(&self) -> StateView {
        StateView {
            set: self.set@,
            rows: row_views(self.rows@),
            sel: self.sel as int,
            top: self.top as int,
        }
    }
}

impl StateView {
    /// Whether the selection stands on a row it can stand on.
    pub open spec fn is_selected(self) -> bool {
        0 <= self.sel < self.rows.len() && self.rows[self.sel].is_selectable()
    }
}

/// How much of a list of `n` lies ahead of `i`.
pub open spec fn left_from(n: int, i: int, delta: int) -> int {
    if i < 0 || i >= n {
        0
    } else if delta > 0 {
        n - i
    } else {
        i + 1
    }
}

/// The first row from `i` on, in steps of `delta`, that the selection can
/// stand on; `None` where the list ends before one.
pub open spec fn next_from(rows: Seq<RowView>, i: int, delta: int) -> Option<int>
    decreases left_from(rows.len() as int, i, delta),
{
    if i < 0 || i >= rows.len() {
        None
    } else if rows[i].is_selectable() {
        Some(i)
    } else if delta == 0 {
        None
    } else {
        next_from(rows, i + delta, delta)
    }
}

/// Where a move of the selection leads: past headings and notes, and nowhere
/// beyond the ends.
pub open spec fn stepped(st: StateView, delta: int) -> StateView {
    StateView {
        sel: match next_from(st.rows, st.sel + delta, delta) {
            Some(i) => i,
            None => st.sel,
        },
        ..st
    }
}

/// Where the first row that the selection can stand on is, or 0.
pub open spec fn first_of(rows: Seq<RowView>) -> int {
    match next_from(rows, 0, 1) {
        Some(i) => i,
        None => 0,
    }
}

/// Where the last row that the selection can stand on is, or 0.
pub open spec fn last_of(rows: Seq<RowView>) -> int {
    match next_from(rows, rows.len() - 1, -1) {
        Some(i) => i,
        None => 0,
    }
}

proof fn lemma_next_from(rows: Seq<RowView>, i: int, delta: int)
    ensures
        match next_from(rows, i, delta) {
            Some(j) => 0 <= j < rows.len() && rows[j].is_selectable(),
            None => true,
        },
        delta > 0 ==> (next_from(rows, i, delta) matches Some(j) ==> i <= j),
        delta < 0 ==> (next_from(rows, i, delta) matches Some(j) ==> j <= i),
    decreases left_from(rows.len() as int, i, delta),
{
    if 0 <= i < rows.len() && !rows[i].is_selectable() && delta != 0 {
        lemma_next_from(rows, i + delta, delta);
    }
}

proof fn lemma_next_exists(rows: Seq<RowView>, i: int, k: int)
    requires
        0 <= i <= k < rows.len(),
        rows[k].is_selectable(),
    ensures
        next_from(rows, i, 1) is Some,
    decreases k - i,
{
    if !rows[i].is_selectable() {
        lemma_next_exists(rows, i + 1, k);
    }
}

proof fn lemma_last_exists(rows: Seq<RowView>, i: int, k: int)
    requires
        0 <= k <= i < rows.len(),
        rows[k].is_selectable(),
    ensures
        next_from(rows, i, -1) is Some,
    decreases i - k,
{
    if !rows[i].is_selectable() {
        lemma_last_exists(rows, i - 1, k);
    }
}

/// Every menu offers the free-text entry, near its end.
pub proof fn law_extras_are_offered(family: Family)
    ensures
        rows_of(family).len() >= 3,
        rows_of(family)[rows_of(family).len() - 2] == RowView::Extras,
        rows_of(family)[rows_of(family).len() - 1] == RowView::Note(note_text()),
{
}

/// A move never leaves the selection on a heading or a note.
pub proof fn law_steps_stay_selectable(st: StateView, delta: int)
    requires
        st.is_selected(),
    ensures
        stepped(st, delta).is_selected(),
{
    lemma_next_from(st.rows, st.sel + delta, delta);
}

impl State {
    pub fn new(options: &str, fstype: &str) -> (r: State)
        ensures
            r@.set == (SetView {
                opts: mountopts::options_of(options@),
                family: mountopts::family_of(fstype@),
            }),
            r@.rows == rows_of(mountopts::family_of(fstype@)),
            r@.sel == first_of(r@.rows),
            r@.top == 0,
            r@.is_selected(),
    {
        let set = OptionSet::new(options, fstype);
        let rows = rows(&set);
        let mut st = State { set, rows, sel: 0, top: 0 };
        st.first();
        proof {
            let all = st@.rows;
            law_extras_are_offered(mountopts::family_of(fstype@));
            lemma_next_exists(all, 0, all.len() - 2);
            lemma_next_from(all, 0, 1);
        }
        st
    }

    /// Move the selection by `delta`, skipping headings and notes and
    /// stopping at the ends rather than wrapping.
    pub fn step(&mut self, delta: i8)
        requires
            old(self)@.is_selected(),
        ensures
            final(self)@ == stepped(old(self)@, delta as int),
            final(self)@.is_selected(),
    {
        proof {
            law_steps_stay_selectable(self@, delta as int);
        }
        if delta == 0 {
            return;
        }
        let n: usize = self.rows.len();
        let forward = delta > 0;
        let d: usize = if forward {
            delta as usize
        } else {
            (-(delta as i16)) as usize
        };
        let mut i: usize = self.sel;
        let ghost at0 = self@;
        while (forward && i < n && d < n - i) || (!forward && d <= i)
            invariant
                *self == *old(self),
                at0 == old(self)@,
                n == self.rows@.len(),
                i < n,
                forward == (delta > 0),
                delta != 0,
                d == (if delta > 0 {
                    delta as int
                } else {
                    -(delta as int)
                }),
                next_from(at0.rows, at0.sel + delta, delta as int) == next_from(
                    at0.rows,
                    i + delta,
                    delta as int,
                ),
            decreases
                    if forward {
                        n - i
                    } else {
                        i as int
                    },
        {
            i = if forward {
                i + d
            } else {
                i - d
            };
            assert(at0.rows[i as int] == self.rows@[i as int]@);
            if self.rows[i].selectable() {
                self.sel = i;
                return;
            }
        }
    }

    /// Selects the first row that can be.
    pub fn first(&mut self)
        ensures
            final(self)@ == (StateView { sel: first_of(old(self)@.rows), ..old(self)@ }),
    {
        let ghost all = self@.rows;
        let mut i: usize = 0;
        while i < self.rows.len()
            invariant
                *self == *old(self),
                all == self@.rows,
                i <= self.rows@.len(),
                next_from(all, 0, 1) == next_from(all, i as int, 1),
            decreases self.rows@.len() - i,
        {
            assert(all[i as int] == self.rows@[i as int]@);
            if self.rows[i].selectable() {
                self.sel = i;
                return;
            }
            i += 1;
        }
        self.sel = 0;
    }

    /// Selects the last row that can be.
    pub fn last(&mut self)
        ensures
            final(self)@ == (StateView { sel: last_of(old(self)@.rows), ..old(self)@ }),
    {
        let ghost all = self@.rows;
        let mut i: usize = self.rows.len();
        while i > 0
            invariant
                *self == *old(self),
                all == self@.rows,
                i <= self.rows@.len(),
                next_from(all, all.len() - 1, -1) == next_from(all, i - 1, -1),
            decreases i,
        {
            i -= 1;
            assert(all[i as int] == self.rows@[i as int]@);
            if self.rows[i].selectable() {
                self.sel = i;
                return;
            }
        }
        self.sel = 0;
    }

    /// Keep the selection inside the row list and the viewport around it.
    pub fn clamp(&mut self, visible: usize)
        requires
            old(self).rows@.len() < usize::MAX,
        ensures
            ({
                let st = old(self)@;
                let (sel, top) = steps::viewport_of(
                    st.sel,
                    st.top,
                    st.rows.len() as int,
                    visible as int,
                );
                final(self)@ == (StateView { sel, top, ..st })
            }),
            final(self).top <= final(self).sel,
            visible > 0 ==> final(self).sel < final(self).top + visible,
            old(self)@.is_selected() ==> final(self)@.is_selected(),
    {
        let (sel, top) = steps::viewport(self.sel, self.top, self.rows.len(), visible);
        self.sel = sel;
        self.top = top;
    }

    /// The lines of the menu in a box of `width` columns and `height` rows.
    /// Three lines are reserved at the bottom: the composed string, the help
    /// for the focused row, and the keybindings. Cut rather than wrapped, so
    /// none of them can push the others out of the popup.
    pub fn lines(&self, width: usize, height: usize, doc: &[fieldhelp::Entry]) -> (r: Vec<Line>)
        ensures
            paint::line_views(r@) == lines_of(
                self@,
                fieldhelp::entry_views(doc@),
                width as int,
                height as int,
            ),
    {
        let ghost want = lines_of(
            self@,
            fieldhelp::entry_views(doc@),
            width as int,
            height as int,
        );
        let visible: usize = if height > 3 {
            height - 3
        } else {
            0
        };
        let n: usize = self.rows.len();
        let mut out: Vec<Line> = Vec::new();
        let mut i: usize = 0;
        while i < visible
            invariant
                i <= visible,
                n == self.rows@.len(),
                out@.len() == i,
                forall|j: int|
                    0 <= j < i ==> (#[trigger] out@[j])@ == line_at(
                        self@,
                        width as int,
                        self.top + j,
                    ),
            decreases visible - i,
        {
            if self.top < n && i < n - self.top {
                let at: usize = self.top + i;
                out.push(self.line(at, width));
            } else {
                out.push(paint::blank());
            }
            i += 1;
        }
        if height > 0 {
            let composed = self.set.text();
            let shown = if composed.as_str().unicode_len() == 0 {
                "(none)"
            } else {
                composed.as_str()
            };
            let line = text::cat2(" Options=", shown);
            let mut bold = Style::plain();
            bold.bold = true;
            out.push(paint::styled(escape::clip(line.as_str(), width), bold));
        }
        if height > 1 {
            let what = if self.sel < n {
                assert(self@.rows[self.sel as int] == self.rows@[self.sel as int]@);
                summary(&self.rows[self.sel], doc)
            } else {
                "".to_owned()
            };
            let line = text::cat2(" ", what.as_str());
            out.push(paint::styled(escape::clip(line.as_str(), width), Style::colored(Color::DarkGray)));
        }
        if height > 2 {
            let line = escape::clip(
                " Space toggles   Enter edits a value   Ctrl-S applies   Esc discards",
                width,
            );
            out.push(paint::styled(line, Style::colored(Color::DarkGray)));
        }
        assert(paint::line_views(out@) =~= want);
        out
    }

    fn line(&self, at: usize, width: usize) -> (r: Line)
        requires
            at < self.rows@.len(),
        ensures
            r@ == line_at(self@, width as int, at as int),
    {
        assert(self@.rows[at as int] == self.rows@[at as int]@);
        let row = &self.rows[at];
        let what = label(&self.set, row);
        let mark = if !row.selectable() {
            " "
        } else if at == self.sel {
            " > "
        } else {
            "   "
        };
        let mut style = Style::plain();
        if at == self.sel && row.selectable() {
            style.bold = true;
            style.reversed = true;
        } else {
            match row {
                Row::Heading(_) => {
                    style = Style::colored(Color::Cyan);
                    style.bold = true;
                },
                Row::Note(_) => {
                    style = Style::colored(Color::Yellow);
                },
                _ => {},
            }
        }
        let line = text::cat2(mark, what.as_str());
        paint::styled(escape::clip(line.as_str(), width), style)
    }
}

/// One line of the menu.
pub open spec fn line_at(st: StateView, width: int, at: int) -> Seq<SpanView> {
    if at < st.rows.len() {
        let row = st.rows[at];
        paint::styled_of(
            escape::clip_of(
                (if !row.is_selectable() {
                    " "@
                } else if at == st.sel {
                    " > "@
                } else {
                    "   "@
                }) + label_of(st.set, row),
                width,
            ),
            if at == st.sel && row.is_selectable() {
                Style { bold: true, reversed: true, ..Style::plain_of() }
            } else {
                match row {
                    RowView::Heading(_) => Style { bold: true, ..Style::fg_of(Color::Cyan) },
                    RowView::Note(_) => Style::fg_of(Color::Yellow),
                    _ => Style::plain_of(),
                }
            },
        )
    } else {
        seq![]
    }
}

/// The three lines at the bottom of the menu.
pub open spec fn footer_of(st: StateView, doc: Seq<fieldhelp::EntryView>, width: int) -> Seq<
    Seq<SpanView>,
> {
    let composed = mountopts::compose_of(st.set.opts);
    let what = if 0 <= st.sel < st.rows.len() {
        summary_of(st.rows[st.sel], doc)
    } else {
        ""@
    };
    seq![
        paint::styled_of(
            escape::clip_of(
                " Options="@ + (if composed.len() == 0 {
                    "(none)"@
                } else {
                    composed
                }),
                width,
            ),
            Style { bold: true, ..Style::plain_of() },
        ),
        paint::styled_of(escape::clip_of(" "@ + what, width), Style::fg_of(Color::DarkGray)),
        paint::styled_of(
            escape::clip_of(
                " Space toggles   Enter edits a value   Ctrl-S applies   Esc discards"@,
                width,
            ),
            Style::fg_of(Color::DarkGray),
        ),
    ]
}

/// The lines of the menu.
pub open spec fn lines_of(
    st: StateView,
    doc: Seq<fieldhelp::EntryView>,
    width: int,
    height: int,
) -> Seq<Seq<SpanView>> {
    let visible = if height > 3 {
        height - 3
    } else {
        0
    };
    let foot = if height < 0 {
        0
    } else if height < 3 {
        height
    } else {
        3
    };
    Seq::new(visible as nat, |i: int| line_at(st, width, st.top + i)) + footer_of(
        st,
        doc,
        width,
    ).take(foot)
}

// ---------------------------------------------------------------------------
// Keys
// ---------------------------------------------------------------------------

/// What the menu asks of its surroundings after a key.
#[derive(Debug)]
pub enum Menu {
    /// The next key.
    Stay,
    /// The menu is left with this option string.
    Apply(String),
    /// The menu is left, and the field stays as it was.
    Leave,
    /// The menu is left if this question is answered yes.
    Confirm(String),
    /// The free-text options are to be asked for, starting from this text.
    AskExtras(String),
    /// The value of an option is to be asked for, starting from this text.
    AskValue(Spec, String),
    /// This text is to be shown under this title.
    Explain(String, String),
}

/// The contents of a [`Menu`].
#[verifier::ext_equal]
pub enum MenuView {
    Stay,
    Apply(Seq<char>),
    Leave,
    Confirm(Seq<char>),
    AskExtras(Seq<char>),
    AskValue(SpecView, Seq<char>),
    Explain(Seq<char>, Seq<char>),
}

impl View for Menu {
    type V = MenuView;

    open spec fn view(&self) -> MenuView {
        match self {
            Menu::Stay => MenuView::Stay,
            Menu::Apply(s) => MenuView::Apply(s@),
            Menu::Leave => MenuView::Leave,
            Menu::Confirm(s) => MenuView::Confirm(s@),
            Menu::AskExtras(s) => MenuView::AskExtras(s@),
            Menu::AskValue(spec, s) => MenuView::AskValue(spec@, s@),
            Menu::Explain(t, b) => MenuView::Explain(t@, b@),
        }
    }
}

/// The question before changes are dropped.
pub open spec fn discard_text(original: Seq<char>, now: Seq<char>) -> Seq<char> {
    "Go back to:\n  Options="@ + (if original.len() == 0 {
        "(none)"@
    } else {
        original
    }) + "\n\ndiscarding:\n  Options="@ + now
}

/// The help on an option, wrapped for the pager.
pub open spec fn explained(e: fieldhelp::EntryView) -> Seq<char> {
    crate::parts::unlines_of(
        wrap::paragraphs_of(
            crate::parts::split_of(
                e.summary + "\n\n"@ + e.detail + "\n\nExamples: "@ + e.examples,
                '\n',
            ),
            76,
        ),
    )
}

/// The set with an option flipped: off where it was on, and on with a value
/// where it was off.
pub open spec fn toggled(set: SetView, spec: SpecView, value: Option<Seq<char>>) -> SetView {
    SetView {
        opts: if mountopts::key_index(set.opts, spec.key) < set.opts.len() {
            mountopts::without_key(set.opts, spec.key)
        } else {
            mountopts::enabled_of(set.opts, set.family, spec, value)
        },
        ..set
    }
}

/// What acting on the focused row does. Space always toggles. Enter toggles a
/// flag too, but on a value option it asks for the value, because "turn this
/// on" and "set it to something" are the same action for `vers=` and
/// different ones for `ro`.
pub open spec fn activated(st: StateView, doc: Seq<fieldhelp::EntryView>, enter: bool) -> (
    StateView,
    MenuView,
) {
    match st.rows[st.sel] {
        RowView::Extras => (st, MenuView::AskExtras(extras_text_of(st.set))),
        RowView::Opt(spec) => match spec.kind {
            Kind::Flag => (StateView { set: toggled(st.set, spec, None), ..st }, MenuView::Stay),
            Kind::Value => if !enter {
                (
                    StateView {
                        set: toggled(st.set, spec, Some(mountopts::suggestion_of(spec, doc))),
                        ..st
                    },
                    MenuView::Stay,
                )
            } else {
                let current = match value_at(st.set, spec.key) {
                    Some(v) => v,
                    None => seq![],
                };
                (
                    st,
                    MenuView::AskValue(
                        spec,
                        if current.len() > 0 {
                            current
                        } else if is_on_of(st.set, spec.key) {
                            seq![]
                        } else {
                            mountopts::suggestion_of(spec, doc)
                        },
                    ),
                )
            },
        },
        _ => (st, MenuView::Stay),
    }
}

/// What a key does to the menu that was opened with `original`.
#[verifier::opaque]
pub open spec fn pressed_of(
    st: StateView,
    original: Seq<char>,
    doc: Seq<fieldhelp::EntryView>,
    k: Option<Key>,
) -> (StateView, MenuView) {
    let now = mountopts::compose_of(st.set.opts);
    match k {
        None => (st, MenuView::Leave),
        Some(k) => match k {
            Key::Scroll(d) => (stepped(st, d as int), MenuView::Stay),
            Key::Press(code, _) => if k.controls('s') {
                (st, MenuView::Apply(now))
            } else {
                match code {
                    KeyCode::Esc => if now == original {
                        (st, MenuView::Leave)
                    } else {
                        (st, MenuView::Confirm(discard_text(original, now)))
                    },
                    KeyCode::Enter => activated(st, doc, true),
                    KeyCode::Char(' ') => activated(st, doc, false),
                    KeyCode::Up | KeyCode::BackTab => (stepped(st, -1), MenuView::Stay),
                    KeyCode::Down | KeyCode::Tab => (stepped(st, 1), MenuView::Stay),
                    KeyCode::Home => (StateView { sel: first_of(st.rows), ..st }, MenuView::Stay),
                    KeyCode::End => (StateView { sel: last_of(st.rows), ..st }, MenuView::Stay),
                    KeyCode::Delete => match st.rows[st.sel] {
                        RowView::Opt(spec) => (
                            StateView {
                                set: SetView {
                                    opts: mountopts::without_key(st.set.opts, spec.key),
                                    ..st.set
                                },
                                ..st
                            },
                            MenuView::Stay,
                        ),
                        _ => (st, MenuView::Stay),
                    },
                    _ => if k.types('k') {
                        (stepped(st, -1), MenuView::Stay)
                    } else if k.types('j') {
                        (stepped(st, 1), MenuView::Stay)
                    } else if k.types('?') {
                        match st.rows[st.sel] {
                            RowView::Opt(spec) => match fieldhelp::entry_of(doc, spec.help) {
                                Some(e) => (st, MenuView::Explain(e.label, explained(e))),
                                None => (st, MenuView::Stay),
                            },
                            _ => (st, MenuView::Stay),
                        }
                    } else {
                        (st, MenuView::Stay)
                    },
                }
            },
            _ => (st, MenuView::Stay),
        },
    }
}

impl State {
    /// Act on the focused row.
    fn activate(&mut self, doc: &[fieldhelp::Entry], enter: bool) -> (r: Menu)
        requires
            old(self)@.is_selected(),
        ensures
            (final(self)@, r@) == activated(old(self)@, fieldhelp::entry_views(doc@), enter),
    {
        assert(self@.rows[self.sel as int] == self.rows@[self.sel as int]@);
        let row = self.rows[self.sel].clone_row();
        match row {
            Row::Extras => Menu::AskExtras(self.set.extras_text()),
            Row::Opt(spec) => match spec.kind {
                Kind::Flag => {
                    self.set.toggle(&spec, None);
                    Menu::Stay
                },
                Kind::Value => {
                    let suggested = mountopts::suggested_value(&spec, doc);
                    if !enter {
                        self.set.toggle(&spec, Some(suggested));
                        Menu::Stay
                    } else {
                        let on = self.set.is_on(spec.key);
                        let none = String::new();
                        assert(none@ =~= seq![]);
                        let current = match self.set.value_of(spec.key) {
                            Some(v) => v.to_owned(),
                            None => none,
                        };
                        let start = if current.as_str().unicode_len() > 0 {
                            current
                        } else if on {
                            assert(current@ =~= seq![]);
                            current
                        } else {
                            suggested
                        };
                        Menu::AskValue(spec, start)
                    }
                },
            },
            _ => Menu::Stay,
        }
    }

    /// The help on the focused option.
    fn explain(&self, doc: &[fieldhelp::Entry]) -> (r: Menu)
        requires
            self@.is_selected(),
        ensures
            r@ == (match self@.rows[self@.sel] {
                RowView::Opt(spec) => match fieldhelp::entry_of(
                    fieldhelp::entry_views(doc@),
                    spec.help,
                ) {
                    Some(e) => MenuView::Explain(e.label, explained(e)),
                    None => MenuView::Stay,
                },
                _ => MenuView::Stay,
            }),
    {
        assert(self@.rows[self.sel as int] == self.rows@[self.sel as int]@);
        if let Row::Opt(spec) = &self.rows[self.sel] {
            if let Some(e) = fieldhelp::entry(doc, spec.help) {
                let body = text::cat5(
                    e.summary.as_str(),
                    "\n\n",
                    e.detail.as_str(),
                    "\n\nExamples: ",
                    e.examples.as_str(),
                );
                return Menu::Explain(e.label.clone(), wrap::wrap(body.as_str(), 76));
            }
        }
        Menu::Stay
    }

    /// Takes one key of a menu that was opened with the options `original`.
    pub fn press(&mut self, original: &str, doc: &[fieldhelp::Entry], k: Option<Key>) -> (r: Menu)
        requires
            old(self)@.is_selected(),
        ensures
            (final(self)@, r@) == pressed_of(
                old(self)@,
                original@,
                fieldhelp::entry_views(doc@),
                k,
            ),
            final(self)@.is_selected(),
    {
        reveal(pressed_of);
        proof {
            let all = self@.rows;
            lemma_next_exists(all, 0, self@.sel);
            lemma_last_exists(all, all.len() - 1, self@.sel);
            lemma_next_from(all, 0, 1);
            lemma_next_from(all, all.len() - 1, -1);
        }
        let k = match k {
            None => {
                return Menu::Leave;
            },
            Some(k) => k,
        };
        match k {
            Key::Scroll(d) => {
                self.step(d);
                Menu::Stay
            },
            Key::Press(code, _) => {
                if k.is_ctrl('s') {
                    return Menu::Apply(self.set.text());
                }
                match code {
                    KeyCode::Esc => {
                        let now = self.set.text();
                        if text::same(now.as_str(), original) {
                            Menu::Leave
                        } else {
                            let was = if original.unicode_len() == 0 {
                                "(none)"
                            } else {
                                original
                            };
                            let head = text::cat3(
                                "Go back to:\n  Options=",
                                was,
                                "\n\ndiscarding:\n  Options=",
                            );
                            Menu::Confirm(text::cat2(head.as_str(), now.as_str()))
                        }
                    },
                    KeyCode::Enter => self.activate(doc, true),
                    KeyCode::Char(' ') => self.activate(doc, false),
                    KeyCode::Up | KeyCode::BackTab => {
                        self.step(-1);
                        Menu::Stay
                    },
                    KeyCode::Down | KeyCode::Tab => {
                        self.step(1);
                        Menu::Stay
                    },
                    KeyCode::Home => {
                        self.first();
                        Menu::Stay
                    },
                    KeyCode::End => {
                        self.last();
                        Menu::Stay
                    },
                    KeyCode::Delete => {
                        assert(self@.rows[self.sel as int] == self.rows@[self.sel as int]@);
                        let row = self.rows[self.sel].clone_row();
                        if let Row::Opt(spec) = row {
                            self.set.disable(spec.key);
                        }
                        Menu::Stay
                    },
                    _ => {
                        if k.is_char('k') {
                            self.step(-1);
                            Menu::Stay
                        } else if k.is_char('j') {
                            self.step(1);
                            Menu::Stay
                        } else if k.is_char('?') {
                            self.explain(doc)
                        } else {
                            Menu::Stay
                        }
                    },
                }
            },
            _ => Menu::Stay,
        }
    }

    /// Takes the free-text options that were asked for.
    pub fn extras_given(&mut self, v: &str)
        ensures
            final(self)@ == (StateView {
                set: SetView {
                    opts: mountopts::with_extras(
                        old(self)@.set.opts,
                        old(self)@.set.family,
                        mountopts::options_of(v@),
                    ),
                    ..old(self)@.set
                },
                ..old(self)@
            }),
    {
        self.set.set_extras(v);
    }

    /// Takes the value that was asked for; a blank one turns the option off.
    pub fn value_given(&mut self, spec: &Spec, v: &str)
        ensures
            final(self)@ == (StateView {
                set: SetView {
                    opts: if text::is_blank(v@) {
                        mountopts::without_key(old(self)@.set.opts, spec@.key)
                    } else {
                        mountopts::enabled_of(
                            old(self)@.set.opts,
                            old(self)@.set.family,
                            spec@,
                            Some(text::trim_of(v@)),
                        )
                    },
                    ..old(self)@.set
                },
                ..old(self)@
            }),
    {
        if text::blank(v) {
            self.set.disable(spec.key);
        } else {
            let value = text::trim(v).to_owned();
            self.set.enable(spec, Some(value));
        }
    }
}

impl Row {
    fn clone_row(&self) -> (r: Row)
        ensures
            r@ == self@,
    {
        match self {
            Row::Heading(h) => Row::Heading(h),
            Row::Opt(s) => Row::Opt(*s),
            Row::Extras => Row::Extras,
            Row::Note(n) => Row::Note(n),
        }
    }
}

/// What a prompt for an option's value says, by a help document.
pub fn value_hint(spec: &Spec, doc: &[fieldhelp::Entry]) -> (r: String)
    ensures
        r@ == (match fieldhelp::entry_of(fieldhelp::entry_views(doc@), spec@.help) {
            Some(e) => e.summary + "\n\n  Examples: "@ + e.examples,
            None => "Value for "@ + spec@.key + "=."@,
        }),
{
    match fieldhelp::entry(doc, spec.help) {
        Some(e) => text::cat3(e.summary.as_str(), "\n\n  Examples: ", e.examples.as_str()),
        None => text::cat3("Value for ", spec.key, "=."),
    }
}

/// Checks an option's value.
pub fn check_value(s: &str) -> (r: Result<(), String>)
    ensures
        match r {
            Ok(_) => !s@.contains(','),
            Err(e) => s@.contains(',') && e@
                == "a value cannot contain a comma; it separates options"@,
        },
{
    if text::has_char(s, ',') {
        Err("a value cannot contain a comma; it separates options".to_owned())
    } else {
        Ok(())
    }
}

/// Leaving the menu unchanged, or with changes that are not applied, never
/// yields another option string: only the key that applies does.
pub proof fn law_only_applying_changes(
    st: StateView,
    original: Seq<char>,
    doc: Seq<fieldhelp::EntryView>,
    k: Key,
)
    ensures
        pressed_of(st, original, doc, Some(k)).1 is Apply <==> k.controls('s'),
        pressed_of(st, original, doc, Some(k)).1 is Apply ==> pressed_of(
            st,
            original,
            doc,
            Some(k),
        ).1 == MenuView::Apply(mountopts::compose_of(st.set.opts)),
{
    reveal(pressed_of);
}

} // verus!
