//! The pane beside the form, and what is computed from the unit for it.

use crate::fieldhelp;
use crate::number;
use crate::parts;
use crate::strmap::StrMap;
use crate::systemd;
use crate::systemd::{NextRun, PreviewError, RunView};
use crate::text;
use crate::ui::builder::rows;
use crate::ui::builder::rows::Id;
use crate::ui::term::Rect;
use crate::ui::wrap;
use crate::unit::escape;
use crate::unit::generate;
use crate::unit::model;
use crate::unit::model::{Body, BodyView, Schedule, ScheduleView, Unit, UnitView};
use crate::validate;
use crate::validate::{Diagnostic, DiagnosticView};
use vstd::prelude::*;

verus! {

broadcast use vstd::string::group_string_axioms;

/// What the pane beside the form is showing.
#[derive(Debug, Clone, Copy, PartialEq, Eq, Structural)]
pub enum Pane {
    Off,
    /// The help document's entry for the focused row.
    Help,
    /// The generated unit files, re-rendered on every edit.
    Preview,
    /// The next five firings of the schedule.
    Runs,
    /// The advisory checks. Never blocks a save.
    Checks,
}

impl Pane {
    /// The pane after this one.
    pub open spec fn next_of(self) -> Pane {
        match self {
            Pane::Help => Pane::Preview,
            Pane::Preview => Pane::Runs,
            Pane::Runs => Pane::Checks,
            Pane::Checks => Pane::Off,
            Pane::Off => Pane::Help,
        }
    }

    pub open spec fn title_of(self) -> Seq<char> {
        match self {
            Pane::Off => ""@,
            Pane::Help => "Field help"@,
            Pane::Preview => "Unit files"@,
            Pane::Runs => "Next runs"@,
            Pane::Checks => "Checks"@,
        }
    }

    /// The order `v` walks, ending at `Off` so the key is also the way out.
    pub fn cycle() -> (r: Vec<Pane>)
        ensures
            r@ == seq![Pane::Help, Pane::Preview, Pane::Runs, Pane::Checks, Pane::Off],
            forall|i: int| 0 <= i < 4 ==> (#[trigger] r@[i]).next_of() == r@[i + 1],
    {
        vec![Pane::Help, Pane::Preview, Pane::Runs, Pane::Checks, Pane::Off]
    }

    pub fn next(self) -> (r: Pane)
        ensures
            r == self.next_of(),
    {
        match self {
            Pane::Help => Pane::Preview,
            Pane::Preview => Pane::Runs,
            Pane::Runs => Pane::Checks,
            Pane::Checks => Pane::Off,
            Pane::Off => Pane::Help,
        }
    }

    pub fn title(self) -> (r: &'static str)
        ensures
            r@ == self.title_of(),
    {
        match self {
            Pane::Off => "",
            Pane::Help => "Field help",
            Pane::Preview => "Unit files",
            Pane::Runs => "Next runs",
            Pane::Checks => "Checks",
        }
    }
}

/// The panes come round: five steps lead back to any of them.
pub proof fn law_the_panes_come_round(p: Pane)
    ensures
        p.next_of().next_of().next_of().next_of().next_of() == p,
{
}

/// Columns the form keeps for itself before a pane may take any. Below this
/// the value column stops showing enough of a path to be worth reading.
pub const FORM_MIN: u16 = 46;

/// A pane narrower than this is not worth the space it costs the form.
pub const PANE_MIN: u16 = 26;

pub const PANE_MAX: u16 = 48;

/// The width at or above which the pane is on when the builder opens: where
/// there is room for both. Everywhere else it is one keypress away.
pub const PANE_DEFAULT_WIDTH: u16 = 100;

/// The pane that the builder opens with.
pub fn default_pane(width: u16) -> (r: Pane)
    ensures
        r == (if width >= PANE_DEFAULT_WIDTH {
            Pane::Help
        } else {
            Pane::Off
        }),
{
    if width >= PANE_DEFAULT_WIDTH {
        Pane::Help
    } else {
        Pane::Off
    }
}

/// The columns of the pane: two fifths, within its limits and what the form
/// leaves.
pub open spec fn pane_columns(width: int) -> int {
    let share = width * 2 / 5;
    let want = if share < PANE_MIN {
        PANE_MIN as int
    } else if share > PANE_MAX {
        PANE_MAX as int
    } else {
        share
    };
    if width - FORM_MIN < want {
        width - FORM_MIN
    } else {
        want
    }
}

/// The form and the side pane.
pub open spec fn split_of(area: Rect, on: bool) -> (Rect, Option<Rect>) {
    if !on || area.height < 3 || area.width < FORM_MIN + PANE_MIN {
        (area, None)
    } else {
        let w = pane_columns(area.width as int);
        (
            Rect { width: (area.width - w) as u16, ..area },
            Some(Rect { x: (area.x + area.width - w) as u16, width: w as u16, ..area }),
        )
    }
}

/// Split the builder's area into the form and, if it fits, the side pane.
///
/// The pane is left out whenever it is off or the terminal is too narrow to
/// carry one -- the form is never squeezed to make room.
pub fn split_panes(area: Rect, pane_on: bool) -> (r: (Rect, Option<Rect>))
    requires
        area.fits(),
    ensures
        r == split_of(area, pane_on),
{
    if !pane_on || area.height < 3 || area.width < FORM_MIN + PANE_MIN {
        return (area, None);
    }
    let share: u16 = (area.width as u32 * 2 / 5) as u16;
    let want: u16 = if share < PANE_MIN {
        PANE_MIN
    } else if share > PANE_MAX {
        PANE_MAX
    } else {
        share
    };
    let room: u16 = area.width - FORM_MIN;
    let w: u16 = if room < want {
        room
    } else {
        want
    };
    let form = Rect { x: area.x, y: area.y, width: area.width - w, height: area.height };
    let pane = Rect {
        x: area.x + (area.width - w),
        y: area.y,
        width: w,
        height: area.height,
    };
    (form, Some(pane))
}

/// The form and the pane share the area without a gap or an overlap, neither
/// is narrower than its least width, and without a pane the form has it all.
pub proof fn law_split_shares(area: Rect, on: bool)
    requires
        area.fits(),
    ensures
        match split_of(area, on).1 {
            None => split_of(area, on).0 == area,
            Some(p) => {
                let form = split_of(area, on).0;
                &&& on
                &&& form.x == area.x && form.x + form.width == p.x
                &&& p.x + p.width == area.x + area.width
                &&& form.y == area.y && form.height == area.height
                &&& p.y == area.y && p.height == area.height
                &&& p.width >= PANE_MIN && form.width >= FORM_MIN
            },
        },
{
}

// ---------------------------------------------------------------------------
// Derived state
// ---------------------------------------------------------------------------

/// The next-run preview's outcome.
#[derive(Debug)]
pub enum Runs {
    /// This schedule has no `OnCalendar=` to analyse -- an interval or boot
    /// timer, or a body that is not a timer at all. Not an error.
    NotCalendar(String),
    /// `systemd-analyze` is missing. Also not an error: the user has done
    /// nothing wrong and must not be told they have.
    Unavailable,
    /// systemd rejected the spec.
    Invalid(String),
    Times(Vec<NextRun>),
}

/// The contents of [`Runs`].
#[verifier::ext_equal]
pub enum RunsView {
    NotCalendar(Seq<char>),
    Unavailable,
    Invalid(Seq<char>),
    Times(Seq<RunView>),
}

impl View for Runs {
    type V = RunsView;

    open spec fn view(&self) -> RunsView {
        match self {
            Runs::NotCalendar(s) => RunsView::NotCalendar(s@),
            Runs::Unavailable => RunsView::Unavailable,
            Runs::Invalid(s) => RunsView::Invalid(s@),
            Runs::Times(v) => RunsView::Times(systemd::run_views(v@)),
        }
    }
}

/// What was found for some specs.
pub open spec fn analysed_of(r: Result<Vec<NextRun>, PreviewError>) -> RunsView {
    match r {
        Ok(v) => RunsView::Times(systemd::run_views(v@)),
        Err(PreviewError::Unavailable) => RunsView::Unavailable,
        Err(PreviewError::Invalid(m)) => RunsView::Invalid(m@),
    }
}

/// What was found for some specs. A missing systemd-analyze is a fact about
/// the host, not a mistake by the user.
pub fn analysed(r: Result<Vec<NextRun>, PreviewError>) -> (out: Runs)
    ensures
        out@ == analysed_of(r),
{
    match r {
        Ok(v) => Runs::Times(v),
        Err(PreviewError::Unavailable) => Runs::Unavailable,
        Err(PreviewError::Invalid(m)) => Runs::Invalid(m),
    }
}

/// How many firings the preview shows.
pub const RUNS_SHOWN: usize = 5;

/// The calendar specs a unit's schedule would be analysed from, if any.
pub open spec fn calendar_specs_of(u: UnitView) -> Option<Seq<Seq<char>>> {
    match u.body {
        BodyView::Timer(t) => match t.schedule {
            ScheduleView::Calendar(specs) => if model::any_text(specs) {
                Some(specs)
            } else {
                None
            },
            _ => None,
        },
        _ => None,
    }
}

fn any_spec(specs: &[String]) -> (r: bool)
    ensures
        r == model::any_text(text::texts(specs@)),
{
    let ghost all = text::texts(specs@);
    let mut i: usize = 0;
    while i < specs.len()
        invariant
            i <= specs@.len(),
            all == text::texts(specs@),
            forall|k: int| 0 <= k < i ==> text::is_blank(#[trigger] all[k]),
        decreases specs@.len() - i,
    {
        assert(all[i as int] == specs@[i as int]@);
        if !text::blank(specs[i].as_str()) {
            return true;
        }
        i += 1;
    }
    false
}

/// The contents of specs that may be missing.
pub open spec fn specs_view(v: Option<Vec<String>>) -> Option<Seq<Seq<char>>> {
    match v {
        Some(s) => Some(text::texts(s@)),
        None => None,
    }
}

/// The calendar specs a unit's schedule would be analysed from, if any.
pub fn calendar_specs(u: &Unit) -> (r: Option<Vec<String>>)
    ensures
        specs_view(r) == calendar_specs_of(u@),
{
    match &u.body {
        Body::Timer(t) => match &t.schedule {
            Schedule::Calendar(specs) => if any_spec(specs) {
                Some(text::clone_strings(specs))
            } else {
                None
            },
            _ => None,
        },
        _ => None,
    }
}

/// Why there is nothing to analyse, in the user's terms.
pub open spec fn reason_of(u: UnitView) -> Seq<char> {
    match u.body {
        BodyView::Timer(t) => match t.schedule {
            ScheduleView::Every { every, boot } => "Every "@ + every + ", starting "@ + boot
                + " after boot.\n\nAn interval timer has no calendar to analyse: when it fires depends on when the machine came up."@,
            ScheduleView::Boot { boot } => "At boot + "@ + boot
                + ".\n\nA boot timer has no calendar to analyse: it fires once, relative to startup."@,
            ScheduleView::Calendar(_) => "No OnCalendar= set yet."@,
        },
        BodyView::Service(_) =>
            "A standalone service has no schedule; it is started by its target or by hand."@,
        BodyView::Mount(_) => "A mount unit has no schedule."@,
    }
}

/// Why there is nothing to analyse, in the user's terms.
pub fn no_calendar_reason(u: &Unit) -> (r: String)
    ensures
        r@ == reason_of(u@),
{
    match &u.body {
        Body::Timer(t) => match &t.schedule {
            Schedule::Every { every, boot } => text::cat5(
                "Every ",
                every.as_str(),
                ", starting ",
                boot.as_str(),
                " after boot.\n\nAn interval timer has no calendar to analyse: when it fires depends on when the machine came up.",
            ),
            Schedule::Boot { boot } => text::cat3(
                "At boot + ",
                boot.as_str(),
                ".\n\nA boot timer has no calendar to analyse: it fires once, relative to startup.",
            ),
            Schedule::Calendar(_) => "No OnCalendar= set yet.".to_owned(),
        },
        Body::Service(_) => "A standalone service has no schedule; it is started by its target or by hand.".to_owned(),
        Body::Mount(_) => "A mount unit has no schedule.".to_owned(),
    }
}

/// Everything computed *from* the unit rather than typed into it.
///
/// Recomputed on a change rather than on a keystroke: the rendered files are
/// their own fingerprint, so an edit that changes nothing costs nothing, and
/// the calendar is only analysed again when the schedule's specs differ.
#[derive(Debug)]
pub struct Derived {
    pub preview: String,
    pub diags: Vec<Diagnostic>,
    pub runs: Runs,
    pub runs_key: Option<Vec<String>>,
    pub computed: bool,
}

/// The contents of a [`Derived`].
#[verifier::ext_equal]
pub struct DerivedView {
    pub preview: Seq<char>,
    pub diags: Seq<DiagnosticView>,
    pub runs: RunsView,
    pub runs_key: Option<Seq<Seq<char>>>,
    pub computed: bool,
}

impl View for Derived {
    type V = DerivedView;

    open spec fn view(&self) -> DerivedView {
        DerivedView {
            preview: self.preview@,
            diags: validate::diagnostic_views(self.diags@),
            runs: self.runs@,
            runs_key: specs_view(self.runs_key),
            computed: self.computed,
        }
    }
}

/// The derived state brought in line with a unit: where its files go, where
/// programs were found, and what the analysis of its schedule gave.
pub open spec fn refreshed_of(
    d: DerivedView,
    u: UnitView,
    dir: Seq<char>,
    found: Map<Seq<char>, Seq<char>>,
    runs: RunsView,
) -> DerivedView {
    let preview = generate::preview_of(u, dir);
    let specs = calendar_specs_of(u);
    DerivedView {
        preview,
        diags: if !d.computed || preview != d.preview {
            validate::check_of(u, found)
        } else {
            d.diags
        },
        runs: if !d.computed || specs != d.runs_key {
            match specs {
                None => RunsView::NotCalendar(reason_of(u)),
                Some(_) => runs,
            }
        } else {
            d.runs
        },
        runs_key: specs,
        computed: true,
    }
}

/// Derived state before anything was computed.
pub open spec fn blank_derived() -> DerivedView {
    DerivedView {
        preview: seq![],
        diags: seq![],
        runs: RunsView::NotCalendar(seq![]),
        runs_key: None,
        computed: false,
    }
}

fn same_specs(a: &Option<Vec<String>>, b: &Option<Vec<String>>) -> (r: bool)
    ensures
        r == (specs_view(*a) == specs_view(*b)),
{
    match (a, b) {
        (None, None) => true,
        (Some(x), Some(y)) => {
            let ghost xs = text::texts(x@);
            let ghost ys = text::texts(y@);
            if x.len() != y.len() {
                assert(xs.len() != ys.len());
                return false;
            }
            let mut i: usize = 0;
            while i < x.len()
                invariant
                    i <= x@.len() == y@.len(),
                    xs == text::texts(x@),
                    ys == text::texts(y@),
                    specs_view(*a) == Some(xs),
                    specs_view(*b) == Some(ys),
                    forall|k: int| 0 <= k < i ==> #[trigger] xs[k] == ys[k],
                decreases x@.len() - i,
            {
                if !text::same(x[i].as_str(), y[i].as_str()) {
                    assert(xs[i as int] != ys[i as int]);
                    return false;
                }
                i += 1;
            }
            assert(xs =~= ys);
            true
        },
        _ => false,
    }
}

/// The advisories that carry a fix.
pub open spec fn fixable_of(diags: Seq<DiagnosticView>) -> Seq<DiagnosticView>
    decreases diags.len(),
{
    if diags.len() == 0 {
        seq![]
    } else if diags.last().fix is Some {
        fixable_of(diags.drop_last()).push(diags.last())
    } else {
        fixable_of(diags.drop_last())
    }
}

impl Derived {
    /// Derived state before anything was computed.
    pub fn blank() -> (r: Derived)
        ensures
            r@ == blank_derived(),
    {
        let r = Derived {
            preview: String::new(),
            diags: Vec::new(),
            runs: Runs::NotCalendar(String::new()),
            runs_key: None,
            computed: false,
        };
        assert(r@.preview =~= seq![]);
        assert(r@.diags =~= seq![]);
        assert(r.runs@->NotCalendar_0 =~= seq![]);
        r
    }

    pub fn new(
        u: &Unit,
        dir: &str,
        found: &StrMap<String>,
        ran: Result<Vec<NextRun>, PreviewError>,
    ) -> (r: Derived)
        ensures
            r@ == refreshed_of(blank_derived(), u@, dir@, found@, analysed_of(ran)),
    {
        let mut d = Derived::blank();
        d.refresh(u, dir, found, ran);
        d
    }

    /// The specs that have to be analysed before the next refresh: those of
    /// the unit where they changed, and none otherwise.
    pub fn stale_specs(&self, u: &Unit) -> (r: Option<Vec<String>>)
        ensures
            specs_view(r) == (if !self@.computed || calendar_specs_of(u@) != self@.runs_key {
                calendar_specs_of(u@)
            } else {
                None
            }),
    {
        let specs = calendar_specs(u);
        if !self.computed || !same_specs(&specs, &self.runs_key) {
            specs
        } else {
            None
        }
    }

    /// Bring everything in line with `u`, doing no work where nothing moved:
    /// `ran` is looked at only where [`Derived::stale_specs`] gave specs.
    pub fn refresh(
        &mut self,
        u: &Unit,
        dir: &str,
        found: &StrMap<String>,
        ran: Result<Vec<NextRun>, PreviewError>,
    )
        ensures
            final(self)@ == refreshed_of(old(self)@, u@, dir@, found@, analysed_of(ran)),
    {
        let text = generate::preview(u, dir);
        if !self.computed || !text::same(text.as_str(), self.preview.as_str()) {
            self.preview = text;
            // Advisory only: the unit itself decides whether it can be
            // installed, and this never blocks anything.
            self.diags = validate::check_unit(u, found);
        }
        let specs = calendar_specs(u);
        if !self.computed || !same_specs(&specs, &self.runs_key) {
            self.runs = match &specs {
                None => Runs::NotCalendar(no_calendar_reason(u)),
                Some(_) => analysed(ran),
            };
        }
        self.runs_key = specs;
        self.computed = true;
    }

    /// Advisories that carry a one-key fix.
    pub fn fixable(&self) -> (r: Vec<&Diagnostic>)
        ensures
            Seq::new(r@.len(), |i: int| r@[i]@) == fixable_of(self@.diags),
    {
        let ghost all = self@.diags;
        let mut out: Vec<&Diagnostic> = Vec::new();
        let mut i: usize = 0;
        assert(all.take(0) =~= seq![]);
        assert(Seq::new(out@.len(), |j: int| out@[j]@) =~= seq![]);
        while i < self.diags.len()
            invariant
                i <= self.diags@.len(),
                all == self@.diags,
                Seq::new(out@.len(), |j: int| out@[j]@) == fixable_of(all.take(i as int)),
            decreases self.diags@.len() - i,
        {
            assert(all.take(i + 1).drop_last() =~= all.take(i as int));
            assert(all.take(i + 1).last() == self.diags@[i as int]@);
            let ghost before = Seq::new(out@.len(), |j: int| out@[j]@);
            if self.diags[i].fix.is_some() {
                out.push(&self.diags[i]);
                assert(Seq::new(out@.len(), |j: int| out@[j]@) =~= before.push(all[i as int]));
            }
            i += 1;
        }
        assert(all.take(self.diags@.len() as int) =~= all);
        out
    }
}

/// Refreshing again without a change of the unit changes nothing.
pub proof fn law_refreshing_twice(
    d: DerivedView,
    u: UnitView,
    dir: Seq<char>,
    found: Map<Seq<char>, Seq<char>>,
    runs: RunsView,
    other: RunsView,
)
    ensures
        ({
            let once = refreshed_of(d, u, dir, found, runs);
            refreshed_of(once, u, dir, found, other) == once
        }),
{
}

// ---------------------------------------------------------------------------
// What the pane shows
// ---------------------------------------------------------------------------

fn extend(out: &mut Vec<String>, more: Vec<String>)
    ensures
        text::texts(final(out)@) == text::texts(old(out)@) + text::texts(more@),
{
    let ghost a = text::texts(out@);
    let ghost b = text::texts(more@);
    let mut more = more;
    out.append(&mut more);
    assert(text::texts(out@) =~= a + b);
}

fn push(out: &mut Vec<String>, line: String)
    ensures
        text::texts(final(out)@) == text::texts(old(out)@).push(line@),
{
    let ghost before = text::texts(out@);
    out.push(line);
    assert(text::texts(out@) =~= before.push(line@));
}

/// The help on a row, as pane lines.
pub open spec fn help_lines_of(
    id: Id,
    doc: Seq<fieldhelp::EntryView>,
    width: int,
) -> Seq<Seq<char>> {
    let entry = match rows::help_key_of(id) {
        Some(k) => fieldhelp::entry_of(doc, k),
        None => None,
    };
    match entry {
        None => wrap::wrapped_of("(no help for this row)"@, width),
        Some(e) => wrap::wrapped_of(e.label, width).push(""@) + wrap::wrapped_of(
            e.summary,
            width,
        ).push(""@) + wrap::wrapped_of(e.detail, width) + (if e.examples.len() == 0 {
            seq![]
        } else {
            seq![""@] + wrap::wrapped_of("Examples: "@ + e.examples, width)
        }),
    }
}

/// The help document's entry for a row, as pane lines.
pub fn help_lines(id: Id, doc: &[fieldhelp::Entry], width: usize) -> (r: Vec<String>)
    ensures
        text::texts(r@) == help_lines_of(id, fieldhelp::entry_views(doc@), width as int),
{
    let entry = match rows::help_key(id) {
        Some(k) => fieldhelp::entry(doc, k),
        None => None,
    };
    match entry {
        None => wrap::wrap_lines("(no help for this row)", width),
        Some(e) => {
            let mut out = wrap::wrap_lines(e.label.as_str(), width);
            push(&mut out, "".to_owned());
            let ghost one = text::texts(out@);
            let mut two = wrap::wrap_lines(e.summary.as_str(), width);
            push(&mut two, "".to_owned());
            extend(&mut out, two);
            extend(&mut out, wrap::wrap_lines(e.detail.as_str(), width));
            let ghost most = text::texts(out@);
            if e.examples.as_str().unicode_len() > 0 {
                push(&mut out, "".to_owned());
                let line = text::cat2("Examples: ", e.examples.as_str());
                extend(&mut out, wrap::wrap_lines(line.as_str(), width));
                assert(text::texts(out@) =~= most + (seq![""@] + wrap::wrapped_of(
                    "Examples: "@ + e@.examples,
                    width as int,
                )));
            } else {
                assert(most + seq![] =~= most);
            }
            out
        },
    }
}

/// The first `n` of some firings, numbered.
pub open spec fn numbered_of(runs: Seq<RunView>, n: int, width: int) -> Seq<Seq<char>>
    decreases n,
{
    if n <= 0 {
        seq![]
    } else {
        let r = runs[n - 1];
        numbered_of(runs, n - 1, width) + wrap::wrapped_of(
            number::decimal(n as nat) + ". "@ + r.local,
            width,
        ) + (if r.from_now.len() == 0 {
            seq![]
        } else {
            wrap::wrapped_of("   "@ + r.from_now, width)
        })
    }
}

/// The next-run list, as lines.
pub open spec fn runs_lines_of(runs: RunsView, width: int) -> Seq<Seq<char>> {
    match runs {
        RunsView::NotCalendar(why) => wrap::wrapped_of(why, width),
        RunsView::Unavailable => wrap::wrapped_of(
            "Preview unavailable: systemd-analyze is not installed. The schedule itself is fine."@,
            width,
        ),
        RunsView::Invalid(m) => wrap::wrapped_of("! systemd rejected this spec:"@, width).push(""@)
            + wrap::wrapped_of(m, width),
        RunsView::Times(v) => if v.len() == 0 {
            wrap::wrapped_of(
                "This spec has no future elapse -- it will never fire again."@,
                width,
            )
        } else {
            numbered_of(v, v.len() as int, width)
        },
    }
}

/// The next-run list, as lines. Shared by the pane and by the live note under
/// the OnCalendar prompt, so the two can never disagree.
pub fn runs_lines(runs: &Runs, width: usize) -> (r: Vec<String>)
    ensures
        text::texts(r@) == runs_lines_of(runs@, width as int),
{
    match runs {
        Runs::NotCalendar(why) => wrap::wrap_lines(why.as_str(), width),
        Runs::Unavailable => wrap::wrap_lines(
            "Preview unavailable: systemd-analyze is not installed. The schedule itself is fine.",
            width,
        ),
        Runs::Invalid(m) => {
            let mut out = wrap::wrap_lines("! systemd rejected this spec:", width);
            push(&mut out, "".to_owned());
            extend(&mut out, wrap::wrap_lines(m.as_str(), width));
            out
        },
        Runs::Times(v) => {
            if v.len() == 0 {
                return wrap::wrap_lines(
                    "This spec has no future elapse -- it will never fire again.",
                    width,
                );
            }
            let ghost all = systemd::run_views(v@);
            let mut out: Vec<String> = Vec::new();
            let mut i: usize = 0;
            assert(text::texts(out@) =~= seq![]);
            while i < v.len()
                invariant
                    i <= v@.len(),
                    all == systemd::run_views(v@),
                    text::texts(out@) == numbered_of(all, i as int, width as int),
                decreases v@.len() - i,
            {
                assert(all[i as int] == v@[i as int]@);
                let n = number::usize_decimal(i + 1);
                let line = text::cat3(n.as_str(), ". ", v[i].local.as_str());
                extend(&mut out, wrap::wrap_lines(line.as_str(), width));
                let ghost most = text::texts(out@);
                if v[i].from_now.as_str().unicode_len() > 0 {
                    let line = text::cat2("   ", v[i].from_now.as_str());
                    extend(&mut out, wrap::wrap_lines(line.as_str(), width));
                } else {
                    assert(most + seq![] =~= most);
                }
                i += 1;
            }
            out
        },
    }
}

/// The first `n` advisories, as lines.
pub open spec fn advice_lines_of(diags: Seq<DiagnosticView>, n: int, width: int) -> Seq<Seq<char>>
    decreases n,
{
    if n <= 0 {
        seq![]
    } else {
        let d = diags[n - 1];
        (advice_lines_of(diags, n - 1, width) + wrap::wrapped_of(
            d.level.name() + ": "@ + d.message,
            width,
        ) + (match d.fix {
            Some(f) => wrap::wrapped_of("  -> c, then f: "@ + f.label_of(), width),
            None => seq![],
        })).push(""@)
    }
}

/// The advisory checks, as lines.
pub open spec fn check_lines_of(diags: Seq<DiagnosticView>, width: int) -> Seq<Seq<char>> {
    if diags.len() == 0 {
        wrap::wrapped_of(
            "No advisories.\n\nThese checks are advice, never a gate: anything here can still be saved."@,
            width,
        )
    } else {
        advice_lines_of(diags, diags.len() as int, width) + wrap::wrapped_of(
            "Advice only -- none of this blocks a save."@,
            width,
        )
    }
}

/// The advisory checks, as lines.
pub fn check_lines(diags: &[Diagnostic], width: usize) -> (r: Vec<String>)
    ensures
        text::texts(r@) == check_lines_of(validate::diagnostic_views(diags@), width as int),
{
    if diags.len() == 0 {
        return wrap::wrap_lines(
            "No advisories.\n\nThese checks are advice, never a gate: anything here can still be saved.",
            width,
        );
    }
    let ghost all = validate::diagnostic_views(diags@);
    let mut out: Vec<String> = Vec::new();
    let mut i: usize = 0;
    assert(text::texts(out@) =~= seq![]);
    while i < diags.len()
        invariant
            i <= diags@.len(),
            all == validate::diagnostic_views(diags@),
            text::texts(out@) == advice_lines_of(all, i as int, width as int),
        decreases diags@.len() - i,
    {
        assert(all[i as int] == diags@[i as int]@);
        let line = text::cat3(diags[i].level.as_str(), ": ", diags[i].message.as_str());
        extend(&mut out, wrap::wrap_lines(line.as_str(), width));
        let ghost most = text::texts(out@);
        match validate::autofix(&diags[i]) {
            Some(f) => {
                let line = text::cat2("  -> c, then f: ", f.label().as_str());
                extend(&mut out, wrap::wrap_lines(line.as_str(), width));
            },
            None => {
                assert(most + seq![] =~= most);
            },
        }
        push(&mut out, "".to_owned());
        i += 1;
    }
    extend(&mut out, wrap::wrap_lines("Advice only -- none of this blocks a save.", width));
    out
}

/// Everything the pane shows.
pub open spec fn pane_body_of(
    pane: Pane,
    id: Id,
    doc: Seq<fieldhelp::EntryView>,
    d: DerivedView,
    width: int,
) -> Seq<Seq<char>> {
    match pane {
        Pane::Off => seq![],
        Pane::Help => help_lines_of(id, doc, width),
        Pane::Preview => {
            let lines = parts::lines_of(d.preview);
            Seq::new(lines.len(), |i: int| escape::clip_of(lines[i], width))
        },
        Pane::Runs => runs_lines_of(d.runs, width),
        Pane::Checks => check_lines_of(d.diags, width),
    }
}

/// Everything the pane shows, already wrapped to `width`. Unit files are
/// code: clipped, never re-wrapped.
pub fn pane_body(pane: Pane, id: Id, doc: &[fieldhelp::Entry], d: &Derived, width: usize) -> (r: Vec<
    String,
>)
    ensures
        text::texts(r@) == pane_body_of(pane, id, fieldhelp::entry_views(doc@), d@, width as int),
{
    match pane {
        Pane::Off => {
            let out: Vec<String> = Vec::new();
            assert(text::texts(out@) =~= seq![]);
            out
        },
        Pane::Help => help_lines(id, doc, width),
        Pane::Preview => {
            let lines = parts::lines(d.preview.as_str());
            let ghost all = text::texts(lines@);
            let mut out: Vec<String> = Vec::new();
            let mut i: usize = 0;
            while i < lines.len()
                invariant
                    i <= lines@.len(),
                    all == text::texts(lines@),
                    out@.len() == i,
                    forall|k: int|
                        0 <= k < i ==> (#[trigger] out@[k])@ == escape::clip_of(
                            all[k],
                            width as int,
                        ),
                decreases lines@.len() - i,
            {
                out.push(escape::clip(lines[i].as_str(), width));
                i += 1;
            }
            assert(text::texts(out@) =~= Seq::new(
                all.len(),
                |i: int| escape::clip_of(all[i], width as int),
            ));
            out
        },
        Pane::Runs => runs_lines(&d.runs, width),
        Pane::Checks => check_lines(&d.diags, width),
    }
}

proof fn lemma_append_narrow(a: Seq<Seq<char>>, b: Seq<Seq<char>>, w: int)
    requires
        wrap::is_narrow(a, w),
        wrap::is_narrow(b, w),
    ensures
        wrap::is_narrow(a + b, w),
{
    assert forall|i: int| 0 <= i < (a + b).len() implies (#[trigger] (a + b)[i]).len() <= w by {
        if i < a.len() {
            assert((a + b)[i] == a[i]);
        } else {
            assert((a + b)[i] == b[i - a.len()]);
        }
    }
}

/// The width that lines wrapped to `width` keep to: a pane is never taken to
/// be narrower than eight columns.
spec fn kept_width(width: int) -> int {
    if width < 8 {
        8
    } else {
        width
    }
}

proof fn lemma_numbered_narrow(runs: Seq<RunView>, n: int, width: int)
    ensures
        wrap::is_narrow(numbered_of(runs, n, width), kept_width(width)),
    decreases n,
{
    let w = kept_width(width);
    if n > 0 {
        let r = runs[n - 1];
        lemma_numbered_narrow(runs, n - 1, width);
        let first = wrap::wrapped_of(number::decimal(n as nat) + ". "@ + r.local, width);
        wrap::law_wrapped_lines_fit(number::decimal(n as nat) + ". "@ + r.local, width);
        wrap::law_wrapped_lines_fit("   "@ + r.from_now, width);
        lemma_append_narrow(numbered_of(runs, n - 1, width), first, w);
        let second: Seq<Seq<char>> = if r.from_now.len() == 0 {
            seq![]
        } else {
            wrap::wrapped_of("   "@ + r.from_now, width)
        };
        lemma_append_narrow(numbered_of(runs, n - 1, width) + first, second, w);
    }
}

proof fn lemma_advice_narrow(diags: Seq<DiagnosticView>, n: int, width: int)
    ensures
        wrap::is_narrow(advice_lines_of(diags, n, width), kept_width(width)),
    decreases n,
{
    reveal_strlit("");
    let w = kept_width(width);
    if n > 0 {
        let d = diags[n - 1];
        lemma_advice_narrow(diags, n - 1, width);
        let before = advice_lines_of(diags, n - 1, width);
        let first = wrap::wrapped_of(d.level.name() + ": "@ + d.message, width);
        wrap::law_wrapped_lines_fit(d.level.name() + ": "@ + d.message, width);
        lemma_append_narrow(before, first, w);
        let second: Seq<Seq<char>> = match d.fix {
            Some(f) => wrap::wrapped_of("  -> c, then f: "@ + f.label_of(), width),
            None => seq![],
        };
        if d.fix is Some {
            wrap::law_wrapped_lines_fit("  -> c, then f: "@ + d.fix.unwrap().label_of(), width);
        }
        lemma_append_narrow(before + first, second, w);
        let most = before + first + second;
        assert(most.push(""@) =~= most + seq![""@]);
        lemma_append_narrow(most, seq![""@], w);
    }
}

proof fn lemma_entry_narrow(e: fieldhelp::EntryView, width: int)
    ensures
        wrap::is_narrow(
            wrap::wrapped_of(e.label, width).push(""@) + wrap::wrapped_of(e.summary, width).push(
                ""@,
            ) + wrap::wrapped_of(e.detail, width) + (if e.examples.len() == 0 {
                seq![]
            } else {
                seq![""@] + wrap::wrapped_of("Examples: "@ + e.examples, width)
            }),
            kept_width(width),
        ),
{
    reveal_strlit("");
    let w = kept_width(width);
    wrap::law_wrapped_lines_fit(e.label, width);
    wrap::law_wrapped_lines_fit(e.summary, width);
    wrap::law_wrapped_lines_fit(e.detail, width);
    wrap::law_wrapped_lines_fit("Examples: "@ + e.examples, width);
    let blank = seq![""@];
    assert(wrap::is_narrow(blank, w));
    let a = wrap::wrapped_of(e.label, width);
    let b = wrap::wrapped_of(e.summary, width);
    let c = wrap::wrapped_of(e.detail, width);
    let x = wrap::wrapped_of("Examples: "@ + e.examples, width);
    assert(a.push(""@) =~= a + blank);
    assert(b.push(""@) =~= b + blank);
    lemma_append_narrow(a, blank, w);
    lemma_append_narrow(b, blank, w);
    lemma_append_narrow(a + blank, b + blank, w);
    lemma_append_narrow((a + blank) + (b + blank), c, w);
    lemma_append_narrow(blank, x, w);
    let most = (a + blank) + (b + blank) + c;
    let last: Seq<Seq<char>> = if e.examples.len() == 0 {
        seq![]
    } else {
        blank + x
    };
    lemma_append_narrow(most, last, w);
}

/// Whatever the pane shows fits it, at any width: a pane of fewer than eight
/// columns is wrapped as if it had eight.
pub proof fn law_pane_fits(
    pane: Pane,
    id: Id,
    doc: Seq<fieldhelp::EntryView>,
    d: DerivedView,
    width: int,
)
    requires
        width >= 0,
    ensures
        wrap::is_narrow(
            pane_body_of(pane, id, doc, d, width),
            if width < 8 {
                8
            } else {
                width
            },
        ),
{
    reveal_strlit("");
    let w = kept_width(width);
    match pane {
        Pane::Help => {
            wrap::law_wrapped_lines_fit("(no help for this row)"@, width);
            if let Some(k) = rows::help_key_of(id) {
                if let Some(e) = fieldhelp::entry_of(doc, k) {
                    lemma_entry_narrow(e, width);
                }
            }
        },
        Pane::Runs => match d.runs {
            RunsView::NotCalendar(why) => wrap::law_wrapped_lines_fit(why, width),
            RunsView::Times(v) => {
                lemma_numbered_narrow(v, v.len() as int, width);
                wrap::law_wrapped_lines_fit(
                    "This spec has no future elapse -- it will never fire again."@,
                    width,
                );
            },
            RunsView::Invalid(m) => {
                let head = wrap::wrapped_of("! systemd rejected this spec:"@, width);
                wrap::law_wrapped_lines_fit("! systemd rejected this spec:"@, width);
                wrap::law_wrapped_lines_fit(m, width);
                assert(head.push(""@) =~= head + seq![""@]);
                lemma_append_narrow(head, seq![""@], w);
                lemma_append_narrow(head.push(""@), wrap::wrapped_of(m, width), w);
            },
            RunsView::Unavailable => wrap::law_wrapped_lines_fit(
                "Preview unavailable: systemd-analyze is not installed. The schedule itself is fine."@,
                width,
            ),
        },
        Pane::Checks => {
            wrap::law_wrapped_lines_fit(
                "No advisories.\n\nThese checks are advice, never a gate: anything here can still be saved."@,
                width,
            );
            wrap::law_wrapped_lines_fit("Advice only -- none of this blocks a save."@, width);
            lemma_advice_narrow(d.diags, d.diags.len() as int, width);
            if d.diags.len() > 0 {
                lemma_append_narrow(
                    advice_lines_of(d.diags, d.diags.len() as int, width),
                    wrap::wrapped_of("Advice only -- none of this blocks a save."@, width),
                    w,
                );
            }
        },
        _ => {},
    }
}

} // verus!
