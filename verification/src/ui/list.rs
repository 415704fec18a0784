//! The main screen: every unit notcron manages in the current scope, with
//! lifecycle actions and the entry point into the builder.

use crate::fieldhelp;
use crate::number;
use crate::parts;
use crate::paths;
use crate::systemd;
use crate::systemd::{Entry, EntryView};
use crate::templates;
use crate::templates::TemplateId;
use crate::text;
use crate::ui::paint;
use crate::ui::paint::{Color, Line, Span, SpanView, Style};
use crate::ui::steps;
use crate::ui::term::{Key, KeyCode};
use crate::ui::wrap;
use crate::unit::escape;
use crate::unit::model;
use crate::unit::model::{Body, BodyView, Scope, Unit, UnitView};
use vstd::prelude::*;

verus! {

broadcast use vstd::string::group_string_axioms;

/// The first part of the help.
pub const NAV_HELP: &'static str =
    "Navigation\n  Up/Down, j/k     move            u        switch user <-> system scope\n  Enter or e       edit unit       f        show/hide foreign units\n  n                new unit        r        systemctl daemon-reload\n  y                duplicate       ?        this help\n  q or Esc         quit\n\nForeign units -- anything without notcron's marker comment -- are shown\ngreyed out. They can be inspected but never edited or removed.\n";

/// Key and help-document entry for every lifecycle action on this screen.
pub open spec fn lifecycle_of() -> Seq<(Seq<char>, Seq<char>)> {
    seq![
        ("s"@, "lifecycle.start"@),
        ("S"@, "lifecycle.stop"@),
        ("a"@, "lifecycle.enable"@),
        ("d"@, "lifecycle.disable"@),
        ("x"@, "lifecycle.remove"@),
        ("i"@, "lifecycle.status"@),
        ("l"@, "lifecycle.logs"@),
        ("v"@, "lifecycle.view"@),
        ("r"@, "lifecycle.daemon_reload"@),
    ]
}

/// Key and help-document entry for every lifecycle action on this screen.
pub fn lifecycle_keys() -> (r: Vec<(&'static str, &'static str)>)
    ensures
        r@.len() == lifecycle_of().len(),
        forall|i: int|
            0 <= i < r@.len() ==> ((#[trigger] r@[i]).0@, r@[i].1@) == lifecycle_of()[i],
{
    vec![
        ("s", "lifecycle.start"),
        ("S", "lifecycle.stop"),
        ("a", "lifecycle.enable"),
        ("d", "lifecycle.disable"),
        ("x", "lifecycle.remove"),
        ("i", "lifecycle.status"),
        ("l", "lifecycle.logs"),
        ("v", "lifecycle.view"),
        ("r", "lifecycle.daemon_reload"),
    ]
}

/// Lines, each indented and ended by a newline.
pub open spec fn indented_of(lines: Seq<Seq<char>>) -> Seq<char>
    decreases lines.len(),
{
    if lines.len() == 0 {
        seq![]
    } else {
        indented_of(lines.drop_last()) + "      "@ + lines.last() + "\n"@
    }
}

/// The help on one action, by a help document; none where it has no entry.
pub open spec fn action_help(
    doc: Seq<fieldhelp::EntryView>,
    action: (Seq<char>, Seq<char>),
) -> Seq<char> {
    match fieldhelp::entry_of(doc, action.1) {
        Some(e) => "\n  "@ + action.0 + "   "@ + e.label + " -- "@ + e.summary + "\n"@ + indented_of(
            wrap::wrapped_of(e.detail, 68),
        ),
        None => seq![],
    }
}

/// The help on some actions.
pub open spec fn actions_help(
    doc: Seq<fieldhelp::EntryView>,
    actions: Seq<(Seq<char>, Seq<char>)>,
) -> Seq<char>
    decreases actions.len(),
{
    if actions.len() == 0 {
        seq![]
    } else {
        actions_help(doc, actions.drop_last()) + action_help(doc, actions.last())
    }
}

/// The `?` help: navigation, then every lifecycle action described by the
/// help document rather than by a second copy of the same sentences.
pub fn help_text(doc: &[fieldhelp::Entry]) -> (r: String)
    ensures
        r@ == NAV_HELP@ + "\nActions on the selected unit\n"@ + actions_help(
            fieldhelp::entry_views(doc@),
            lifecycle_of(),
        ),
{
    let ghost docv = fieldhelp::entry_views(doc@);
    let ghost all = lifecycle_of();
    let keys = lifecycle_keys();
    let mut out = text::cat2(NAV_HELP, "\nActions on the selected unit\n");
    let ghost head = out@;
    let mut i: usize = 0;
    assert(all.take(0) =~= seq![]);
    assert(head + seq![] =~= head);
    while i < keys.len()
        invariant
            i <= keys@.len() == all.len(),
            all == lifecycle_of(),
            docv == fieldhelp::entry_views(doc@),
            forall|k: int|
                0 <= k < keys@.len() ==> ((#[trigger] keys@[k]).0@, keys@[k].1@) == all[k],
            out@ == head + actions_help(docv, all.take(i as int)),
        decreases keys@.len() - i,
    {
        let ghost before = actions_help(docv, all.take(i as int));
        proof {
            assert(all.take(i + 1).drop_last() =~= all.take(i as int));
            assert(all.take(i + 1).last() == all[i as int]);
            assert((keys@[i as int].0@, keys@[i as int].1@) == all[i as int]);
        }
        let one = one_action(doc, keys[i].0, keys[i].1);
        out.push_str(one.as_str());
        assert((head + before) + one@ =~= head + (before + one@));
        i += 1;
    }
    assert(all.take(keys@.len() as int) =~= all);
    out
}

fn one_action(doc: &[fieldhelp::Entry], key: &str, help: &str) -> (r: String)
    ensures
        r@ == action_help(fieldhelp::entry_views(doc@), (key@, help@)),
{
    let none = String::new();
    assert(none@ =~= seq![]);
    match fieldhelp::entry(doc, help) {
        None => none,
        Some(e) => {
            let head = text::cat5("\n  ", key, "   ", e.label.as_str(), " -- ");
            let mut out = text::cat3(head.as_str(), e.summary.as_str(), "\n");
            let ghost start = out@;
            let lines = wrap::wrap_lines(e.detail.as_str(), 68);
            let ghost all = text::texts(lines@);
            let mut i: usize = 0;
            assert(all.take(0) =~= seq![]);
            assert(start + seq![] =~= start);
            while i < lines.len()
                invariant
                    i <= lines@.len(),
                    all == text::texts(lines@),
                    out@ == start + indented_of(all.take(i as int)),
                decreases lines@.len() - i,
            {
                let ghost before = indented_of(all.take(i as int));
                assert(all.take(i + 1).drop_last() =~= all.take(i as int));
                assert(all.take(i + 1).last() == lines@[i as int]@);
                out.push_str("      ");
                out.push_str(lines[i].as_str());
                out.push_str("\n");
                assert(out@ =~= start + (before + "      "@ + lines@[i as int]@ + "\n"@));
                i += 1;
            }
            assert(all.take(lines@.len() as int) =~= all);
            out
        },
    }
}

// ---------------------------------------------------------------------------
// State
// ---------------------------------------------------------------------------

#[derive(Debug)]
pub struct App {
    pub scope: Scope,
    pub show_foreign: bool,
    pub entries: Vec<Entry>,
    pub sel: usize,
    pub top: usize,
    pub status: String,
}

/// The contents of an [`App`].
#[verifier::ext_equal]
pub struct AppView {
    pub scope: Scope,
    pub show_foreign: bool,
    pub entries: Seq<EntryView>,
    pub sel: int,
    pub top: int,
    pub status: Seq<char>,
}

impl View for App {
    type V = AppView;

    open spec fn view(&self) -> AppView {
        AppView {
            scope: self.scope,
            show_foreign: self.show_foreign,
            entries: systemd::entry_views(self.entries@),
            sel: self.sel as int,
            top: self.top as int,
            status: self.status@,
        }
    }
}

impl AppView {
    /// The selected entry, where there is one.
    pub open spec fn selected_of(self) -> Option<EntryView> {
        if 0 <= self.sel < self.entries.len() {
            Some(self.entries[self.sel])
        } else {
            None
        }
    }
}

/// The screen with a listing: the selection stays inside it, and a listing
/// that could not be had leaves the reason in the status line.
pub open spec fn reloaded_of(a: AppView, listing: Result<Seq<EntryView>, Seq<char>>) -> AppView {
    match listing {
        Ok(entries) => AppView {
            entries,
            sel: if a.sel < entries.len() {
                a.sel
            } else if entries.len() > 0 {
                entries.len() - 1
            } else {
                0
            },
            ..a
        },
        Err(e) => AppView { entries: seq![], status: e, ..a },
    }
}

/// The contents of a listing.
pub open spec fn listing_view(listing: Result<Vec<Entry>, String>) -> Result<
    Seq<EntryView>,
    Seq<char>,
> {
    match listing {
        Ok(v) => Ok(systemd::entry_views(v@)),
        Err(e) => Err(e@),
    }
}

/// What a key of the main screen asks for.
#[derive(Debug, Clone, Copy, PartialEq, Eq, Structural)]
pub enum Action {
    /// The next key.
    Stay,
    Quit,
    Help,
    New,
    Edit,
    Duplicate,
    /// The units are to be listed again.
    Reload,
    DaemonReload,
    Start,
    Stop,
    Enable,
    Disable,
    Remove,
    Status,
    Logs,
    ViewFiles,
}

/// The screen with the selection moved, wrapping at both ends.
pub open spec fn moved_of(a: AppView, delta: int) -> AppView {
    if a.entries.len() == 0 {
        a
    } else {
        AppView { sel: steps::step_of(a.sel, delta, a.entries.len() as int), ..a }
    }
}

/// The action that a character asks for.
pub open spec fn char_action(c: char) -> Option<Action> {
    if c == 'q' {
        Some(Action::Quit)
    } else if c == '?' {
        Some(Action::Help)
    } else if c == 'n' {
        Some(Action::New)
    } else if c == 'e' {
        Some(Action::Edit)
    } else if c == 'y' {
        Some(Action::Duplicate)
    } else if c == 'r' {
        Some(Action::DaemonReload)
    } else if c == 's' {
        Some(Action::Start)
    } else if c == 'S' {
        Some(Action::Stop)
    } else if c == 'a' {
        Some(Action::Enable)
    } else if c == 'd' {
        Some(Action::Disable)
    } else if c == 'x' {
        Some(Action::Remove)
    } else if c == 'i' {
        Some(Action::Status)
    } else if c == 'l' {
        Some(Action::Logs)
    } else if c == 'v' {
        Some(Action::ViewFiles)
    } else {
        None
    }
}

/// What a key does to the main screen.
#[verifier::opaque]
pub open spec fn pressed_of(a: AppView, k: Option<Key>) -> (AppView, Action) {
    let b = AppView { status: seq![], ..a };
    let last = if a.entries.len() > 0 {
        a.entries.len() - 1
    } else {
        0
    };
    match k {
        None => (a, Action::Quit),
        Some(k) => match k {
            Key::Scroll(d) => (moved_of(b, d as int), Action::Stay),
            Key::Press(KeyCode::Up, _) => (moved_of(b, -1), Action::Stay),
            Key::Press(KeyCode::Down, _) => (moved_of(b, 1), Action::Stay),
            Key::Press(KeyCode::Home, _) => (AppView { sel: 0, ..b }, Action::Stay),
            Key::Press(KeyCode::End, _) => (AppView { sel: last, ..b }, Action::Stay),
            Key::Press(KeyCode::Esc, _) => (b, Action::Quit),
            Key::Press(KeyCode::Enter, _) => (b, Action::Edit),
            Key::Press(KeyCode::Char(c), false) => if c == 'k' {
                (moved_of(b, -1), Action::Stay)
            } else if c == 'j' {
                (moved_of(b, 1), Action::Stay)
            } else if c == 'u' {
                (
                    AppView {
                        scope: if a.scope == Scope::User {
                            Scope::System
                        } else {
                            Scope::User
                        },
                        sel: 0,
                        ..b
                    },
                    Action::Reload,
                )
            } else if c == 'f' {
                (AppView { show_foreign: !a.show_foreign, sel: 0, ..b }, Action::Reload)
            } else {
                match char_action(c) {
                    Some(x) => (b, x),
                    None => (b, Action::Stay),
                }
            },
            _ => (b, Action::Stay),
        },
    }
}

fn action_of_char(c: char) -> (r: Option<Action>)
    ensures
        r == char_action(c),
{
    if c == 'q' {
        Some(Action::Quit)
    } else if c == '?' {
        Some(Action::Help)
    } else if c == 'n' {
        Some(Action::New)
    } else if c == 'e' {
        Some(Action::Edit)
    } else if c == 'y' {
        Some(Action::Duplicate)
    } else if c == 'r' {
        Some(Action::DaemonReload)
    } else if c == 's' {
        Some(Action::Start)
    } else if c == 'S' {
        Some(Action::Stop)
    } else if c == 'a' {
        Some(Action::Enable)
    } else if c == 'd' {
        Some(Action::Disable)
    } else if c == 'x' {
        Some(Action::Remove)
    } else if c == 'i' {
        Some(Action::Status)
    } else if c == 'l' {
        Some(Action::Logs)
    } else if c == 'v' {
        Some(Action::ViewFiles)
    } else {
        None
    }
}

impl App {
    pub fn new(scope: Scope, listing: Result<Vec<Entry>, String>) -> (r: App)
        ensures
            r@ == reloaded_of(
                AppView {
                    scope,
                    show_foreign: false,
                    entries: seq![],
                    sel: 0,
                    top: 0,
                    status: seq![],
                },
                listing_view(listing),
            ),
    {
        let mut app = App {
            scope,
            show_foreign: false,
            entries: Vec::new(),
            sel: 0,
            top: 0,
            status: String::new(),
        };
        assert(app@.status =~= seq![]);
        assert(app@.entries =~= seq![]);
        app.reload(listing);
        app
    }

    /// Takes a listing of the units.
    pub fn reload(&mut self, listing: Result<Vec<Entry>, String>)
        ensures
            final(self)@ == reloaded_of(old(self)@, listing_view(listing)),
    {
        match listing {
            Ok(e) => {
                self.entries = e;
                let n: usize = self.entries.len();
                if self.sel >= n {
                    self.sel = if n > 0 {
                        n - 1
                    } else {
                        0
                    };
                }
            },
            Err(e) => {
                self.entries = Vec::new();
                self.status = e;
                assert(self@.entries =~= seq![]);
            },
        }
    }

    /// The selected entry, where there is one.
    pub fn selected(&self) -> (r: Option<&Entry>)
        ensures
            match r {
                Some(e) => self@.selected_of() == Some(e@),
                None => self@.selected_of() is None,
            },
    {
        if self.sel < self.entries.len() {
            assert(self@.entries[self.sel as int] == self.entries@[self.sel as int]@);
            Some(&self.entries[self.sel])
        } else {
            None
        }
    }

    /// Moves the selection, wrapping at both ends.
    pub fn move_sel(&mut self, delta: i8)
        ensures
            final(self)@ == moved_of(old(self)@, delta as int),
    {
        if self.entries.len() == 0 {
            return;
        }
        self.sel = steps::step(self.sel, delta as i32, self.entries.len());
    }

    /// Takes one key.
    pub fn press(&mut self, k: Option<Key>) -> (r: Action)
        ensures
            (final(self)@, r) == pressed_of(old(self)@, k),
    {
        reveal(pressed_of);
        let k = match k {
            None => {
                return Action::Quit;
            },
            Some(k) => k,
        };
        self.status = String::new();
        assert(self@.status =~= seq![]);
        match k {
            Key::Scroll(d) => {
                self.move_sel(d);
                Action::Stay
            },
            Key::Press(KeyCode::Up, _) => {
                self.move_sel(-1);
                Action::Stay
            },
            Key::Press(KeyCode::Down, _) => {
                self.move_sel(1);
                Action::Stay
            },
            Key::Press(KeyCode::Home, _) => {
                self.sel = 0;
                Action::Stay
            },
            Key::Press(KeyCode::End, _) => {
                let n: usize = self.entries.len();
                self.sel = if n > 0 {
                    n - 1
                } else {
                    0
                };
                Action::Stay
            },
            Key::Press(KeyCode::Esc, _) => Action::Quit,
            Key::Press(KeyCode::Enter, _) => Action::Edit,
            Key::Press(KeyCode::Char(c), false) => {
                if c == 'k' {
                    self.move_sel(-1);
                    Action::Stay
                } else if c == 'j' {
                    self.move_sel(1);
                    Action::Stay
                } else if c == 'u' {
                    self.scope = if self.scope == Scope::User {
                        Scope::System
                    } else {
                        Scope::User
                    };
                    self.sel = 0;
                    Action::Reload
                } else if c == 'f' {
                    self.show_foreign = !self.show_foreign;
                    self.sel = 0;
                    Action::Reload
                } else {
                    match action_of_char(c) {
                        Some(x) => x,
                        None => Action::Stay,
                    }
                }
            },
            _ => Action::Stay,
        }
    }
}

/// Listing again never leaves the selection outside the list.
pub proof fn law_selection_stays_inside(a: AppView, entries: Seq<EntryView>)
    requires
        0 <= a.sel,
        entries.len() > 0,
    ensures
        reloaded_of(a, Ok(entries)).selected_of() is Some,
{
}

// ---------------------------------------------------------------------------
// What the screen shows
// ---------------------------------------------------------------------------

/// How an entry looks: grey for a foreign unit, green for a running one, red
/// for one that failed.
pub open spec fn style_of(e: EntryView) -> Style {
    if !e.owned {
        Style::fg_of(Color::DarkGray)
    } else if e.active == "active"@ || e.active == "activating"@ {
        Style::fg_of(Color::Green)
    } else if e.active == "failed"@ {
        Style::fg_of(Color::Red)
    } else {
        Style::plain_of()
    }
}

/// How an entry looks.
pub fn state_style(e: &Entry) -> (r: Style)
    ensures
        r == style_of(e@),
{
    if !e.owned {
        Style::colored(Color::DarkGray)
    } else if text::same(e.active.as_str(), "active") || text::same(
        e.active.as_str(),
        "activating",
    ) {
        Style::colored(Color::Green)
    } else if text::same(e.active.as_str(), "failed") {
        Style::colored(Color::Red)
    } else {
        Style::plain()
    }
}

/// A text, or `-` where there is none.
pub open spec fn or_dash(s: Seq<char>) -> Seq<char> {
    if s.len() == 0 {
        "-"@
    } else {
        s
    }
}

fn dashed(s: &str) -> (r: &str)
    ensures
        r@ == or_dash(s@),
{
    if s.unicode_len() == 0 {
        "-"
    } else {
        s
    }
}

/// The row of an entry.
pub open spec fn row_of(e: EntryView, selected: bool) -> Seq<char> {
    (if selected {
        " > "@
    } else {
        "   "@
    }) + text::pad_right_of(escape::clip_of(e.primary, 34), 34) + " "@ + text::pad_right_of(
        e.kind,
        10,
    ) + " "@ + text::pad_right_of(or_dash(e.active), 9) + " "@ + text::pad_right_of(
        or_dash(e.enabled),
        9,
    ) + " "@ + (if e.schedule.len() == 0 {
        e.description
    } else {
        e.schedule
    })
}

/// The row of an entry.
pub fn row(e: &Entry, selected: bool) -> (r: String)
    ensures
        r@ == row_of(e@, selected),
{
    let mark = if selected {
        " > "
    } else {
        "   "
    };
    let name = escape::clip(e.primary.as_str(), 34);
    let name = text::pad_right(name.as_str(), 34);
    let kind = text::pad_right(e.kind, 10);
    let active = text::pad_right(dashed(e.active.as_str()), 9);
    let enabled = text::pad_right(dashed(e.enabled.as_str()), 9);
    let last = if e.schedule.as_str().unicode_len() == 0 {
        e.description.as_str()
    } else {
        e.schedule.as_str()
    };
    let head = text::cat5(mark, name.as_str(), " ", kind.as_str(), " ");
    let tail = text::cat5(head.as_str(), active.as_str(), " ", enabled.as_str(), " ");
    text::cat2(tail.as_str(), last)
}

/// One line of the list.
pub open spec fn line_of(e: EntryView, selected: bool, width: int) -> Seq<SpanView> {
    paint::styled_of(
        escape::clip_of(row_of(e, selected), width),
        if selected {
            Style { bold: true, reversed: true, ..style_of(e) }
        } else {
            style_of(e)
        },
    )
}

/// The lines of the list that are in view.
pub open spec fn lines_of(a: AppView, width: int, visible: int) -> Seq<Seq<SpanView>> {
    let rows = if visible > 0 {
        visible
    } else {
        1
    };
    let top = steps::viewport_of(a.sel, a.top, a.entries.len() as int, rows).1;
    let left = a.entries.len() - top;
    let shown = if left < rows {
        left
    } else {
        rows
    };
    Seq::new(shown as nat, |i: int| line_of(a.entries[top + i], top + i == a.sel, width))
}

impl App {
    /// The lines of the list that are in view.
    pub fn lines(&self, width: usize, visible: usize) -> (r: Vec<Line>)
        requires
            self.sel < self.entries@.len() < usize::MAX,
        ensures
            paint::line_views(r@) == lines_of(self@, width as int, visible as int),
    {
        let rows: usize = if visible > 0 {
            visible
        } else {
            1
        };
        let n: usize = self.entries.len();
        let (_, top) = steps::viewport(self.sel, self.top, n, rows);
        let mut out: Vec<Line> = Vec::new();
        let mut i: usize = 0;
        while i < rows && i < n - top
            invariant
                i <= rows,
                i <= n - top,
                top <= n == self.entries@.len(),
                out@.len() == i,
                forall|j: int|
                    0 <= j < i ==> (#[trigger] out@[j])@ == line_of(
                        self@.entries[top + j],
                        top + j == self.sel,
                        width as int,
                    ),
            decreases rows - i,
        {
            let at: usize = top + i;
            assert(self@.entries[at as int] == self.entries@[at as int]@);
            let text = row(&self.entries[at], at == self.sel);
            let mut style = state_style(&self.entries[at]);
            if at == self.sel {
                style.bold = true;
                style.reversed = true;
            }
            out.push(paint::styled(escape::clip(text.as_str(), width), style));
            i += 1;
        }
        assert(paint::line_views(out@) =~= lines_of(self@, width as int, visible as int));
        out
    }

    /// The header: the program, the scope and where its units are.
    pub fn header(&self, dir: &str) -> (r: Line)
        ensures
            r@ == seq![
                SpanView {
                    content: " notcron "@,
                    style: Style { bold: true, reversed: true, ..Style::plain_of() },
                },
                SpanView {
                    content: " "@ + self@.scope.name() + " scope -- "@ + dir@ + (
                    if self@.show_foreign {
                        "  [showing foreign units]"@
                    } else {
                        ""@
                    }),
                    style: Style::plain_of(),
                },
            ],
    {
        let tail = if self.show_foreign {
            "  [showing foreign units]"
        } else {
            ""
        };
        let mut name = Style::plain();
        name.bold = true;
        name.reversed = true;
        let text = text::cat5(" ", self.scope.as_str(), " scope -- ", dir, tail);
        let r = Line {
            spans: vec![
                Span { content: " notcron ".to_owned(), style: name },
                Span { content: text, style: Style::plain() },
            ],
        };
        assert(r@ =~= seq![
            SpanView { content: " notcron "@, style: name },
            SpanView { content: text@, style: Style::plain_of() },
        ]);
        r
    }

    /// The title of the list.
    pub fn title(&self) -> (r: String)
        ensures
            r@ == " Units ("@ + number::decimal(self@.entries.len()) + ") "@,
    {
        text::cat3(" Units (", number::usize_decimal(self.entries.len()).as_str(), ") ")
    }

    /// The footer: the status or what is to be said of the selected unit, and
    /// the keys.
    pub fn footer(&self) -> (r: String)
        ensures
            r@ == (if self@.status.len() > 0 {
                self@.status
            } else {
                match self@.selected_of() {
                    Some(e) => if e.owned {
                        e.description
                    } else {
                        "read-only: not created by notcron"@
                    },
                    None => ""@,
                }
            })
                + "\nn new  y copy  Enter edit  s start  S stop  a enable  d disable  x remove  i status  l logs  v view  u scope  f foreign  r reload  ? help  q quit"@,
    {
        let hint = if self.status.as_str().unicode_len() > 0 {
            self.status.as_str()
        } else {
            match self.selected() {
                Some(e) => if e.owned {
                    e.description.as_str()
                } else {
                    "read-only: not created by notcron"
                },
                None => "",
            }
        };
        text::cat2(
            hint,
            "\nn new  y copy  Enter edit  s start  S stop  a enable  d disable  x remove  i status  l logs  v view  u scope  f foreign  r reload  ? help  q quit",
        )
    }
}

/// What an empty list says.
pub const NOTHING: &'static str =
    "\n  Nothing here yet.\n\n  Press n to build a timer, service or mount.\n  Press f to include units notcron does not own.";

// ---------------------------------------------------------------------------
// Building and copying
// ---------------------------------------------------------------------------

/// The kinds of unit that can be built.
pub fn new_items() -> (r: Vec<String>)
    ensures
        text::texts(r@) == seq![
            "Timer + service    -- run a command on a schedule"@,
            "Service            -- a standalone service unit"@,
            "Mount / automount  -- a filesystem mount (system scope)"@,
            "From a template    -- a working job to edit rather than invent"@,
            "From an existing unit -- copy one of yours under a new name"@,
        ],
{
    let r: Vec<String> = vec![
        "Timer + service    -- run a command on a schedule".to_owned(),
        "Service            -- a standalone service unit".to_owned(),
        "Mount / automount  -- a filesystem mount (system scope)".to_owned(),
        "From a template    -- a working job to edit rather than invent".to_owned(),
        "From an existing unit -- copy one of yours under a new name".to_owned(),
    ];
    assert(text::texts(r@) =~= seq![
        "Timer + service    -- run a command on a schedule"@,
        "Service            -- a standalone service unit"@,
        "Mount / automount  -- a filesystem mount (system scope)"@,
        "From a template    -- a working job to edit rather than invent"@,
        "From an existing unit -- copy one of yours under a new name"@,
    ]);
    r
}

/// What an item of the new-unit menu leads to.
#[derive(Debug)]
pub enum NewUnit {
    /// The builder is opened on this unit under this title.
    Build(Unit, String),
    /// A template is chosen first.
    Template,
    /// A unit to copy is chosen first.
    Existing,
}

/// The contents of a [`NewUnit`].
#[verifier::ext_equal]
pub enum NewUnitView {
    Build(UnitView, Seq<char>),
    Template,
    Existing,
}

impl View for NewUnit {
    type V = NewUnitView;

    open spec fn view(&self) -> NewUnitView {
        match self {
            NewUnit::Build(u, title) => NewUnitView::Build(u@, title@),
            NewUnit::Template => NewUnitView::Template,
            NewUnit::Existing => NewUnitView::Existing,
        }
    }
}

/// What the `i`-th item of the new-unit menu leads to.
pub open spec fn new_choice_of(i: int, scope: Scope) -> NewUnitView {
    if i == 0 {
        NewUnitView::Build(UnitView::new_timer_of(scope), "New timer"@)
    } else if i == 1 {
        NewUnitView::Build(UnitView::new_service_of(scope), "New service"@)
    } else if i == 2 {
        NewUnitView::Build(UnitView::new_mount_of(), "New mount"@)
    } else if i == 3 {
        NewUnitView::Template
    } else {
        NewUnitView::Existing
    }
}

/// What the `i`-th of the [`new_items`] leads to.
pub fn new_choice(i: usize, scope: Scope) -> (r: NewUnit)
    ensures
        r@ == new_choice_of(i as int, scope),
{
    if i == 0 {
        NewUnit::Build(Unit::new_timer(scope), "New timer".to_owned())
    } else if i == 1 {
        NewUnit::Build(Unit::new_service(scope), "New service".to_owned())
    } else if i == 2 {
        NewUnit::Build(Unit::new_mount(), "New mount".to_owned())
    } else if i == 3 {
        NewUnit::Template
    } else {
        NewUnit::Existing
    }
}

/// The unit that the `i`-th of the [`template_items`] builds, and the title
/// it is built under.
pub fn from_template(i: usize, scope: Scope) -> (r: (Unit, String))
    requires
        i < TemplateId::all_of().len(),
    ensures
        r.0@ == TemplateId::all_of()[i as int].unit_of(scope),
        r.1@ == "New from template: "@ + r.0@.name,
{
    let u = TemplateId::all()[i].build(scope);
    let title = text::cat2("New from template: ", u.name.as_str());
    (u, title)
}

/// The template chooser's items. Each is a unit that would already work.
pub fn template_items() -> (r: Vec<String>)
    ensures
        r@.len() == TemplateId::all_of().len(),
        forall|i: int|
            0 <= i < r@.len() ==> (#[trigger] r@[i])@ == text::pad_right_of(
                TemplateId::all_of()[i].label_of(),
                16,
            ) + " "@ + TemplateId::all_of()[i].detail_of(),
{
    let all = TemplateId::all();
    let mut out: Vec<String> = Vec::new();
    let mut i: usize = 0;
    while i < all.len()
        invariant
            i <= all@.len(),
            all@ == TemplateId::all_of(),
            out@.len() == i,
            forall|k: int|
                0 <= k < i ==> (#[trigger] out@[k])@ == text::pad_right_of(
                    TemplateId::all_of()[k].label_of(),
                    16,
                ) + " "@ + TemplateId::all_of()[k].detail_of(),
        decreases all@.len() - i,
    {
        let label = text::pad_right(all[i].label(), 16);
        out.push(text::cat3(label.as_str(), " ", all[i].detail()));
        i += 1;
    }
    out
}

/// The name that a copy must not have because of an entry, if it takes one:
/// the unit's name for timers and services, and the mount point for mounts.
pub open spec fn taken_by(e: EntryView, mount: bool) -> Option<Seq<char>> {
    match e.unit {
        None => None,
        Some(u) => match u.body {
            BodyView::Mount(m) => if mount {
                Some(m.where_)
            } else {
                None
            },
            _ => if mount {
                None
            } else {
                Some(u.name)
            },
        },
    }
}

/// The names that entries take.
pub open spec fn taken_of(entries: Seq<EntryView>, mount: bool) -> Seq<Seq<char>>
    decreases entries.len(),
{
    if entries.len() == 0 {
        seq![]
    } else {
        let before = taken_of(entries.drop_last(), mount);
        match taken_by(entries.last(), mount) {
            Some(n) => before.push(n),
            None => before,
        }
    }
}

fn taken(e: &Entry, mount: bool) -> (r: Option<String>)
    ensures
        text::opt_text(r) == taken_by(e@, mount),
{
    match &e.unit {
        None => None,
        Some(u) => match &u.body {
            Body::Mount(m) => if mount {
                Some(m.where_.clone())
            } else {
                None
            },
            _ => if mount {
                None
            } else {
                Some(u.name.clone())
            },
        },
    }
}

/// The names a clone must not collide with: unit names for timers and
/// services, mount points for mounts, since a mount's filename comes from
/// `Where=`.
pub fn taken_names(entries: &[Entry], mount: bool) -> (r: Vec<String>)
    ensures
        text::texts(r@) == taken_of(systemd::entry_views(entries@), mount),
        r@.len() <= entries@.len(),
{
    let ghost all = systemd::entry_views(entries@);
    let mut out: Vec<String> = Vec::new();
    let mut i: usize = 0;
    assert(all.take(0) =~= seq![]);
    assert(text::texts(out@) =~= seq![]);
    while i < entries.len()
        invariant
            i <= entries@.len(),
            out@.len() <= i,
            all == systemd::entry_views(entries@),
            text::texts(out@) == taken_of(all.take(i as int), mount),
        decreases entries@.len() - i,
    {
        assert(all.take(i + 1).drop_last() =~= all.take(i as int));
        assert(all.take(i + 1).last() == entries@[i as int]@);
        if let Some(n) = taken(&entries[i], mount) {
            let ghost before = text::texts(out@);
            out.push(n);
            assert(text::texts(out@) =~= before.push(n@));
        }
        i += 1;
    }
    assert(all.take(entries@.len() as int) =~= all);
    out
}

/// The positions of the entries that can be copied, among the first `n`.
pub open spec fn copyable_of(entries: Seq<EntryView>, n: int) -> Seq<int>
    decreases n,
{
    if n <= 0 {
        seq![]
    } else {
        let before = copyable_of(entries, n - 1);
        if entries[n - 1].owned && entries[n - 1].unit is Some {
            before.push(n - 1)
        } else {
            before
        }
    }
}

/// The positions of the entries that can be copied: owned ones that the model
/// holds.
pub fn copyable(entries: &[Entry]) -> (r: Vec<usize>)
    ensures
        Seq::new(r@.len(), |i: int| r@[i] as int) == copyable_of(
            systemd::entry_views(entries@),
            entries@.len() as int,
        ),
        forall|i: int| 0 <= i < r@.len() ==> (#[trigger] r@[i]) < entries@.len(),
{
    let ghost all = systemd::entry_views(entries@);
    let mut out: Vec<usize> = Vec::new();
    let mut i: usize = 0;
    assert(Seq::new(out@.len(), |j: int| out@[j] as int) =~= seq![]);
    while i < entries.len()
        invariant
            i <= entries@.len(),
            all == systemd::entry_views(entries@),
            Seq::new(out@.len(), |j: int| out@[j] as int) == copyable_of(all, i as int),
            forall|j: int| 0 <= j < out@.len() ==> (#[trigger] out@[j]) < i,
        decreases entries@.len() - i,
    {
        assert(all[i as int] == entries@[i as int]@);
        if entries[i].owned && entries[i].unit.is_some() {
            let ghost before = Seq::new(out@.len(), |j: int| out@[j] as int);
            out.push(i);
            assert(Seq::new(out@.len(), |j: int| out@[j] as int) =~= before.push(i as int));
        }
        i += 1;
    }
    out
}

/// The item of an entry among those to copy.
pub fn copy_item(e: &Entry) -> (r: String)
    ensures
        r@ == text::pad_right_of(e@.primary, 34) + " "@ + e@.description,
{
    let name = text::pad_right(e.primary.as_str(), 34);
    text::cat3(name.as_str(), " ", e.description.as_str())
}

/// A copy of a unit of the list, under a name that none of its entries has.
/// Nothing about the original's installed state comes with it.
pub fn copy_of(src: &Unit, entries: &[Entry]) -> (r: Unit)
    requires
        entries@.len() < usize::MAX,
    ensures
        templates::is_copy(
            r@,
            src@,
            taken_of(systemd::entry_views(entries@), src@.body is Mount),
        ),
{
    let mount = match &src.body {
        Body::Mount(_) => true,
        _ => false,
    };
    templates::clone_unit(src, &taken_names(entries, mount))
}

/// The entries that can be copied, as items to choose from.
pub fn copy_items(entries: &[Entry]) -> (r: Vec<String>)
    ensures
        ({
            let all = systemd::entry_views(entries@);
            let at = copyable_of(all, all.len() as int);
            &&& r@.len() == at.len()
            &&& forall|i: int|
                0 <= i < r@.len() ==> (#[trigger] r@[i])@ == text::pad_right_of(
                    all[at[i]].primary,
                    34,
                ) + " "@ + all[at[i]].description
        }),
{
    let ghost all = systemd::entry_views(entries@);
    let owned = copyable(entries);
    let ghost at = copyable_of(all, all.len() as int);
    let mut out: Vec<String> = Vec::new();
    let mut i: usize = 0;
    assert(at.len() == owned@.len());
    while i < owned.len()
        invariant
            i <= owned@.len(),
            all == systemd::entry_views(entries@),
            at == Seq::new(owned@.len(), |j: int| owned@[j] as int),
            forall|j: int| 0 <= j < owned@.len() ==> (#[trigger] owned@[j]) < entries@.len(),
            out@.len() == i,
            forall|j: int|
                0 <= j < i ==> (#[trigger] out@[j])@ == text::pad_right_of(all[at[j]].primary, 34)
                    + " "@ + all[at[j]].description,
        decreases owned@.len() - i,
    {
        assert(at[i as int] == owned@[i as int]);
        assert(all[at[i as int]] == entries@[owned@[i as int] as int]@);
        out.push(copy_item(&entries[owned[i]]));
        i += 1;
    }
    out
}

proof fn lemma_copyable(entries: Seq<EntryView>, n: int)
    requires
        0 <= n <= entries.len(),
    ensures
        forall|i: int|
            0 <= i < copyable_of(entries, n).len() ==> 0 <= (#[trigger] copyable_of(entries, n)[i])
                < n && entries[copyable_of(entries, n)[i]].unit is Some,
    decreases n,
{
    if n > 0 {
        lemma_copyable(entries, n - 1);
    }
}

/// A copy of the `i`-th of the [`copy_items`], and the title it is built
/// under.
pub fn from_existing(i: usize, entries: &[Entry]) -> (r: (Unit, String))
    requires
        entries@.len() < usize::MAX,
        i < copyable_of(systemd::entry_views(entries@), entries@.len() as int).len(),
    ensures
        ({
            let all = systemd::entry_views(entries@);
            let src = all[copyable_of(all, all.len() as int)[i as int]].unit.unwrap();
            templates::is_copy(r.0@, src, taken_of(all, src.body is Mount))
        }),
        r.1@ == "New from existing"@,
{
    let ghost all = systemd::entry_views(entries@);
    let ghost at = copyable_of(all, all.len() as int);
    let owned = copyable(entries);
    let k: usize = owned[i];
    proof {
        lemma_copyable(all, all.len() as int);
        assert(at[i as int] == k);
        assert(all[k as int] == entries@[k as int]@);
    }
    let src = entries[k].unit.as_ref().unwrap();
    (copy_of(src, entries), "New from existing".to_owned())
}

// ---------------------------------------------------------------------------
// Acting on the selected unit
// ---------------------------------------------------------------------------

/// What an action on the selected unit comes to.
#[derive(Debug)]
pub enum Deed {
    /// Nothing is selected.
    Nothing,
    /// This goes to the status line.
    Say(String),
    /// This is shown under this title.
    Show(String, String),
    /// The builder is opened on this unit under this title.
    Build(Unit, String),
    /// systemctl is called in this scope with these arguments.
    Call(Scope, Vec<String>),
    /// These files of this scope are removed if this question is answered
    /// yes; the name is what is said to be removed.
    Remove(Scope, Vec<String>, String, String),
}

impl App {
    /// `y` on the list: a copy of the selected unit in the builder. Units
    /// that are not notcron's are never copied.
    pub fn duplicate(&self) -> (r: Deed)
        requires
            self.entries@.len() < usize::MAX,
        ensures
            match self@.selected_of() {
                None => r is Nothing,
                Some(e) => if !e.owned {
                    r matches Deed::Say(m) && m@ == e.primary
                        + " was not created by notcron and cannot be copied"@
                } else {
                    match e.unit {
                        None => r matches Deed::Say(m) && m@ == e.primary
                            + " could not be parsed into the builder's model"@,
                        Some(src) => r matches Deed::Build(u, t) && t@
                            == "Copy of an existing unit"@ && templates::is_copy(
                            u@,
                            src,
                            taken_of(self@.entries, src.body is Mount),
                        ),
                    }
                },
            },
    {
        match self.selected() {
            None => Deed::Nothing,
            Some(e) => {
                if !e.owned {
                    return Deed::Say(
                        text::cat2(
                            e.primary.as_str(),
                            " was not created by notcron and cannot be copied",
                        ),
                    );
                }
                match &e.unit {
                    None => Deed::Say(
                        text::cat2(
                            e.primary.as_str(),
                            " could not be parsed into the builder's model",
                        ),
                    ),
                    Some(src) => Deed::Build(
                        copy_of(src, &self.entries),
                        "Copy of an existing unit".to_owned(),
                    ),
                }
            },
        }
    }

    /// Enter on the list: the selected unit in the builder. Units that are
    /// not notcron's are never edited.
    pub fn edit(&self) -> (r: Deed)
        ensures
            match self@.selected_of() {
                None => r is Nothing,
                Some(e) => if !e.owned {
                    r matches Deed::Show(t, m) && t@ == "Read-only"@ && m@ == e.primary
                        + " was not created by notcron.\n\nOnly units carrying notcron's marker comment can be edited or removed. Press v to view it."@
                } else {
                    match e.unit {
                        None => r matches Deed::Show(t, m) && t@ == "Cannot edit"@ && m@
                            == e.primary + " could not be parsed into the builder's model."@,
                        Some(src) => r matches Deed::Build(u, t) && u@ == src && t@ == "Edit "@
                            + e.primary,
                    }
                },
            },
    {
        match self.selected() {
            None => Deed::Nothing,
            Some(e) => {
                if !e.owned {
                    return Deed::Show(
                        "Read-only".to_owned(),
                        text::cat2(
                            e.primary.as_str(),
                            " was not created by notcron.\n\nOnly units carrying notcron's marker comment can be edited or removed. Press v to view it.",
                        ),
                    );
                }
                match &e.unit {
                    None => Deed::Show(
                        "Cannot edit".to_owned(),
                        text::cat2(
                            e.primary.as_str(),
                            " could not be parsed into the builder's model.",
                        ),
                    ),
                    Some(u) => Deed::Build(u.clone(), text::cat2("Edit ", e.primary.as_str())),
                }
            },
        }
    }

    /// A systemctl verb on the selected unit, where notcron manages it.
    pub fn lifecycle(&self, verb: &str) -> (r: Deed)
        ensures
            match self@.selected_of() {
                None => r is Nothing,
                Some(e) => if !e.owned {
                    r matches Deed::Say(m) && m@ == e.primary + " is not managed by notcron"@
                } else {
                    r matches Deed::Call(s, args) && s == e.scope && text::texts(args@) == seq![
                        verb@,
                        e.primary,
                    ]
                },
            },
    {
        match self.selected() {
            None => Deed::Nothing,
            Some(e) => {
                if !e.owned {
                    Deed::Say(text::cat2(e.primary.as_str(), " is not managed by notcron"))
                } else {
                    let args: Vec<String> = vec![verb.to_owned(), e.primary.clone()];
                    assert(text::texts(args@) =~= seq![verb@, e@.primary]);
                    Deed::Call(e.scope, args)
                }
            },
        }
    }

    /// `x` on the list: removal is asked about, with every file named. Units
    /// that are not notcron's are never removed.
    pub fn remove(&self) -> (r: Deed)
        ensures
            match self@.selected_of() {
                None => r is Nothing,
                Some(e) => if !e.owned {
                    r matches Deed::Show(t, m) && t@ == "Read-only"@ && m@ == e.primary
                        + " was not created by notcron and will not be removed."@
                } else {
                    r matches Deed::Remove(s, files, question, name) && s == e.scope
                        && text::texts(files@) == e.files && name@ == e.primary && question@
                        == "Stop, disable and delete "@ + e.primary + "?\n\nFiles:\n  "@
                        + parts::join_of(e.files, "\n  "@)
                },
            },
    {
        match self.selected() {
            None => Deed::Nothing,
            Some(e) => {
                if !e.owned {
                    return Deed::Show(
                        "Read-only".to_owned(),
                        text::cat2(
                            e.primary.as_str(),
                            " was not created by notcron and will not be removed.",
                        ),
                    );
                }
                let list = parts::join(&e.files, "\n  ");
                let head = text::cat3(
                    "Stop, disable and delete ",
                    e.primary.as_str(),
                    "?\n\nFiles:\n  ",
                );
                Deed::Remove(
                    e.scope,
                    text::clone_strings(&e.files),
                    text::cat2(head.as_str(), list.as_str()),
                    e.primary.clone(),
                )
            },
        }
    }
}

/// What is said of a systemctl verb that went well.
pub fn verb_status(verb: &str, name: &str) -> (r: String)
    ensures
        r@ == verb@ + " "@ + name@ + ": ok"@,
{
    let head = text::cat3(verb, " ", name);
    text::cat2(head.as_str(), ": ok")
}

/// Whether the files of a unit that was edited are left behind: a rename or a
/// change of scope gives it other ones.
pub fn leaves_files(old_scope: Scope, old_files: &[String], now: &Unit) -> (r: bool)
    ensures
        r == (old_scope != now@.scope || text::texts(old_files@) != (match now@.filenames_of() {
            Ok(v) => v,
            Err(_) => seq![],
        })),
{
    if old_scope != now.scope {
        return true;
    }
    let files = match now.filenames() {
        Ok(v) => v,
        Err(_) => {
            let none: Vec<String> = Vec::new();
            assert(text::texts(none@) =~= seq![]);
            none
        },
    };
    let ghost a = text::texts(old_files@);
    let ghost b = text::texts(files@);
    if files.len() != old_files.len() {
        assert(a.len() != b.len());
        return true;
    }
    let mut i: usize = 0;
    while i < files.len()
        invariant
            i <= files@.len() == old_files@.len(),
            a == text::texts(old_files@),
            b == text::texts(files@),
            b == (match now@.filenames_of() {
                Ok(v) => v,
                Err(_) => seq![],
            }),
            forall|k: int| 0 <= k < i ==> #[trigger] a[k] == b[k],
        decreases files@.len() - i,
    {
        if !text::same(files[i].as_str(), old_files[i].as_str()) {
            assert(a[i as int] != b[i as int]);
            return true;
        }
        i += 1;
    }
    assert(a =~= b);
    false
}

/// The unit whose journal is worth reading for an entry.
pub fn log_unit(e: &Entry) -> (r: String)
    ensures
        r@ == (match e@.unit {
            Some(u) => match u.log_unit_of() {
                Ok(n) => n,
                Err(_) => e@.primary,
            },
            None => e@.primary,
        }),
{
    match &e.unit {
        Some(u) => match u.log_unit() {
            Ok(n) => n,
            Err(_) => e.primary.clone(),
        },
        None => e.primary.clone(),
    }
}

/// The status of a unit's files, one after the other.
pub open spec fn statuses_of(printed: Seq<Seq<char>>) -> Seq<char>
    decreases printed.len(),
{
    if printed.len() == 0 {
        seq![]
    } else {
        statuses_of(printed.drop_last()) + printed.last() + "\n\n"@
    }
}

/// The status of a unit's files, one after the other.
pub fn status_text(printed: &[String]) -> (r: String)
    ensures
        r@ == text::trim_end_of(statuses_of(text::texts(printed@))),
{
    let ghost all = text::texts(printed@);
    let mut out = String::new();
    let mut i: usize = 0;
    assert(all.take(0) =~= seq![]);
    assert(out@ =~= seq![]);
    while i < printed.len()
        invariant
            i <= printed@.len(),
            all == text::texts(printed@),
            out@ == statuses_of(all.take(i as int)),
        decreases printed@.len() - i,
    {
        assert(all.take(i + 1).drop_last() =~= all.take(i as int));
        assert(all.take(i + 1).last() == printed@[i as int]@);
        out.push_str(printed[i].as_str());
        out.push_str("\n\n");
        i += 1;
    }
    assert(all.take(printed@.len() as int) =~= all);
    text::trim_end(out.as_str()).to_owned()
}

/// A file that was read, or the reason why it could not be.
#[derive(Debug)]
pub struct ReadFile {
    pub name: String,
    pub body: Result<String, String>,
}

/// The contents of a [`ReadFile`].
#[verifier::ext_equal]
pub struct ReadView {
    pub name: Seq<char>,
    pub body: Result<Seq<char>, Seq<char>>,
}

impl View for ReadFile {
    type V = ReadView;

    open spec fn view(&self) -> ReadView {
        ReadView {
            name: self.name@,
            body: match self.body {
                Ok(s) => Ok(s@),
                Err(e) => Err(e@),
            },
        }
    }
}

/// The contents of files that were read.
pub open spec fn read_views(v: Seq<ReadFile>) -> Seq<ReadView> {
    Seq::new(v.len(), |i: int| v[i]@)
}

/// Files one after the other, each under its path.
pub open spec fn viewed_of(dir: Seq<char>, files: Seq<ReadView>) -> Seq<char>
    decreases files.len(),
{
    if files.len() == 0 {
        seq![]
    } else {
        viewed_of(dir, files.drop_last()) + "# "@ + paths::join_of(dir, files.last().name) + "\n"@ + (
        match files.last().body {
            Ok(s) => s,
            Err(e) => "(cannot read: "@ + e + ")\n"@,
        }) + "\n"@
    }
}

/// Files one after the other, each under its path.
pub fn view_text(dir: &str, files: &[ReadFile]) -> (r: String)
    ensures
        r@ == text::trim_end_of(viewed_of(dir@, read_views(files@))),
{
    let ghost all = read_views(files@);
    let mut out = String::new();
    let mut i: usize = 0;
    assert(all.take(0) =~= seq![]);
    assert(out@ =~= seq![]);
    while i < files.len()
        invariant
            i <= files@.len(),
            all == read_views(files@),
            out@ == viewed_of(dir@, all.take(i as int)),
        decreases files@.len() - i,
    {
        assert(all.take(i + 1).drop_last() =~= all.take(i as int));
        assert(all.take(i + 1).last() == files@[i as int]@);
        let path = paths::join(dir, files[i].name.as_str());
        out.push_str("# ");
        out.push_str(path.as_str());
        out.push_str("\n");
        match &files[i].body {
            Ok(s) => {
                out.push_str(s.as_str());
            },
            Err(e) => {
                let note = text::cat3("(cannot read: ", e.as_str(), ")\n");
                out.push_str(note.as_str());
            },
        }
        out.push_str("\n");
        i += 1;
    }
    assert(all.take(files@.len() as int) =~= all);
    text::trim_end(out.as_str()).to_owned()
}

// ---------------------------------------------------------------------------
// What copying promises
// ---------------------------------------------------------------------------

proof fn lemma_taken(entries: Seq<EntryView>, mount: bool, i: int)
    requires
        0 <= i < entries.len(),
        taken_by(entries[i], mount) is Some,
    ensures
        taken_of(entries, mount).contains(taken_by(entries[i], mount)->0),
    decreases entries.len(),
{
    let n = taken_by(entries[i], mount)->0;
    let all = taken_of(entries, mount);
    let less = taken_of(entries.drop_last(), mount);
    if i < entries.len() - 1 {
        assert(entries.drop_last()[i] == entries[i]);
        lemma_taken(entries.drop_last(), mount, i);
        let k = choose|k: int| 0 <= k < less.len() && less[k] == n;
        assert(all[k] == n);
    } else {
        assert(all[less.len() as int] == n);
    }
}

/// A copy of a timer or a service has a name that no listed unit has, and its
/// schedule and command are those of the unit that it was made from.
pub proof fn law_copies_have_their_own_name(
    c: UnitView,
    src: UnitView,
    entries: Seq<EntryView>,
    i: int,
)
    requires
        !(src.body is Mount),
        templates::is_copy(c, src, taken_of(entries, src.body is Mount)),
    ensures
        c.body == src.body,
        c.scope == src.scope,
        0 <= i < entries.len() && entries[i].unit is Some && !(entries[i].unit->0.body is Mount)
            ==> c.name != model::unprefixed_of(entries[i].unit->0.name),
{
    if 0 <= i < entries.len() && entries[i].unit is Some && !(entries[i].unit->0.body is Mount) {
        let taken = taken_of(entries, false);
        let n = entries[i].unit->0.name;
        assert(taken_by(entries[i], false) == Some(n));
        lemma_taken(entries, false, i);
        let k = choose|k: int| 0 <= k < taken.len() && taken[k] == n;
        assert(templates::bare_names(taken)[k] == model::unprefixed_of(n));
    }
}

/// A copy of a mount has a mount point that no listed mount has, and all else
/// of the mount that it was made from.
pub proof fn law_copies_have_their_own_place(
    c: UnitView,
    src: UnitView,
    entries: Seq<EntryView>,
    i: int,
)
    requires
        src.body matches BodyView::Mount(m) && m.where_.len() > 0 && m.where_[0] == '/'
            && text::strip_end_of(m.where_, '/').len() > 0,
        templates::is_copy(c, src, taken_of(entries, src.body is Mount)),
    ensures
        c.body matches BodyView::Mount(n) && src.body matches BodyView::Mount(m) && n.what == m.what
            && n.fstype == m.fstype && n.options == m.options && n.automount == m.automount && (0
            <= i < entries.len() && entries[i].unit is Some && (
        entries[i].unit->0.body matches BodyView::Mount(o)) ==> n.where_ != (
        entries[i].unit->0.body->Mount_0).where_),
{
    let m = src.body->Mount_0;
    let n = c.body->Mount_0;
    let t = text::strip_end_of(m.where_, '/');
    lemma_stripped(m.where_, '/');
    text::lemma_last_index(t, '/');
    assert(t.contains(t[0]));
    let k = text::last_index(t, '/');
    assert(parts::rsplit_once_of(t, '/') is Some);
    let (a, last) = parts::rsplit_once_of(t, '/')->0;
    assert(last.len() > 0) by {
        if k == t.len() - 1 {
            assert(t[k] == '/');
            assert(t.last() == '/');
        }
    }
    if 0 <= i < entries.len() && entries[i].unit is Some && (
    entries[i].unit->0.body matches BodyView::Mount(o)) {
        let taken = taken_of(entries, true);
        let o = entries[i].unit->0.body->Mount_0;
        assert(taken_by(entries[i], true) == Some(o.where_));
        lemma_taken(entries, true, i);
    }
}

proof fn lemma_stripped(s: Seq<char>, c: char)
    ensures
        ({
            let t = text::strip_end_of(s, c);
            t.len() <= s.len() && t == s.take(t.len() as int) && (t.len() > 0 ==> t.last() != c)
        }),
    decreases s.len(),
{
    let t = text::strip_end_of(s, c);
    if s.len() > 0 && s.last() == c {
        lemma_stripped(s.drop_last(), c);
        assert(t =~= s.take(t.len() as int));
    } else {
        assert(t =~= s.take(t.len() as int));
    }
}

/// The units that can be copied are those that notcron made and can read, in
/// the order of the list.
pub proof fn law_own_units_can_be_copied(entries: Seq<EntryView>, n: int, i: int)
    requires
        0 <= n <= entries.len(),
    ensures
        ({
            let at = copyable_of(entries, n);
            &&& at.contains(i) == (0 <= i < n && entries[i].owned && entries[i].unit is Some)
            &&& forall|a: int, b: int| 0 <= a < b < at.len() ==> #[trigger] at[a] < #[trigger] at[b]
            &&& forall|a: int| 0 <= a < at.len() ==> 0 <= #[trigger] at[a] < n
        }),
    decreases n,
{
    let at = copyable_of(entries, n);
    if n > 0 {
        law_own_units_can_be_copied(entries, n - 1, i);
        let less = copyable_of(entries, n - 1);
        if entries[n - 1].owned && entries[n - 1].unit is Some {
            assert(at == less.push(n - 1));
            assert(at[less.len() as int] == n - 1);
            if less.contains(i) {
                let k = choose|k: int| 0 <= k < less.len() && less[k] == i;
                assert(at[k] == i);
            }
            if at.contains(i) {
                let k = choose|k: int| 0 <= k < at.len() && at[k] == i;
                if k < less.len() {
                    assert(less[k] == i);
                }
            }
        }
    }
}

} // verus!
