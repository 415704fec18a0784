//! The inline journal pane: the last few lines for the selected unit, and an
//! optional live follow.

use crate::parts;
use crate::systemd;
use crate::text;
use crate::ui::term::Rect;
use crate::unit::escape;
use crate::unit::model::Scope;
use vstd::prelude::*;

verus! {

broadcast use vstd::string::group_string_axioms;

/// How many journal lines the pane holds.
pub const TAIL_LINES: usize = 10;

/// Rows the pane occupies when there is room: [`TAIL_LINES`] plus a border.
pub const PANE_HEIGHT: u16 = 12;

/// The list needs at least this many rows before the pane may take any.
pub const LIST_MIN: u16 = 3;

/// Rows the footer wants.
pub const FOOTER_HEIGHT: u16 = 4;

/// The main screen's vertical split.
#[derive(Debug, Clone, Copy, PartialEq, Eq, Structural)]
pub struct Panes {
    pub header: Rect,
    pub list: Rect,
    /// `None` when the pane is off, or when the terminal is too short for it.
    pub tail: Option<Rect>,
    pub footer: Rect,
}

/// The rows of the footer, where `left` are left below the header.
pub open spec fn footer_rows(left: int) -> int {
    if left >= LIST_MIN + FOOTER_HEIGHT {
        FOOTER_HEIGHT as int
    } else {
        0
    }
}

/// The rows of the journal pane, where it shares `body` with the list.
pub open spec fn tail_rows(tail: bool, body: int) -> int {
    if tail && body >= LIST_MIN + 3 {
        if body - LIST_MIN < PANE_HEIGHT {
            body - LIST_MIN
        } else {
            PANE_HEIGHT as int
        }
    } else {
        0
    }
}

/// A band of the area: `height` rows from `y` on.
pub open spec fn band(area: Rect, y: int, height: int) -> Rect {
    Rect { x: area.x, y: y as u16, width: area.width, height: height as u16 }
}

/// The split of the frame.
pub open spec fn split_of(area: Rect, tail: bool) -> Panes {
    let head = if area.height > 0 {
        1int
    } else {
        0
    };
    let left = area.height - head;
    let foot = footer_rows(left);
    let body = left - foot;
    let pane = tail_rows(tail, body);
    let y = area.y as int;
    Panes {
        header: band(area, y, head),
        list: band(area, y + head, body - pane),
        tail: if pane > 0 {
            Some(band(area, y + head + body - pane, pane))
        } else {
            None
        },
        footer: band(area, y + head + body, foot),
    }
}

/// Split the frame into header, list, optional journal pane and footer.
///
/// Everything gives way to the list: on a short terminal the pane is dropped
/// first and then the footer, rather than squeezing the units out of view.
pub fn split(area: Rect, tail: bool) -> (r: Panes)
    requires
        area.fits(),
    ensures
        r == split_of(area, tail),
{
    let head: u16 = if area.height > 0 {
        1
    } else {
        0
    };
    let left: u16 = area.height - head;
    // Reserve the footer up front so the pane cannot eat it.
    let foot: u16 = if left >= LIST_MIN + FOOTER_HEIGHT {
        FOOTER_HEIGHT
    } else {
        0
    };
    let body: u16 = left - foot;
    let pane: u16 = if tail && body >= LIST_MIN + 3 {
        if body - LIST_MIN < PANE_HEIGHT {
            body - LIST_MIN
        } else {
            PANE_HEIGHT
        }
    } else {
        0
    };
    let y: u16 = area.y;
    Panes {
        header: Rect { x: area.x, y, width: area.width, height: head },
        list: Rect { x: area.x, y: y + head, width: area.width, height: body - pane },
        tail: if pane > 0 {
            Some(Rect { x: area.x, y: y + head + (body - pane), width: area.width, height: pane })
        } else {
            None
        },
        footer: Rect { x: area.x, y: y + head + body, width: area.width, height: foot },
    }
}

/// The parts of the split lie in the frame, back to back from its top to its
/// bottom, and leave no row out.
pub proof fn law_split_covers(area: Rect, tail: bool)
    requires
        area.fits(),
    ensures
        ({
            let p = split_of(area, tail);
            let pane = match p.tail {
                Some(t) => t.height as int,
                None => 0,
            };
            &&& p.header.is_inside(area) && p.list.is_inside(area) && p.footer.is_inside(area)
            &&& (p.tail matches Some(t) ==> t.is_inside(area) && t.y == p.list.y + p.list.height)
            &&& p.header.y == area.y
            &&& p.list.y == p.header.y + p.header.height
            &&& p.footer.y == p.list.y + p.list.height + pane
            &&& p.header.height + p.list.height + pane + p.footer.height == area.height
        }),
{
}

/// The list is the last to lose space: wherever the pane or the footer shows,
/// the list has its least rows.
pub proof fn law_list_comes_first(area: Rect, tail: bool)
    requires
        area.fits(),
    ensures
        ({
            let p = split_of(area, tail);
            p.tail is Some || p.footer.height > 0 ==> p.list.height >= LIST_MIN
        }),
{
}

/// Switching the pane off gives its rows back to the list, and moves neither
/// the header nor the footer.
pub proof fn law_pane_off_returns_rows(area: Rect)
    requires
        area.fits(),
    ensures
        ({
            let on = split_of(area, true);
            let off = split_of(area, false);
            let pane = match on.tail {
                Some(t) => t.height as int,
                None => 0,
            };
            &&& off.tail is None
            &&& off.list.height == on.list.height + pane
            &&& off.header == on.header && off.footer == on.footer
        }),
{
}

// ---------------------------------------------------------------------------
// Following
// ---------------------------------------------------------------------------

/// Build the `journalctl` invocation for a scope. `follow` adds `-f`.
///
/// The user journal needs `--user`; the system journal is journalctl's
/// default and has no flag of its own.
pub fn journal_command(scope: Scope, root: bool, unit: &str, lines: usize, follow: bool) -> (r: Vec<
    String,
>)
    ensures
        text::texts(r@) == systemd::elevated("journalctl"@, scope == Scope::System && !root)
            + systemd::journal_args_of(scope, unit@, lines as nat) + (if follow {
            seq!["-f"@]
        } else {
            seq![]
        }),
{
    let mut out = systemd::journal_command(scope, root, unit, lines);
    let ghost before = text::texts(out@);
    if follow {
        out.push("-f".to_owned());
        assert(text::texts(out@) =~= before + seq!["-f"@]);
    } else {
        assert(before + seq![] =~= before);
    }
    out
}

/// The last `keep` lines of what has arrived.
pub open spec fn last_lines(all: Seq<Seq<char>>, keep: int) -> Seq<Seq<char>> {
    if all.len() > keep {
        all.skip(all.len() - keep)
    } else {
        all
    }
}

/// Takes one more line of a followed journal, and lets go of the oldest ones
/// beyond `keep`.
pub fn arrived(buf: &mut Vec<String>, line: String, keep: usize)
    ensures
        text::texts(final(buf)@) == last_lines(text::texts(old(buf)@).push(line@), keep as int),
{
    let ghost all = text::texts(buf@).push(line@);
    buf.push(line);
    assert(text::texts(buf@) =~= all);
    assert(all.skip(0) =~= all);
    while buf.len() > keep
        invariant
            buf@.len() <= all.len(),
            buf@.len() >= keep || buf@.len() == all.len(),
            text::texts(buf@) == all.skip(all.len() - buf@.len()),
        decreases buf@.len(),
    {
        let ghost before = text::texts(buf@);
        buf.remove(0);
        assert(text::texts(buf@) =~= before.skip(1));
        assert(before.skip(1) =~= all.skip(all.len() - buf@.len()));
    }
}

/// The pane's state: which unit is being shown, the lines to show, and
/// whether its journal is followed.
#[derive(Debug)]
pub struct Tail {
    /// The unit the current contents belong to, so a selection change is
    /// noticed without re-reading the journal on every frame.
    pub unit: String,
    pub scope: Option<Scope>,
    pub lines: Vec<String>,
    /// Whether a reader follows the journal.
    pub reader: bool,
    /// A message shown instead of the lines: no unit selected, follow failed.
    pub note: String,
}

/// The contents of a [`Tail`].
#[verifier::ext_equal]
pub struct TailView {
    pub unit: Seq<char>,
    pub scope: Option<Scope>,
    pub lines: Seq<Seq<char>>,
    pub reader: bool,
    pub note: Seq<char>,
}

impl View for Tail {
    type V = TailView;

    open spec fn view(&self) -> TailView {
        TailView {
            unit: self.unit@,
            scope: self.scope,
            lines: text::texts(self.lines@),
            reader: self.reader,
            note: self.note@,
        }
    }
}

impl Default for Tail {
    fn default() -> (r: Tail)
        ensures
            r@ == (TailView {
                unit: seq![],
                scope: None,
                lines: seq![],
                reader: false,
                note: seq![],
            }),
    {
        let r = Tail {
            unit: String::new(),
            scope: None,
            lines: Vec::new(),
            reader: false,
            note: String::new(),
        };
        assert(r@.unit =~= seq![]);
        assert(r@.note =~= seq![]);
        assert(r@.lines =~= seq![]);
        r
    }
}

/// The pane pointed at a unit. A follow belongs to the unit it was started
/// on: moving the selection ends it, and says so.
pub open spec fn shown_of(t: TailView, scope: Scope, unit: Seq<char>, journal: Seq<char>) -> TailView {
    if t.unit == unit && t.scope == Some(scope) {
        t
    } else {
        TailView {
            unit,
            scope: Some(scope),
            lines: parts::lines_of(journal),
            reader: false,
            note: if t.reader {
                "follow stopped: the selection moved -- press f to follow this one"@
            } else {
                seq![]
            },
        }
    }
}

/// The pane after an attempt to follow.
pub open spec fn followed_of(t: TailView, started: Result<(), Seq<char>>) -> TailView {
    if t.scope is None || t.unit.len() == 0 {
        TailView { note: "nothing selected to follow"@, ..t }
    } else {
        match started {
            Ok(_) => TailView { reader: true, note: seq![], ..t },
            Err(e) => TailView { reader: false, note: e, ..t },
        }
    }
}

/// The pane with what the reader has read, and whether it has ended.
pub open spec fn polled_of(t: TailView, read: Seq<Seq<char>>, finished: bool) -> TailView {
    if !t.reader {
        t
    } else {
        let lines = if read.len() > 0 {
            read
        } else {
            t.lines
        };
        if finished {
            TailView {
                lines,
                reader: false,
                note: "the journal reader exited -- press f to retry"@,
                ..t
            }
        } else {
            TailView { lines, ..t }
        }
    }
}

impl Tail {
    pub fn following(&self) -> (r: bool)
        ensures
            r == self@.reader,
    {
        self.reader
    }

    /// Stop following. Idempotent.
    pub fn unfollow(&mut self)
        ensures
            final(self)@ == (TailView { reader: false, ..old(self)@ }),
    {
        self.reader = false;
    }

    /// Whether the pane shows this unit already.
    pub fn is_at(&self, scope: Scope, unit: &str) -> (r: bool)
        ensures
            r == (self@.unit == unit@ && self@.scope == Some(scope)),
    {
        match self.scope {
            Some(s) => s == scope && text::same(self.unit.as_str(), unit),
            None => false,
        }
    }

    /// Point the pane at a unit, with its journal as it stands. The pane that
    /// shows the unit already is left alone, and then `journal` is not looked
    /// at.
    pub fn show(&mut self, scope: Scope, unit: &str, journal: &str)
        ensures
            final(self)@ == shown_of(old(self)@, scope, unit@, journal@),
    {
        if self.is_at(scope, unit) {
            return;
        }
        let was_following = self.following();
        self.unfollow();
        self.unit = unit.to_owned();
        self.scope = Some(scope);
        self.note = if was_following {
            "follow stopped: the selection moved -- press f to follow this one".to_owned()
        } else {
            let none = String::new();
            assert(none@ =~= seq![]);
            none
        };
        self.lines = parts::lines(journal);
    }

    /// What a reader would follow: nothing where nothing is selected.
    pub fn follow_target(&self) -> (r: Option<(Scope, String)>)
        ensures
            match r {
                Some((s, u)) => self@.scope == Some(s) && u@ == self@.unit && self@.unit.len() > 0,
                None => self@.scope is None || self@.unit.len() == 0,
            },
    {
        match self.scope {
            Some(s) => if self.unit.as_str().unicode_len() > 0 {
                Some((s, self.unit.clone()))
            } else {
                None
            },
            None => None,
        }
    }

    /// Start following whatever the pane is pointed at: `started` says
    /// whether a reader could be started.
    pub fn follow(&mut self, started: &Result<(), String>)
        ensures
            final(self)@ == followed_of(
                old(self)@,
                match *started {
                    Ok(_) => Ok(()),
                    Err(e) => Err(e@),
                },
            ),
    {
        match self.follow_target() {
            None => {
                self.note = "nothing selected to follow".to_owned();
            },
            Some(_) => match started {
                Ok(_) => {
                    self.reader = true;
                    self.note = String::new();
                    assert(self@.note =~= seq![]);
                },
                Err(e) => {
                    self.note = e.clone();
                    self.reader = false;
                },
            },
        }
    }

    /// Take what the reader has read, and whether it has ended.
    pub fn poll(&mut self, read: &Vec<String>, finished: bool)
        ensures
            final(self)@ == polled_of(old(self)@, text::texts(read@), finished),
    {
        if !self.reader {
            return;
        }
        if read.len() > 0 {
            self.lines = text::clone_strings(read);
        }
        if finished {
            self.note = "the journal reader exited -- press f to retry".to_owned();
            self.reader = false;
        }
    }

    /// The pane's title, which is where the follow state is visible.
    pub fn title(&self) -> (r: String)
        ensures
            r@ == " journal: "@ + (if self@.unit.len() == 0 {
                "(nothing selected)"@
            } else {
                self@.unit
            }) + (if self@.reader {
                " -- FOLLOWING (f stops) "@
            } else {
                " -- f follows, t closes "@
            }),
    {
        let unit = if self.unit.as_str().unicode_len() == 0 {
            "(nothing selected)"
        } else {
            self.unit.as_str()
        };
        let tail = if self.reader {
            " -- FOLLOWING (f stops) "
        } else {
            " -- f follows, t closes "
        };
        text::cat3(" journal: ", unit, tail)
    }

    /// The body, clipped to the pane.
    pub fn body(&self, width: usize, height: usize) -> (r: Vec<String>)
        ensures
            text::texts(r@) == body_of(self@.lines, self@.note, width as int, height as int),
    {
        body(&self.lines, self.note.as_str(), width, height)
    }
}

/// The pane's visible text.
pub open spec fn body_of(lines: Seq<Seq<char>>, note: Seq<char>, width: int, height: int) -> Seq<
    Seq<char>,
> {
    if note.len() > 0 {
        seq![escape::clip_of(note, width)]
    } else if lines.len() == 0 {
        seq![escape::clip_of("(no journal entries)"@, width)]
    } else {
        let shown = last_lines(
            lines,
            if height > 1 {
                height
            } else {
                1
            },
        );
        Seq::new(shown.len(), |i: int| escape::clip_of(shown[i], width))
    }
}

/// The pane's visible text. The *last* lines are the ones worth seeing, so an
/// overlong tail drops its head; a note replaces the lines entirely.
pub fn body(lines: &[String], note: &str, width: usize, height: usize) -> (r: Vec<String>)
    ensures
        text::texts(r@) == body_of(text::texts(lines@), note@, width as int, height as int),
{
    let ghost want = body_of(text::texts(lines@), note@, width as int, height as int);
    let mut out: Vec<String> = Vec::new();
    if note.unicode_len() > 0 {
        out.push(escape::clip(note, width));
        assert(text::texts(out@) =~= want);
        return out;
    }
    if lines.len() == 0 {
        out.push(escape::clip("(no journal entries)", width));
        assert(text::texts(out@) =~= want);
        return out;
    }
    let rows: usize = if height > 1 {
        height
    } else {
        1
    };
    let n: usize = lines.len();
    let from: usize = if n > rows {
        n - rows
    } else {
        0
    };
    let mut i: usize = from;
    while i < n
        invariant
            from <= i <= n == lines@.len(),
            out@.len() == i - from,
            forall|j: int|
                0 <= j < i - from ==> (#[trigger] out@[j])@ == escape::clip_of(
                    lines@[from + j]@,
                    width as int,
                ),
        decreases n - i,
    {
        out.push(escape::clip(lines[i].as_str(), width));
        i += 1;
    }
    assert(text::texts(out@) =~= want);
    out
}

/// No line of the pane is wider than the pane.
pub proof fn law_body_fits(
    lines: Seq<Seq<char>>,
    note: Seq<char>,
    width: nat,
    height: int,
    i: int,
)
    requires
        0 <= i < body_of(lines, note, width as int, height).len(),
    ensures
        body_of(lines, note, width as int, height)[i].len() <= width,
{
}

/// Pointing the pane elsewhere always ends a follow, so that none goes on for
/// a unit that is no longer shown.
pub proof fn law_moving_ends_the_follow(
    t: TailView,
    scope: Scope,
    unit: Seq<char>,
    journal: Seq<char>,
)
    requires
        !(t.unit == unit && t.scope == Some(scope)),
    ensures
        !shown_of(t, scope, unit, journal).reader,
        t.reader ==> shown_of(t, scope, unit, journal).note.len() > 0,
{
    reveal_strlit("follow stopped: the selection moved -- press f to follow this one");
}

/// The lines that are kept are the newest, in their order, and no more than
/// there is room for.
pub proof fn law_the_newest_lines_are_kept(all: Seq<Seq<char>>, line: Seq<char>, keep: int)
    requires
        keep > 0,
    ensures
        last_lines(all.push(line), keep).len() <= keep,
        last_lines(all.push(line), keep).is_suffix_of(all.push(line)),
        last_lines(all.push(line), keep).last() == line,
        all.len() < keep ==> last_lines(all.push(line), keep) == all.push(line),
{
    let l = last_lines(all.push(line), keep);
    let n = all.push(line).len();
    assert(l =~= all.push(line).subrange(n - l.len(), n as int));
}

/// Following shows what is read, until the reader ends; then it says so and
/// keeps what was shown.
pub proof fn law_following_shows_what_is_read(t: TailView, read: Seq<Seq<char>>)
    requires
        t.scope is Some,
        t.unit.len() > 0,
    ensures
        ({
            let f = followed_of(t, Ok(()));
            let on = polled_of(f, read, false);
            let off = polled_of(f, read, true);
            &&& f.reader && f.note.len() == 0 && f.lines == t.lines
            &&& on.reader && on.note.len() == 0
            &&& on.lines == if read.len() > 0 {
                read
            } else {
                t.lines
            }
            &&& !off.reader && off.note.len() > 0 && off.lines == on.lines
            &&& on.unit == t.unit && off.unit == t.unit && on.scope == t.scope
        }),
{
    reveal_strlit("the journal reader exited -- press f to retry");
    assert("the journal reader exited -- press f to retry"@.len() == 45);
}

} // verus!
