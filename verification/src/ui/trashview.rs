//! Undo for `x`: what removal put in the trash, and how to get it back.
//!
//! Restoring never clobbers. What is in the way is asked for first, the user
//! is shown exactly which paths would be replaced, and only then are files
//! moved over others. A refused prompt moves nothing.

use crate::number;
use crate::parts;
use crate::text;
use crate::trash;
use crate::trash::{EntryView, RestoreError, RestoreReport, TrashEntry};
use crate::ui::dialogs;
use crate::ui::paint;
use crate::ui::paint::{Color, Line, SpanView, Style};
use crate::ui::steps;
use crate::ui::term;
use crate::ui::term::{Key, KeyCode, Rect};
use crate::unit::escape;
use vstd::prelude::*;

verus! {

broadcast use vstd::string::group_string_axioms;

/// Newest first: the thing just deleted by mistake is the thing wanted back.
pub fn newest_first(entries: &[TrashEntry]) -> (r: Vec<TrashEntry>)
    ensures
        trash::entry_views(r@) == trash::sorted_of(trash::entry_views(entries@), true),
{
    trash::sorted(entries, true)
}

/// A human age: the coarsest unit that still says something useful.
pub open spec fn age_text(secs: nat) -> Seq<char> {
    if secs < 60 {
        number::decimal(secs) + "s ago"@
    } else if secs < 3600 {
        number::decimal(secs / 60) + "m ago"@
    } else if secs < 86400 {
        number::decimal(secs / 3600) + "h ago"@
    } else {
        number::decimal(secs / 86400) + "d ago"@
    }
}

/// A human age: the coarsest unit that still says something useful.
pub fn age(secs: u64) -> (r: String)
    ensures
        r@ == age_text(secs as nat),
{
    if secs < 60 {
        text::cat2(number::to_decimal(secs).as_str(), "s ago")
    } else if secs < 3600 {
        text::cat2(number::to_decimal(secs / 60).as_str(), "m ago")
    } else if secs < 86400 {
        text::cat2(number::to_decimal(secs / 3600).as_str(), "h ago")
    } else {
        text::cat2(number::to_decimal(secs / 86400).as_str(), "d ago")
    }
}

/// The row of an entry: its unit, its age, its files and what it was.
pub open spec fn row_of(e: EntryView, now: u64) -> Seq<char> {
    text::pad_right_of(e.unit, 32) + " "@ + text::pad_left_of(
        age_text(trash::age_of(e, now) as nat),
        10,
    ) + "  "@ + number::decimal(e.files.len()) + (if e.files.len() == 1 {
        " file"@
    } else {
        " files"@
    }) + (if e.was_enabled {
        " enabled"@
    } else {
        ""@
    }) + (if e.was_active {
        " active"@
    } else {
        ""@
    })
}

/// One row of the list, clipped to `width`.
pub fn row(e: &TrashEntry, now: u64, width: usize) -> (r: String)
    ensures
        r@ == escape::clip_of(row_of(e@, now), width as int),
{
    let unit = text::pad_right(e.unit.as_str(), 32);
    let old = age(e.age_secs(now));
    let old = text::pad_left(old.as_str(), 10);
    let count = number::usize_decimal(e.files.len());
    let files = if e.files.len() == 1 {
        " file"
    } else {
        " files"
    };
    let enabled = if e.was_enabled {
        " enabled"
    } else {
        ""
    };
    let active = if e.was_active {
        " active"
    } else {
        ""
    };
    let head = text::cat5(unit.as_str(), " ", old.as_str(), "  ", count.as_str());
    let mut line = text::cat3(head.as_str(), files, enabled);
    line.push_str(active);
    escape::clip(line.as_str(), width)
}

/// The view's rect: a wide popup, sized down rather than clipped so a tiny
/// terminal still renders something in bounds.
pub fn trash_rect(area: Rect) -> (r: Rect)
    requires
        area.fits(),
    ensures
        r == term::popup_of(
            area,
            if area.width > 5 {
                area.width - 4
            } else {
                1
            },
            if area.height > 5 {
                area.height - 4
            } else {
                1
            },
        ),
        r.is_inside(area),
        r.fits(),
{
    let w: u16 = if area.width > 5 {
        area.width - 4
    } else {
        1
    };
    let h: u16 = if area.height > 5 {
        area.height - 4
    } else {
        1
    };
    term::popup_rect(area, w, h)
}

/// The empty-trash message, which is a screen in its own right: an empty list
/// with no explanation reads as a broken feature.
pub const EMPTY: &'static str =
    "Nothing in the trash.\n\nUnits removed with x are stashed here first, so a removal can be\nundone. They are pruned as newer ones arrive.";

/// The title of the list.
pub fn trash_title(count: usize) -> (r: String)
    ensures
        r@ == " Trash ("@ + number::decimal(count as nat)
            + ") -- Enter restores, x discards, q closes "@,
{
    text::cat3(
        " Trash (",
        number::usize_decimal(count).as_str(),
        ") -- Enter restores, x discards, q closes ",
    )
}

/// One line of the list.
pub open spec fn line_of(e: EntryView, now: u64, selected: bool, width: int) -> Seq<SpanView> {
    let room = if width > 2 {
        width - 2
    } else {
        0
    };
    paint::styled_of(
        escape::clip_of(
            (if selected {
                "> "@
            } else {
                "  "@
            }) + escape::clip_of(row_of(e, now), room),
            width,
        ),
        if selected {
            Style { bold: true, reversed: true, ..Style::plain_of() }
        } else {
            Style::plain_of()
        },
    )
}

/// The lines of the list: the entries in view, and the note after a blank
/// line where there is one.
pub open spec fn lines_of(
    entries: Seq<EntryView>,
    sel: int,
    now: u64,
    note: Seq<char>,
    width: int,
    visible: int,
) -> Seq<Seq<SpanView>> {
    let top = dialogs::first_shown(sel, visible);
    let left = entries.len() - top;
    let shown = if left < 0 {
        0
    } else if left < visible {
        left
    } else {
        visible
    };
    Seq::new(
        shown as nat,
        |i: int| line_of(entries[top + i], now, top + i == sel, width),
    ) + (if note.len() == 0 {
        seq![]
    } else {
        seq![
            seq![],
            paint::styled_of(escape::clip_of(note, width), Style::fg_of(Color::Yellow)),
        ]
    })
}

/// The lines of the list.
pub fn lines(
    entries: &[TrashEntry],
    sel: usize,
    now: u64,
    note: &str,
    width: usize,
    visible: usize,
) -> (r: Vec<Line>)
    ensures
        paint::line_views(r@) == lines_of(
            trash::entry_views(entries@),
            sel as int,
            now,
            note@,
            width as int,
            visible as int,
        ),
{
    let ghost all = trash::entry_views(entries@);
    let ghost want = lines_of(all, sel as int, now, note@, width as int, visible as int);
    let top: usize = dialogs::pick_top(sel, visible);
    let room: usize = if width > 2 {
        width - 2
    } else {
        0
    };
    let mut out: Vec<Line> = Vec::new();
    let mut i: usize = 0;
    while i < visible && entries.len() > top && i < entries.len() - top
        invariant
            i <= visible,
            i == 0 || i <= entries@.len() - top,
            top == dialogs::first_shown(sel as int, visible as int),
            all == trash::entry_views(entries@),
            room == (if width > 2 {
                width - 2
            } else {
                0
            }),
            out@.len() == i,
            forall|j: int|
                0 <= j < i ==> (#[trigger] out@[j])@ == line_of(
                    all[top + j],
                    now,
                    top + j == sel,
                    width as int,
                ),
        decreases visible - i,
    {
        let at: usize = top + i;
        let text = row(&entries[at], now, room);
        let mark = if at == sel {
            "> "
        } else {
            "  "
        };
        let text = text::cat2(mark, text.as_str());
        let mut style = Style::plain();
        if at == sel {
            style.bold = true;
            style.reversed = true;
        }
        out.push(paint::styled(escape::clip(text.as_str(), width), style));
        i += 1;
    }
    if note.unicode_len() > 0 {
        out.push(paint::blank());
        out.push(paint::styled(escape::clip(note, width), Style::colored(Color::Yellow)));
    }
    assert(paint::line_views(out@) =~= want);
    out
}

/// What a key of the list asks for.
#[derive(Debug, Clone, Copy, PartialEq, Eq, Structural)]
pub enum Action {
    /// The list goes on, with this entry selected.
    Stay(usize),
    /// The entry, now selected, is to be restored.
    Restore(usize),
    /// The entry is to be deleted for good.
    Discard(usize),
    Close,
}

/// The entry under a click, where there is one: the lines start at
/// `first_row` with the entry that keeps the selection in view.
pub open spec fn clicked_of(y: int, sel: int, len: int, visible: int, first_row: int) -> Option<
    int,
> {
    let i = dialogs::first_shown(sel, visible) + y - first_row;
    if y >= first_row && i < len {
        Some(i)
    } else {
        None
    }
}

/// What a key of the list asks for.
pub open spec fn action_of(
    k: Option<Key>,
    sel: int,
    len: int,
    visible: int,
    first_row: int,
) -> Action {
    match k {
        None => Action::Close,
        Some(k) => match k {
            Key::Resize => Action::Stay(sel as usize),
            Key::Scroll(d) => Action::Stay(steps::step_of(sel, d as int, len) as usize),
            Key::Click(_, y) => match clicked_of(y as int, sel, len, visible, first_row) {
                Some(i) => Action::Stay(i as usize),
                None => Action::Stay(sel as usize),
            },
            Key::DoubleClick(_, y) => match clicked_of(y as int, sel, len, visible, first_row) {
                Some(i) => Action::Restore(i as usize),
                None => Action::Stay(sel as usize),
            },
            Key::Press(KeyCode::Esc, _) => Action::Close,
            Key::Press(KeyCode::Up, _) => Action::Stay(steps::step_of(sel, -1, len) as usize),
            Key::Press(KeyCode::Down, _) => Action::Stay(steps::step_of(sel, 1, len) as usize),
            Key::Press(KeyCode::Home, _) => Action::Stay(0),
            Key::Press(KeyCode::End, _) => Action::Stay((len - 1) as usize),
            Key::Press(KeyCode::Enter, _) => Action::Restore(sel as usize),
            _ => if k.types('q') {
                Action::Close
            } else if k.types('k') {
                Action::Stay(steps::step_of(sel, -1, len) as usize)
            } else if k.types('j') {
                Action::Stay(steps::step_of(sel, 1, len) as usize)
            } else if k.types('r') {
                Action::Restore(sel as usize)
            } else if k.types('x') {
                Action::Discard(sel as usize)
            } else {
                Action::Stay(sel as usize)
            },
        },
    }
}

fn clicked(y: u16, sel: usize, len: usize, visible: usize, first_row: u16) -> (r: Option<usize>)
    requires
        sel < len,
    ensures
        match r {
            Some(i) => clicked_of(y as int, sel as int, len as int, visible as int, first_row as int)
                == Some(i as int) && i < len,
            None => clicked_of(y as int, sel as int, len as int, visible as int, first_row as int)
                is None,
        },
{
    let top: usize = dialogs::pick_top(sel, visible);
    if y < first_row {
        return None;
    }
    let down: usize = (y - first_row) as usize;
    if down < len - top {
        Some(top + down)
    } else {
        None
    }
}

/// Takes one key of a list of `len` entries, the one at `sel` being selected.
pub fn key(k: Option<Key>, sel: usize, len: usize, visible: usize, first_row: u16) -> (r: Action)
    requires
        sel < len,
    ensures
        r == action_of(k, sel as int, len as int, visible as int, first_row as int),
        match r {
            Action::Stay(i) => i < len,
            Action::Restore(i) => i < len,
            Action::Discard(i) => i < len,
            Action::Close => true,
        },
{
    let k = match k {
        None => {
            return Action::Close;
        },
        Some(k) => k,
    };
    match k {
        Key::Resize => Action::Stay(sel),
        Key::Scroll(d) => Action::Stay(steps::step(sel, d as i32, len)),
        Key::Click(_, y) => match clicked(y, sel, len, visible, first_row) {
            Some(i) => Action::Stay(i),
            None => Action::Stay(sel),
        },
        Key::DoubleClick(_, y) => match clicked(y, sel, len, visible, first_row) {
            Some(i) => Action::Restore(i),
            None => Action::Stay(sel),
        },
        Key::Press(KeyCode::Esc, _) => Action::Close,
        Key::Press(KeyCode::Up, _) => Action::Stay(steps::step(sel, -1, len)),
        Key::Press(KeyCode::Down, _) => Action::Stay(steps::step(sel, 1, len)),
        Key::Press(KeyCode::Home, _) => Action::Stay(0),
        Key::Press(KeyCode::End, _) => Action::Stay(len - 1),
        Key::Press(KeyCode::Enter, _) => Action::Restore(sel),
        _ => if k.is_char('q') {
            Action::Close
        } else if k.is_char('k') {
            Action::Stay(steps::step(sel, -1, len))
        } else if k.is_char('j') {
            Action::Stay(steps::step(sel, 1, len))
        } else if k.is_char('r') {
            Action::Restore(sel)
        } else if k.is_char('x') {
            Action::Discard(sel)
        } else {
            Action::Stay(sel)
        },
    }
}

/// The status line that a closed list leaves: one that says nothing is not
/// reported.
pub fn finish(status: String) -> (r: Option<String>)
    ensures
        r == (if status@.len() == 0 {
            None
        } else {
            Some(status)
        }),
{
    if status.as_str().unicode_len() == 0 {
        None
    } else {
        Some(status)
    }
}

/// The consent text for an overwrite: every path the user is about to lose is
/// named in it.
pub open spec fn conflict_text(unit: Seq<char>, paths: Seq<Seq<char>>) -> Seq<char> {
    "Restoring "@ + unit + " would replace "@ + number::decimal(paths.len()) + (if paths.len() == 1 {
        " file that exists again:\n\n  "@
    } else {
        " files that exist again:\n\n  "@
    }) + parts::join_of(paths, "\n  "@) + "\n\nOverwrite them?"@
}

/// The consent text for an overwrite.
pub fn conflict_body(unit: &str, paths: &[String]) -> (r: String)
    ensures
        r@ == conflict_text(unit@, text::texts(paths@)),
{
    let n = number::usize_decimal(paths.len());
    let what = if paths.len() == 1 {
        " file that exists again:\n\n  "
    } else {
        " files that exist again:\n\n  "
    };
    let list = parts::join(paths, "\n  ");
    let head = text::cat5("Restoring ", unit, " would replace ", n.as_str(), what);
    text::cat3(head.as_str(), list.as_str(), "\n\nOverwrite them?")
}

// ---------------------------------------------------------------------------
// Restoring
// ---------------------------------------------------------------------------

/// What restoring an entry does next.
#[derive(Debug)]
pub enum Next {
    /// Ask for consent with this text.
    Ask(String),
    /// Move the files back, over others only where the flag says so.
    Move(bool),
    /// Show this text under this title; nothing more happens.
    Fail(String, String),
    /// Stop with this status.
    Stop(String),
    /// The files are back.
    Done,
}

/// What is said of a restore that was not agreed to.
pub open spec fn cancelled() -> Seq<char> {
    "restore cancelled -- nothing was moved"@
}

/// The first step: what is in the way is asked for before anything is
/// touched.
pub fn restore_start(unit: &str, in_the_way: &Result<Vec<String>, RestoreError>) -> (r: Next)
    ensures
        match *in_the_way {
            Ok(paths) => if paths@.len() == 0 {
                r == Next::Move(false)
            } else {
                r matches Next::Ask(t) && t@ == conflict_text(unit@, text::texts(paths@))
            },
            Err(e) => r matches Next::Fail(t, b) && t@ == "Cannot restore"@ && b@ == e.message(),
        },
{
    match in_the_way {
        Ok(paths) => if paths.len() == 0 {
            Next::Move(false)
        } else {
            Next::Ask(conflict_body(unit, paths))
        },
        Err(e) => Next::Fail("Cannot restore".to_owned(), e.to_string()),
    }
}

/// The step after a question: only a yes moves files over others.
pub fn restore_answered(yes: bool) -> (r: Next)
    ensures
        if yes {
            r == Next::Move(true)
        } else {
            r matches Next::Stop(s) && s@ == cancelled()
        },
{
    if yes {
        Next::Move(true)
    } else {
        Next::Stop("restore cancelled -- nothing was moved".to_owned())
    }
}

/// The step after the files were moved, or were not. A unit that reappeared
/// between the check and the move is asked about again rather than forced,
/// and only once: `again` says that this was the second try.
pub fn restore_moved(unit: &str, again: bool, outcome: &Result<RestoreReport, RestoreError>) -> (r:
    Next)
    ensures
        match *outcome {
            Ok(_) => r is Done,
            Err(e) => if e is Conflict && !again {
                r matches Next::Ask(t) && t@ == conflict_text(
                    unit@,
                    text::texts(e->Conflict_0@),
                )
            } else {
                r matches Next::Fail(t, b) && t@ == "Restore failed"@ && b@ == e.message()
            },
        },
{
    match outcome {
        Ok(_) => Next::Done,
        Err(e) => {
            if !again {
                if let RestoreError::Conflict(paths) = e {
                    return Next::Ask(conflict_body(unit, paths));
                }
            }
            Next::Fail("Restore failed".to_owned(), e.to_string())
        },
    }
}

/// The entries but those with an id.
pub open spec fn without_of(entries: Seq<EntryView>, id: Seq<char>) -> Seq<EntryView>
    decreases entries.len(),
{
    if entries.len() == 0 {
        seq![]
    } else if entries.last().id == id {
        without_of(entries.drop_last(), id)
    } else {
        without_of(entries.drop_last(), id).push(entries.last())
    }
}

/// The entries that are left once one is gone, and the selection among them.
pub fn without(entries: &[TrashEntry], id: &str, sel: usize) -> (r: (Vec<TrashEntry>, usize))
    ensures
        trash::entry_views(r.0@) == without_of(trash::entry_views(entries@), id@),
        r.1 == (if sel < r.0@.len() {
            sel as int
        } else if r.0@.len() == 0 {
            0
        } else {
            r.0@.len() - 1
        }),
{
    let ghost all = trash::entry_views(entries@);
    let mut out: Vec<TrashEntry> = Vec::new();
    let mut i: usize = 0;
    assert(all.take(0) =~= seq![]);
    assert(trash::entry_views(out@) =~= seq![]);
    while i < entries.len()
        invariant
            i <= entries@.len(),
            all == trash::entry_views(entries@),
            trash::entry_views(out@) == without_of(all.take(i as int), id@),
        decreases entries@.len() - i,
    {
        assert(all.take(i + 1).drop_last() =~= all.take(i as int));
        assert(all.take(i + 1).last() == entries@[i as int]@);
        if !text::same(entries[i].id.as_str(), id) {
            let ghost before = trash::entry_views(out@);
            out.push(entries[i].clone());
            assert(trash::entry_views(out@) =~= before.push(entries@[i as int]@));
        }
        i += 1;
    }
    assert(all.take(entries@.len() as int) =~= all);
    let n: usize = out.len();
    let at: usize = if sel < n {
        sel
    } else if n == 0 {
        0
    } else {
        n - 1
    };
    (out, at)
}

/// "enabled", "running" or "enabled and running".
pub open spec fn state_text(enabled: bool, active: bool) -> Seq<char> {
    if enabled && active {
        "enabled and running"@
    } else if enabled {
        "enabled"@
    } else if active {
        "running"@
    } else {
        "neither enabled nor running"@
    }
}

/// "enabled", "running" or "enabled and running".
pub fn describe_state(enabled: bool, active: bool) -> (r: &'static str)
    ensures
        r@ == state_text(enabled, active),
{
    if enabled && active {
        "enabled and running"
    } else if enabled {
        "enabled"
    } else if active {
        "running"
    } else {
        "neither enabled nor running"
    }
}

/// What is said of a restore.
pub open spec fn restored_text(report: RestoreReport) -> Seq<char> {
    "restored "@ + report.unit@ + " ("@ + number::decimal(report.restored@.len()) + (
    if report.restored@.len() == 1 {
        " file)"@
    } else {
        " files)"@
    }) + (if report.overwritten@.len() == 0 {
        ""@
    } else {
        ", "@ + number::decimal(report.overwritten@.len()) + " overwritten"@
    })
}

/// What is said of a restore, with the state that was put back where it was.
pub fn restored_status(report: &RestoreReport, revived: bool) -> (r: String)
    ensures
        r@ == restored_text(*report) + (if revived {
            ", "@ + state_text(report.was_enabled, report.was_active) + " again"@
        } else {
            ""@
        }),
{
    let n = number::usize_decimal(report.restored.len());
    let files = if report.restored.len() == 1 {
        " file)"
    } else {
        " files)"
    };
    let head = text::cat5("restored ", report.unit.as_str(), " (", n.as_str(), files);
    let over = if report.overwritten.len() == 0 {
        "".to_owned()
    } else {
        let m = number::usize_decimal(report.overwritten.len());
        text::cat3(", ", m.as_str(), " overwritten")
    };
    let again = if revived {
        text::cat3(", ", describe_state(report.was_enabled, report.was_active), " again")
    } else {
        "".to_owned()
    };
    text::cat3(head.as_str(), over.as_str(), again.as_str())
}

/// The unit is back on disk but not enabled or running: the question whether
/// to make it what it was, and the call that does; `None` where it was
/// neither.
pub fn revive(report: &RestoreReport) -> (r: Option<(String, Vec<String>)>)
    ensures
        match r {
            None => !report.was_enabled && !report.was_active,
            Some((question, args)) => {
                &&& report.was_enabled || report.was_active
                &&& question@ == report.unit@ + " was "@ + state_text(
                    report.was_enabled,
                    report.was_active,
                ) + " when it was removed.\n\nRestore that too?"@
                &&& text::texts(args@) == (if report.was_enabled && report.was_active {
                    seq!["enable"@, "--now"@]
                } else if report.was_enabled {
                    seq!["enable"@]
                } else {
                    seq!["start"@]
                }).push(report.unit@)
            },
        },
{
    if !report.was_enabled && !report.was_active {
        return None;
    }
    let want = describe_state(report.was_enabled, report.was_active);
    let head = text::cat3(report.unit.as_str(), " was ", want);
    let question = text::cat2(head.as_str(), " when it was removed.\n\nRestore that too?");
    let mut args: Vec<String> = Vec::new();
    if report.was_enabled {
        args.push("enable".to_owned());
        if report.was_active {
            args.push("--now".to_owned());
        }
    } else {
        args.push("start".to_owned());
    }
    args.push(report.unit.clone());
    assert(text::texts(args@) =~= (if report.was_enabled && report.was_active {
        seq!["enable"@, "--now"@]
    } else if report.was_enabled {
        seq!["enable"@]
    } else {
        seq!["start"@]
    }).push(report.unit@));
    Some((question, args))
}

/// The question before an entry is deleted for good.
pub fn discard_body(unit: &str) -> (r: String)
    ensures
        r@ == "Delete the stashed copy of "@ + unit@ + " for good?\n\nThis cannot be undone."@,
{
    text::cat3("Delete the stashed copy of ", unit, " for good?\n\nThis cannot be undone.")
}

/// What is said of an entry deleted for good.
pub fn discarded_status(unit: &str) -> (r: String)
    ensures
        r@ == "discarded "@ + unit@,
{
    text::cat2("discarded ", unit)
}

/// What is joined occurs in the whole.
pub proof fn lemma_join_names(paths: Seq<Seq<char>>, sep: Seq<char>, i: int)
    requires
        0 <= i < paths.len(),
    ensures
        text::occurs(parts::join_of(paths, sep), paths[i]),
    decreases paths.len(),
{
    let all = parts::join_of(paths, sep);
    if paths.len() == 1 {
        assert(text::matches_at(all, paths[i], 0)) by {
            assert(all.subrange(0, paths[i].len() as int) =~= paths[i]);
        }
    } else {
        let front = parts::join_of(paths.drop_last(), sep);
        if i == paths.len() - 1 {
            let at = (front + sep).len() as int;
            assert(all.subrange(at, at + paths[i].len()) =~= paths[i]);
            assert(text::matches_at(all, paths[i], at));
        } else {
            lemma_join_names(paths.drop_last(), sep, i);
            assert(paths.drop_last()[i] == paths[i]);
            let at = choose|at: int| text::matches_at(front, paths[i], at);
            assert(all.subrange(at, at + paths[i].len()) =~= front.subrange(
                at,
                at + paths[i].len(),
            ));
            assert(text::matches_at(all, paths[i], at));
        }
    }
}

/// The consent text names every path that would be replaced.
pub proof fn law_every_path_is_named(unit: Seq<char>, paths: Seq<Seq<char>>, i: int)
    requires
        0 <= i < paths.len(),
    ensures
        text::occurs(conflict_text(unit, paths), paths[i]),
{
    lemma_join_names(paths, "\n  "@, i);
    let list = parts::join_of(paths, "\n  "@);
    let at = choose|at: int| text::matches_at(list, paths[i], at);
    let all = conflict_text(unit, paths);
    let head = "Restoring "@ + unit + " would replace "@ + number::decimal(paths.len()) + (
    if paths.len() == 1 {
        " file that exists again:\n\n  "@
    } else {
        " files that exist again:\n\n  "@
    });
    let tail = "\n\nOverwrite them?"@;
    assert(all =~= head + list + tail);
    let n = head.len() as int;
    assert(all.subrange(n + at, n + at + paths[i].len()) =~= list.subrange(
        at,
        at + paths[i].len(),
    ));
    assert(text::matches_at(all, paths[i], n + at));
}

/// Discarding an entry takes it off the list, and no other.
pub proof fn law_discarding_leaves_the_others(
    entries: Seq<EntryView>,
    id: Seq<char>,
    e: EntryView,
)
    ensures
        without_of(entries, id).contains(e) == (entries.contains(e) && e.id != id),
    decreases entries.len(),
{
    let left = without_of(entries, id);
    if entries.len() > 0 {
        let less = entries.drop_last();
        let rest = without_of(less, id);
        law_discarding_leaves_the_others(less, id, e);
        if entries.contains(e) {
            let k = choose|k: int| 0 <= k < entries.len() && entries[k] == e;
            if k < less.len() {
                assert(less[k] == e);
            }
        }
        if less.contains(e) {
            let k = choose|k: int| 0 <= k < less.len() && less[k] == e;
            assert(entries[k] == e);
        }
        if left.contains(e) {
            let k = choose|k: int| 0 <= k < left.len() && left[k] == e;
            if k < rest.len() {
                assert(rest[k] == e);
            } else {
                assert(entries[entries.len() - 1] == e);
            }
        }
        if rest.contains(e) {
            let k = choose|k: int| 0 <= k < rest.len() && rest[k] == e;
            assert(left[k] == e);
        }
        if entries.last() == e && e.id != id {
            assert(left[rest.len() as int] == e);
        }
    }
}

} // verus!
