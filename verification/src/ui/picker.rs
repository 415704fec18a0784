//! The filesystem picker behind every path field: a modal, single-directory
//! browser. `b` opens it from the focused builder row, Enter descends or
//! selects, Esc cancels and leaves the field alone.

use crate::parts;
use crate::paths;
use crate::text;
use crate::ui::diff;
use crate::ui::diff::Scrolled;
use crate::ui::paint;
use crate::ui::paint::{Color, Line, SpanView, Style};
use crate::ui::steps;
use crate::ui::term;
use crate::ui::term::{Key, KeyCode, Rect};
use crate::unit::escape;
use vstd::prelude::*;

verus! {

broadcast use vstd::string::group_string_axioms;

/// What the calling field wants out of the picker. Set explicitly per call
/// site rather than guessed from the value, because the same-looking string
/// means different things in different fields.
#[derive(Debug, Clone, Copy, PartialEq, Eq, Structural)]
pub enum Mode {
    /// Confirms on a directory: `WorkingDirectory=`, a mount's `Where=`.
    /// Files are not listed, so there is nothing to descend into by mistake.
    Directory,
    /// Confirms on a file: `ExecStart=` and friends, a mount's `What=` when
    /// it names a block device.
    File,
    /// Either will do; the current directory can also be confirmed.
    Any,
}

impl Mode {
    /// Whether the directory being browsed is itself a valid answer.
    pub fn takes_dir(self) -> (r: bool)
        ensures
            r == !(self is File),
    {
        match self {
            Mode::File => false,
            _ => true,
        }
    }

    /// Whether files should be listed at all.
    pub fn takes_file(self) -> (r: bool)
        ensures
            r == !(self is Directory),
    {
        match self {
            Mode::Directory => false,
            _ => true,
        }
    }
}

/// One real directory entry. Symlinks are resolved for the `is_dir` flag so
/// following one behaves the way it looks.
#[derive(Debug, PartialEq, Eq)]
pub struct Entry {
    pub name: String,
    pub is_dir: bool,
}

/// The contents of an [`Entry`].
#[verifier::ext_equal]
pub struct EntryView {
    pub name: Seq<char>,
    pub is_dir: bool,
}

impl View for Entry {
    type V = EntryView;

    open spec fn view(&self) -> EntryView {
        EntryView { name: self.name@, is_dir: self.is_dir }
    }
}

impl Clone for Entry {
    fn clone(&self) -> (r: Entry)
        ensures
            r@ == self@,
    {
        Entry { name: self.name.clone(), is_dir: self.is_dir }
    }
}

/// The contents of a list of entries.
pub open spec fn entry_views(v: Seq<Entry>) -> Seq<EntryView> {
    Seq::new(v.len(), |i: int| v[i]@)
}

/// A line in the picker: the two synthetic actions, or a real entry.
#[derive(Debug, PartialEq, Eq)]
pub enum Row {
    /// Confirms the directory currently being browsed.
    UseCurrent,
    /// Ascends. Absent at `/`.
    Parent,
    Entry(Entry),
}

/// The contents of a [`Row`].
#[verifier::ext_equal]
pub enum RowView {
    UseCurrent,
    Parent,
    Entry(EntryView),
}

impl View for Row {
    type V = RowView;

    open spec fn view(&self) -> RowView {
        match self {
            Row::UseCurrent => RowView::UseCurrent,
            Row::Parent => RowView::Parent,
            Row::Entry(e) => RowView::Entry(e@),
        }
    }
}

/// The contents of a list of rows.
pub open spec fn row_views(v: Seq<Row>) -> Seq<RowView> {
    Seq::new(v.len(), |i: int| v[i]@)
}

impl RowView {
    /// The rendered text. Directories carry a trailing `/`.
    pub open spec fn label_of(self) -> Seq<char> {
        match self {
            RowView::UseCurrent => "[ use this directory ]"@,
            RowView::Parent => "../"@,
            RowView::Entry(e) => if e.is_dir {
                e.name + "/"@
            } else {
                e.name
            },
        }
    }

    /// Whether the row stands for a directory.
    pub open spec fn is_dirlike(self) -> bool {
        match self {
            RowView::Entry(e) => e.is_dir,
            _ => true,
        }
    }
}

impl Row {
    /// The rendered text. Directories carry a trailing `/`.
    pub fn label(&self) -> (r: String)
        ensures
            r@ == self@.label_of(),
    {
        match self {
            Row::UseCurrent => "[ use this directory ]".to_owned(),
            Row::Parent => "../".to_owned(),
            Row::Entry(e) => if e.is_dir {
                text::cat2(e.name.as_str(), "/")
            } else {
                e.name.clone()
            },
        }
    }

    fn dirlike(&self) -> (r: bool)
        ensures
            r == self@.is_dirlike(),
    {
        match self {
            Row::Entry(e) => e.is_dir,
            _ => true,
        }
    }
}

// ---------------------------------------------------------------------------
// Listing
// ---------------------------------------------------------------------------

/// Whether `a` is listed before `b`: directories before files, each group
/// alphabetically.
pub open spec fn before_of(a: EntryView, b: EntryView) -> bool {
    if a.is_dir != b.is_dir {
        a.is_dir
    } else {
        text::less_of(a.name, b.name)
    }
}

/// Whether a name is one that is usually not shown.
pub open spec fn is_dotted(name: Seq<char>) -> bool {
    name.len() > 0 && name[0] == '.'
}

/// The number of entries at the start of `s` that stay before `x`.
pub open spec fn rank_of(s: Seq<EntryView>, x: EntryView) -> int
    decreases s.len(),
{
    if s.len() == 0 || before_of(x, s[0]) {
        0
    } else {
        1 + rank_of(s.skip(1), x)
    }
}

/// The entries to show, in order.
pub open spec fn listed_of(s: Seq<EntryView>, hidden: bool) -> Seq<EntryView>
    decreases s.len(),
{
    if s.len() == 0 {
        seq![]
    } else {
        let t = listed_of(s.drop_last(), hidden);
        if !hidden && is_dotted(s.last().name) {
            t
        } else {
            t.insert(rank_of(t, s.last()), s.last())
        }
    }
}

fn before(a: &Entry, b: &Entry) -> (r: bool)
    ensures
        r == before_of(a@, b@),
{
    if a.is_dir != b.is_dir {
        a.is_dir
    } else {
        text::less(a.name.as_str(), b.name.as_str())
    }
}

/// The entries of a directory to show, dropping dotfiles unless `hidden`.
/// Directories sort before files, each group alphabetically.
pub fn list_dir(found: &[Entry], hidden: bool) -> (r: Vec<Entry>)
    ensures
        entry_views(r@) == listed_of(entry_views(found@), hidden),
{
    let ghost all = entry_views(found@);
    let mut out: Vec<Entry> = Vec::new();
    let mut i: usize = 0;
    assert(all.take(0) =~= seq![]);
    assert(entry_views(out@) =~= seq![]);
    while i < found.len()
        invariant
            i <= found@.len(),
            all == entry_views(found@),
            entry_views(out@) == listed_of(all.take(i as int), hidden),
        decreases found@.len() - i,
    {
        let x = found[i].clone();
        assert(all.take(i + 1).drop_last() =~= all.take(i as int));
        assert(all.take(i + 1).last() == x@);
        let dotted = x.name.as_str().unicode_len() > 0 && x.name.as_str().get_char(0) == '.';
        if hidden || !dotted {
            let ghost t = entry_views(out@);
            let mut k: usize = 0;
            assert(t.skip(0) =~= t);
            while k < out.len() && !before(&x, &out[k])
                invariant
                    k <= out@.len(),
                    t == entry_views(out@),
                    rank_of(t, x@) == k + rank_of(t.skip(k as int), x@),
                decreases out@.len() - k,
            {
                assert(t.skip(k as int)[0] == out@[k as int]@);
                assert(t.skip(k as int).skip(1) =~= t.skip(k + 1));
                k += 1;
            }
            if k < out.len() {
                assert(t.skip(k as int)[0] == out@[k as int]@);
            }
            out.insert(k, x);
            assert(entry_views(out@) =~= t.insert(k as int, x@));
        }
        i += 1;
    }
    assert(all.take(all.len() as int) =~= all);
    out
}

/// Whether no entry stands before one that belongs before it.
pub open spec fn is_ordered(s: Seq<EntryView>) -> bool {
    forall|i: int, j: int| 0 <= i < j < s.len() ==> !before_of(#[trigger] s[j], #[trigger] s[i])
}

proof fn lemma_before_transitive(a: EntryView, b: EntryView, c: EntryView)
    requires
        !before_of(b, a),
        !before_of(c, b),
    ensures
        !before_of(c, a),
{
    text::lemma_less_total(a.name, b.name);
    text::lemma_less_total(b.name, c.name);
    text::lemma_less_total(a.name, c.name);
    if before_of(c, a) && a.is_dir == c.is_dir {
        if a.name != b.name && b.name != c.name {
            text::lemma_less_transitive(a.name, b.name, c.name);
        }
    }
}

proof fn lemma_rank(s: Seq<EntryView>, x: EntryView)
    requires
        is_ordered(s),
    ensures
        0 <= rank_of(s, x) <= s.len(),
        forall|i: int| 0 <= i < rank_of(s, x) ==> !before_of(x, #[trigger] s[i]),
        forall|i: int| rank_of(s, x) <= i < s.len() ==> !before_of(#[trigger] s[i], x),
    decreases s.len(),
{
    if s.len() > 0 {
        if before_of(x, s[0]) {
            assert forall|i: int| 0 <= i < s.len() implies !before_of(#[trigger] s[i], x) by {
                text::lemma_less_total(x.name, s[0].name);
                if i > 0 {
                    lemma_before_transitive(x, s[0], s[i]);
                }
            }
        } else {
            let t = s.skip(1);
            assert forall|i: int, j: int| 0 <= i < j < t.len() implies !before_of(
                #[trigger] t[j],
                #[trigger] t[i],
            ) by {
                assert(t[i] == s[i + 1] && t[j] == s[j + 1]);
            }
            lemma_rank(t, x);
            assert forall|i: int| 0 <= i < rank_of(s, x) implies !before_of(x, #[trigger] s[i]) by {
                if i > 0 {
                    assert(s[i] == t[i - 1]);
                }
            }
            assert forall|i: int| rank_of(s, x) <= i < s.len() implies !before_of(
                #[trigger] s[i],
                x,
            ) by {
                assert(s[i] == t[i - 1]);
            }
        }
    }
}

proof fn lemma_listed_contains(s: Seq<EntryView>, hidden: bool)
    ensures
        is_ordered(listed_of(s, hidden)),
        forall|e: EntryView|
            #![auto]
            listed_of(s, hidden).contains(e) <==> s.contains(e) && (hidden || !is_dotted(e.name)),
    decreases s.len(),
{
    if s.len() > 0 {
        let x = s.last();
        let t = listed_of(s.drop_last(), hidden);
        lemma_listed_contains(s.drop_last(), hidden);
        assert(s =~= s.drop_last().push(x));
        assert forall|e: EntryView| #[trigger] s.contains(e) <==> s.drop_last().contains(e) || e
            == x by {
            if s.contains(e) && e != x {
                let i = choose|i: int| 0 <= i < s.len() && s[i] == e;
                assert(s.drop_last()[i] == e);
            }
            if s.drop_last().contains(e) {
                let i = choose|i: int| 0 <= i < s.drop_last().len() && s.drop_last()[i] == e;
                assert(s[i] == e);
            }
            if e == x {
                assert(s[s.len() - 1] == e);
            }
        }
        if hidden || !is_dotted(x.name) {
            let k = rank_of(t, x);
            lemma_rank(t, x);
            let r = t.insert(k, x);
            assert forall|i: int, j: int| 0 <= i < j < r.len() implies !before_of(
                #[trigger] r[j],
                #[trigger] r[i],
            ) by {
                if i == k {
                    assert(r[j] == t[j - 1]);
                } else if j == k {
                    assert(r[i] == t[i]);
                } else {
                    let a = if i < k {
                        i
                    } else {
                        i - 1
                    };
                    let b = if j < k {
                        j
                    } else {
                        j - 1
                    };
                    assert(r[i] == t[a] && r[j] == t[b]);
                }
            }
            assert forall|e: EntryView| #[trigger] r.contains(e) <==> t.contains(e) || e == x by {
                if r.contains(e) && e != x {
                    let i = choose|i: int| 0 <= i < r.len() && r[i] == e;
                    if i < k {
                        assert(t[i] == e);
                    } else {
                        assert(t[i - 1] == e);
                    }
                }
                if t.contains(e) {
                    let i = choose|i: int| 0 <= i < t.len() && t[i] == e;
                    if i < k {
                        assert(r[i] == e);
                    } else {
                        assert(r[i + 1] == e);
                    }
                }
                if e == x {
                    assert(r[k] == e);
                }
            }
        }
    }
}

/// A listing is in order, and holds just the entries that are to be shown.
pub proof fn law_listing(s: Seq<EntryView>, hidden: bool, e: EntryView)
    ensures
        is_ordered(listed_of(s, hidden)),
        listed_of(s, hidden).contains(e) <==> s.contains(e) && (hidden || !is_dotted(e.name)),
{
    lemma_listed_contains(s, hidden);
}

/// The entries that a mode shows, as rows.
pub open spec fn shown_of(mode: Mode, entries: Seq<EntryView>) -> Seq<RowView>
    decreases entries.len(),
{
    if entries.len() == 0 {
        seq![]
    } else {
        let t = shown_of(mode, entries.drop_last());
        if entries.last().is_dir || !(mode is Directory) {
            t.push(RowView::Entry(entries.last()))
        } else {
            t
        }
    }
}

/// The visible rows for a directory.
pub open spec fn rows_of(mode: Mode, dir: Seq<char>, entries: Seq<EntryView>) -> Seq<RowView> {
    (if mode is File {
        seq![]
    } else {
        seq![RowView::UseCurrent]
    }) + (if paths::parent_of(dir) is Some {
        seq![RowView::Parent]
    } else {
        seq![]
    }) + shown_of(mode, entries)
}

/// Compose the visible rows for `dir` in `mode`.
pub fn rows(mode: Mode, dir: &str, entries: &[Entry]) -> (r: Vec<Row>)
    ensures
        row_views(r@) == rows_of(mode, dir@, entry_views(entries@)),
{
    let ghost all = entry_views(entries@);
    let mut out: Vec<Row> = Vec::new();
    if mode.takes_dir() {
        out.push(Row::UseCurrent);
    }
    if paths::parent(dir).is_some() {
        out.push(Row::Parent);
    }
    let ghost head = row_views(out@);
    let mut i: usize = 0;
    assert(all.take(0) =~= seq![]);
    assert(head + seq![] =~= head);
    while i < entries.len()
        invariant
            i <= entries@.len(),
            all == entry_views(entries@),
            row_views(out@) == head + shown_of(mode, all.take(i as int)),
        decreases entries@.len() - i,
    {
        assert(all.take(i + 1).drop_last() =~= all.take(i as int));
        assert(all.take(i + 1).last() == entries@[i as int]@);
        if entries[i].is_dir || mode.takes_file() {
            let ghost before = row_views(out@);
            let e = entries[i].clone();
            out.push(Row::Entry(e));
            assert(row_views(out@) =~= before.push(RowView::Entry(all[i as int])));
            assert((head + shown_of(mode, all.take(i as int))).push(RowView::Entry(all[i as int]))
                =~= head + shown_of(mode, all.take(i as int)).push(
                RowView::Entry(all[i as int]),
            ));
        }
        i += 1;
    }
    assert(all.take(all.len() as int) =~= all);
    assert(head =~= (if mode is File {
        seq![]
    } else {
        seq![RowView::UseCurrent]
    }) + (if paths::parent_of(dir@) is Some {
        seq![RowView::Parent]
    } else {
        seq![]
    }));
    out
}

/// The path above, clamped at the root.
pub open spec fn above_of(dir: Seq<char>) -> Seq<char> {
    match paths::parent_of(dir) {
        Some(p) => p,
        None => dir,
    }
}

/// The parent of `dir`, clamped at `/`: ascending from the root stays at the
/// root instead of escaping it or panicking.
pub fn parent_of(dir: &str) -> (r: String)
    ensures
        r@ == above_of(dir@),
{
    match paths::parent(dir) {
        Some(p) => p,
        None => dir.to_owned(),
    }
}

/// `$HOME` if it is a readable directory, else `/`.
pub fn home_or_root(home: &Option<String>, is_dir: bool) -> (r: String)
    ensures
        r@ == (match *home {
            Some(h) => if is_dir {
                h@
            } else {
                "/"@
            },
            None => "/"@,
        }),
{
    match home {
        Some(h) => if is_dir {
            h.clone()
        } else {
            "/".to_owned()
        },
        None => "/".to_owned(),
    }
}

/// What stands at a path.
#[derive(Debug, Clone, Copy, PartialEq, Eq, Structural)]
pub enum Seen {
    Directory,
    Other,
    Nothing,
}

/// The paths to look at for where to open the picker: that of the field and
/// those above it, or none where the field does not hold an absolute path.
pub open spec fn candidates_of(value: Seq<char>) -> Seq<Seq<char>> {
    let v = text::trim_of(value);
    if v.len() > 0 && v[0] == '/' {
        paths::ancestors_of(v)
    } else {
        seq![]
    }
}

/// The paths to look at for where to open the picker.
pub fn candidates(value: &str) -> (r: Vec<String>)
    ensures
        text::texts(r@) == candidates_of(value@),
{
    let v = text::trim(value);
    if v.unicode_len() > 0 && v.get_char(0) == '/' {
        paths::ancestors(v)
    } else {
        let r: Vec<String> = Vec::new();
        assert(text::texts(r@) =~= seq![]);
        r
    }
}

/// Where to open the picker, given what stands at each path looked at.
pub open spec fn start_of(paths: Seq<Seq<char>>, seen: Seq<Seen>, fallback: Seq<char>) -> Seq<char>
    decreases paths.len(),
{
    if paths.len() == 0 || seen.len() == 0 {
        fallback
    } else {
        match seen[0] {
            Seen::Directory => paths[0],
            Seen::Other => above_of(paths[0]),
            Seen::Nothing => start_of(paths.skip(1), seen.skip(1), fallback),
        }
    }
}

/// Where to open the picker for a field currently holding `value`: `seen`
/// says what stands at each of its [`candidates`].
///
/// An absolute path that is a directory is used as-is, one that names a file
/// yields its parent, and one that does not exist walks up to its first
/// existing ancestor. Anything else -- empty, relative, a bare command name
/// -- yields the fallback.
pub fn start_dir(value: &str, seen: &[Seen], fallback: &str) -> (r: String)
    requires
        seen@.len() == candidates_of(value@).len(),
    ensures
        r@ == start_of(candidates_of(value@), seen@, fallback@),
{
    let all = candidates(value);
    let ghost ps = text::texts(all@);
    let mut i: usize = 0;
    assert(ps.skip(0) =~= ps);
    assert(seen@.skip(0) =~= seen@);
    while i < seen.len()
        invariant
            i <= seen@.len() == all@.len(),
            ps == text::texts(all@),
            ps == candidates_of(value@),
            start_of(ps, seen@, fallback@) == start_of(
                ps.skip(i as int),
                seen@.skip(i as int),
                fallback@,
            ),
        decreases seen@.len() - i,
    {
        assert(ps.skip(i as int)[0] == all@[i as int]@);
        assert(seen@.skip(i as int)[0] == seen@[i as int]);
        assert(ps.skip(i as int).skip(1) =~= ps.skip(i + 1));
        assert(seen@.skip(i as int).skip(1) =~= seen@.skip(i + 1));
        match seen[i] {
            Seen::Directory => {
                return all[i].clone();
            },
            Seen::Other => {
                return parent_of(all[i].as_str());
            },
            Seen::Nothing => {},
        }
        i += 1;
    }
    fallback.to_owned()
}

// ---------------------------------------------------------------------------
// Command lines
// ---------------------------------------------------------------------------

/// The program of a command line and the rest of it.
pub open spec fn split_command_of(cmd: Seq<char>) -> (Seq<char>, Seq<char>) {
    let t = text::trim_of(cmd);
    let k = parts::word_len(t);
    if k < t.len() {
        (t.take(k), text::trim_start_of(t.skip(k + 1)))
    } else {
        (t, seq![])
    }
}

/// A command line of a program and its arguments.
pub open spec fn join_command_of(program: Seq<char>, args: Seq<char>) -> Seq<char> {
    if args.len() == 0 {
        program
    } else {
        program + " "@ + args
    }
}

/// Split a command line into its program and the rest of its arguments, so a
/// picked binary can replace the program without losing what follows it.
pub fn split_command(cmd: &str) -> (r: (String, String))
    ensures
        (r.0@, r.1@) == split_command_of(cmd@),
{
    let t = text::trim(cmd);
    let n: usize = t.unicode_len();
    let mut k: usize = 0;
    assert(t@.skip(0) =~= t@);
    while k < n && !text::white(t.get_char(k))
        invariant
            k <= n == t@.len(),
            parts::word_len(t@) == k + parts::word_len(t@.skip(k as int)),
        decreases n - k,
    {
        assert(t@.skip(k as int)[0] == t@[k as int]);
        assert(t@.skip(k as int).skip(1) =~= t@.skip(k + 1));
        k += 1;
    }
    if k < n {
        assert(t@.skip(k as int)[0] == t@[k as int]);
        assert(t@.subrange(0, k as int) =~= t@.take(k as int));
        assert(t@.subrange(k + 1, n as int) =~= t@.skip(k + 1));
        let rest = t.substring_char(k + 1, n);
        (t.substring_char(0, k).to_owned(), text::trim_start(rest).to_owned())
    } else {
        let none = String::new();
        assert(none@ =~= seq![]);
        (t.to_owned(), none)
    }
}

/// Inverse of [`split_command`].
pub fn join_command(program: &str, args: &str) -> (r: String)
    ensures
        r@ == join_command_of(program@, args@),
{
    if args.unicode_len() == 0 {
        program.to_owned()
    } else {
        text::cat3(program, " ", args)
    }
}

/// A program and arguments without white space around them come back from
/// the command line they make.
pub proof fn law_command_round_trip(program: Seq<char>, args: Seq<char>)
    requires
        program.len() > 0,
        forall|i: int| 0 <= i < program.len() ==> !text::is_white(#[trigger] program[i]),
        args.len() > 0 ==> !text::is_white(args[0]) && !text::is_white(args.last()),
    ensures
        split_command_of(join_command_of(program, args)) == (program, args),
{
    reveal_strlit(" ");
    let cmd = join_command_of(program, args);
    assert(cmd[0] == program[0]);
    assert(cmd.last() == if args.len() == 0 {
        program.last()
    } else {
        args.last()
    });
    text::lemma_trim_tight(cmd);
    parts::lemma_word_len(cmd);
    let k = parts::word_len(cmd);
    let n = program.len() as int;
    if args.len() == 0 {
        if k < cmd.len() {
            assert(program[k] == cmd[k]);
        }
        assert(args =~= seq![]);
    } else {
        assert(text::is_white(' '));
        assert(cmd[n] == ' ');
        if k < n {
            assert(program[k] == cmd[k]);
        }
        assert(k == n);
        assert(cmd.take(n) =~= program);
        assert(cmd.skip(n + 1) =~= args);
    }
}

// ---------------------------------------------------------------------------
// The picker's state
// ---------------------------------------------------------------------------

/// The picker's popup: nearly the whole frame, sized down so a degenerate
/// frame yields a degenerate rect.
pub fn picker_rect(area: Rect) -> (r: Rect)
    requires
        area.fits(),
    ensures
        r == term::popup_of(
            area,
            if area.width > 36 {
                area.width - 6
            } else {
                30
            },
            if area.height > 12 {
                area.height - 2
            } else {
                10
            },
        ),
        r.is_inside(area),
        r.fits(),
{
    let w: u16 = if area.width > 36 {
        area.width - 6
    } else {
        30
    };
    let h: u16 = if area.height > 12 {
        area.height - 2
    } else {
        10
    };
    term::popup_rect(area, w, h)
}

/// Everything the picker paints.
#[derive(Debug)]
pub struct State {
    /// The field being filled in, shown in the border so the picker never
    /// floats free of what it is for.
    pub field: String,
    pub mode: Mode,
    pub dir: String,
    pub rows: Vec<Row>,
    pub sel: usize,
    pub top: usize,
    pub hidden: bool,
    /// A read failure to show instead of the help line, e.g. a denied
    /// directory. Never fatal: the picker stays where it was.
    pub err: String,
}

/// The contents of a [`State`].
#[verifier::ext_equal]
pub struct StateView {
    pub field: Seq<char>,
    pub mode: Mode,
    pub dir: Seq<char>,
    pub rows: Seq<RowView>,
    pub sel: int,
    pub top: int,
    pub hidden: bool,
    pub err: Seq<char>,
}

impl View for State {
    type V = StateView;

    open spec fn view(&self) -> StateView {
        StateView {
            field: self.field@,
            mode: self.mode,
            dir: self.dir@,
            rows: row_views(self.rows@),
            sel: self.sel as int,
            top: self.top as int,
            hidden: self.hidden,
            err: self.err@,
        }
    }
}

/// What the picker asks of its surroundings after a key.
#[derive(Debug)]
pub enum Browse {
    /// The next key.
    Stay,
    Cancel,
    /// This path was chosen.
    Chosen(String),
    /// This directory is to be read, and this name selected in it.
    Open(String, Option<String>),
}

/// The contents of a [`Browse`].
#[verifier::ext_equal]
pub enum BrowseView {
    Stay,
    Cancel,
    Chosen(Seq<char>),
    Open(Seq<char>, Option<Seq<char>>),
}

impl View for Browse {
    type V = BrowseView;

    open spec fn view(&self) -> BrowseView {
        match self {
            Browse::Stay => BrowseView::Stay,
            Browse::Cancel => BrowseView::Cancel,
            Browse::Chosen(p) => BrowseView::Chosen(p@),
            Browse::Open(d, n) => BrowseView::Open(d@, text::opt_text(*n)),
        }
    }
}

/// Where the row of a named entry is, if there is one; the first of them.
pub open spec fn named_row(rows: Seq<RowView>, name: Seq<char>) -> Option<int>
    decreases rows.len(),
{
    if rows.len() == 0 {
        None
    } else if rows[0] matches RowView::Entry(e) && e.name == name {
        Some(0)
    } else {
        match named_row(rows.skip(1), name) {
            Some(i) => Some(i + 1),
            None => None,
        }
    }
}

/// The state with a directory read, or with the reason why it was not.
pub open spec fn opened_of(
    st: StateView,
    dir: Seq<char>,
    select: Option<Seq<char>>,
    listing: Result<Seq<EntryView>, Seq<char>>,
) -> StateView {
    match listing {
        Ok(found) => {
            let rows = rows_of(st.mode, dir, listed_of(found, st.hidden));
            let sel = match select {
                Some(name) => match named_row(rows, name) {
                    Some(i) => i,
                    None => 0,
                },
                None => 0,
            };
            StateView { dir, rows, sel, top: 0, err: seq![], ..st }
        },
        Err(e) => StateView { err: dir + ": "@ + e, ..st },
    }
}

/// The contents of what reading a directory gave.
pub open spec fn listing_view(listing: Result<Vec<Entry>, String>) -> Result<
    Seq<EntryView>,
    Seq<char>,
> {
    match listing {
        Ok(v) => Ok(entry_views(v@)),
        Err(e) => Err(e@),
    }
}

/// What going up asks for: nothing at the root, and otherwise the directory
/// above with the one just left selected.
pub open spec fn ascend_of(st: StateView) -> BrowseView {
    match paths::parent_of(st.dir) {
        Some(p) => BrowseView::Open(p, paths::file_name_of(st.dir)),
        None => BrowseView::Stay,
    }
}

/// What acting on the selected row asks for.
pub open spec fn activate_of(st: StateView) -> BrowseView {
    if 0 <= st.sel < st.rows.len() {
        match st.rows[st.sel] {
            RowView::UseCurrent => BrowseView::Chosen(st.dir),
            RowView::Parent => ascend_of(st),
            RowView::Entry(e) => if e.is_dir {
                BrowseView::Open(paths::join_of(st.dir, e.name), None)
            } else {
                BrowseView::Chosen(paths::join_of(st.dir, e.name))
            },
        }
    } else {
        BrowseView::Stay
    }
}

/// What a key does to the picker.
#[verifier::opaque]
pub open spec fn pressed_of(st: StateView, k: Option<Key>) -> (StateView, BrowseView) {
    let last = if st.rows.len() > 0 {
        st.rows.len() - 1
    } else {
        0
    };
    match k {
        None => (st, BrowseView::Cancel),
        Some(k) => if k.controls('s') && !(st.mode is File) {
            (st, BrowseView::Chosen(st.dir))
        } else if k.code_of() == Some(KeyCode::Esc) {
            (st, BrowseView::Cancel)
        } else if k.code_of() == Some(KeyCode::Left) || k.code_of() == Some(KeyCode::Backspace)
            || k.types('h') {
            (st, ascend_of(st))
        } else if k.code_of() == Some(KeyCode::Enter) || k.code_of() == Some(KeyCode::Right)
            || k.types('l') {
            (st, activate_of(st))
        } else if k.types('H') {
            let flipped = StateView { hidden: !st.hidden, ..st };
            (flipped, BrowseView::Open(st.dir, None))
        } else {
            match diff::scrolled_by(k, st.sel, 10, last, 1) {
                Some(i) => (StateView { sel: i, ..st }, BrowseView::Stay),
                None => (st, BrowseView::Stay),
            }
        },
    }
}

impl State {
    /// The picker on a directory. An unreadable starting directory falls
    /// back to another one rather than opening blank.
    pub fn start(
        field: &str,
        mode: Mode,
        dir: &str,
        listing: &Result<Vec<Entry>, String>,
        fallback: &str,
        fallback_listing: &Option<Vec<Entry>>,
    ) -> (r: State)
        ensures
            r@.field == field@ && r@.mode == mode && r@.sel == 0 && r@.top == 0 && !r@.hidden,
            match *listing {
                Ok(found) => r@.dir == dir@ && r@.rows == rows_of(
                    mode,
                    dir@,
                    listed_of(entry_views(found@), false),
                ) && r@.err.len() == 0,
                Err(e) => {
                    &&& r@.dir == fallback@
                    &&& r@.err == dir@ + ": "@ + e@
                    &&& r@.rows == (match *fallback_listing {
                        Some(found) => rows_of(
                            mode,
                            fallback@,
                            listed_of(entry_views(found@), false),
                        ),
                        None => seq![],
                    })
                },
            },
    {
        match listing {
            Ok(found) => State {
                field: field.to_owned(),
                mode,
                dir: dir.to_owned(),
                rows: rows(mode, dir, &list_dir(found, false)),
                sel: 0,
                top: 0,
                hidden: false,
                err: String::new(),
            },
            Err(e) => {
                let shown = match fallback_listing {
                    Some(found) => rows(mode, fallback, &list_dir(found, false)),
                    None => {
                        let none: Vec<Row> = Vec::new();
                        assert(row_views(none@) =~= seq![]);
                        none
                    },
                };
                State {
                    field: field.to_owned(),
                    mode,
                    dir: fallback.to_owned(),
                    rows: shown,
                    sel: 0,
                    top: 0,
                    hidden: false,
                    err: text::cat3(dir, ": ", e.as_str()),
                }
            },
        }
    }

    /// The bottom line.
    pub fn hint(&self) -> (r: String)
        ensures
            r@ == (if self@.mode is File {
                "Enter descends/selects   h/\u{2190} up   H hidden   Esc cancels"@
            } else {
                "Enter descends/selects   Ctrl-S takes this dir   h/\u{2190} up   H hidden   Esc cancels"@
            }),
    {
        if self.mode.takes_dir() {
            "Enter descends/selects   Ctrl-S takes this dir   h/\u{2190} up   H hidden   Esc cancels".to_owned()
        } else {
            "Enter descends/selects   h/\u{2190} up   H hidden   Esc cancels".to_owned()
        }
    }

    /// The title.
    pub fn title(&self) -> (r: String)
        ensures
            r@ == self@.field + " \u{2014} "@ + self@.dir + (if self@.hidden {
                "  (hidden shown)"@
            } else {
                ""@
            }),
    {
        let tail = if self.hidden {
            "  (hidden shown)"
        } else {
            ""
        };
        let head = text::cat3(self.field.as_str(), " \u{2014} ", self.dir.as_str());
        text::cat2(head.as_str(), tail)
    }

    /// Keep the selection inside the row list and the viewport around it.
    pub fn clamp(&mut self, visible: usize)
        requires
            old(self).rows@.len() < usize::MAX,
        ensures
            ({
                let st = old(self)@;
                let (sel, top) = steps::viewport_of(
                    st.sel,
                    st.top,
                    st.rows.len() as int,
                    visible as int,
                );
                final(self)@ == (StateView { sel, top, ..st })
            }),
            final(self).top <= final(self).sel,
            visible > 0 ==> final(self).sel < final(self).top + visible,
    {
        let (sel, top) = steps::viewport(self.sel, self.top, self.rows.len(), visible);
        self.sel = sel;
        self.top = top;
    }

    /// Selects the entry of a name, where there is one.
    pub fn select_named(&mut self, name: &str)
        ensures
            final(self)@ == (StateView {
                sel: match named_row(old(self)@.rows, name@) {
                    Some(i) => i,
                    None => old(self)@.sel,
                },
                ..old(self)@
            }),
    {
        let ghost all = self@.rows;
        let mut i: usize = 0;
        assert(all.skip(0) =~= all);
        while i < self.rows.len()
            invariant
                *self == *old(self),
                i <= self.rows@.len(),
                all == row_views(self.rows@),
                named_row(all, name@) == (match named_row(all.skip(i as int), name@) {
                    Some(j) => Some(i + j),
                    None => None,
                }),
            decreases self.rows@.len() - i,
        {
            assert(all.skip(i as int)[0] == self.rows@[i as int]@);
            assert(all.skip(i as int).skip(1) =~= all.skip(i + 1));
            if let Row::Entry(e) = &self.rows[i] {
                if text::same(e.name.as_str(), name) {
                    self.sel = i;
                    return;
                }
            }
            i += 1;
        }
    }

    /// Takes what reading `dir` gave. Where it could not be read the picker
    /// stays put and reports why.
    pub fn open(&mut self, dir: &str, select: &Option<String>, listing: &Result<Vec<Entry>, String>)
        ensures
            final(self)@ == opened_of(
                old(self)@,
                dir@,
                text::opt_text(*select),
                listing_view(*listing),
            ),
    {
        match listing {
            Ok(found) => {
                self.rows = rows(self.mode, dir, &list_dir(found, self.hidden));
                self.dir = dir.to_owned();
                self.err = String::new();
                self.sel = 0;
                self.top = 0;
                assert(self@.err =~= seq![]);
                if let Some(name) = select {
                    self.select_named(name.as_str());
                }
            },
            Err(e) => {
                self.err = text::cat3(dir, ": ", e.as_str());
            },
        }
    }

    /// Goes up.
    pub fn ascend(&self) -> (r: Browse)
        ensures
            r@ == ascend_of(self@),
    {
        match paths::parent(self.dir.as_str()) {
            Some(p) => Browse::Open(p, paths::file_name(self.dir.as_str())),
            None => Browse::Stay,
        }
    }

    /// Act on the selected row.
    pub fn activate(&self) -> (r: Browse)
        ensures
            r@ == activate_of(self@),
    {
        if self.sel >= self.rows.len() {
            return Browse::Stay;
        }
        assert(self@.rows[self.sel as int] == self.rows@[self.sel as int]@);
        match &self.rows[self.sel] {
            Row::UseCurrent => Browse::Chosen(self.dir.clone()),
            Row::Parent => self.ascend(),
            Row::Entry(e) => {
                let target = paths::join(self.dir.as_str(), e.name.as_str());
                if e.is_dir {
                    Browse::Open(target, None)
                } else {
                    Browse::Chosen(target)
                }
            },
        }
    }

    /// Takes one key.
    pub fn press(&mut self, k: Option<Key>) -> (r: Browse)
        ensures
            (final(self)@, r@) == pressed_of(old(self)@, k),
    {
        reveal(pressed_of);
        let k = match k {
            None => {
                return Browse::Cancel;
            },
            Some(k) => k,
        };
        let n: usize = self.rows.len();
        let last: usize = if n > 0 {
            n - 1
        } else {
            0
        };
        if k.is_ctrl('s') && self.mode.takes_dir() {
            return Browse::Chosen(self.dir.clone());
        }
        if is_code(k, KeyCode::Esc) {
            return Browse::Cancel;
        }
        if is_code(k, KeyCode::Left) || is_code(k, KeyCode::Backspace) || k.is_char('h') {
            return self.ascend();
        }
        if is_code(k, KeyCode::Enter) || is_code(k, KeyCode::Right) || k.is_char('l') {
            return self.activate();
        }
        if k.is_char('H') {
            self.hidden = !self.hidden;
            return Browse::Open(self.dir.clone(), None);
        }
        match diff::scroll_key(k, self.sel, 10, last, 1) {
            Scrolled::At(i) => {
                self.sel = i;
            },
            Scrolled::Not => {},
        }
        Browse::Stay
    }

    /// The lines of the picker in a box of `width` columns and `height`
    /// rows: the rows in view, and the hint or the error at the bottom.
    pub fn lines(&self, width: usize, height: usize) -> (r: Vec<Line>)
        ensures
            paint::line_views(r@) == lines_of(self@, width as int, height as int),
    {
        let ghost want = lines_of(self@, width as int, height as int);
        let visible: usize = if height > 0 {
            height - 1
        } else {
            0
        };
        let n: usize = self.rows.len();
        let mut out: Vec<Line> = Vec::new();
        let mut i: usize = 0;
        while i < visible
            invariant
                i <= visible,
                n == self.rows@.len(),
                visible == (if height > 0 {
                    height - 1
                } else {
                    0
                }),
                out@.len() == i,
                forall|j: int|
                    0 <= j < i ==> (#[trigger] out@[j])@ == line_at(
                        self@,
                        width as int,
                        self.top + j,
                        j == 0,
                    ),
            decreases visible - i,
        {
            if self.top < n && i < n - self.top {
                let at: usize = self.top + i;
                assert(self@.rows[at as int] == self.rows@[at as int]@);
                let label = self.rows[at].label();
                let mark = if at == self.sel {
                    " > "
                } else {
                    "   "
                };
                let line = text::cat2(mark, label.as_str());
                let mut style = Style::plain();
                if at == self.sel {
                    style.bold = true;
                    style.reversed = true;
                } else if self.rows[at].dirlike() {
                    style = Style::colored(Color::Cyan);
                }
                out.push(paint::styled(escape::clip(line.as_str(), width), style));
            } else if n == 0 && i == 0 {
                out.push(paint::styled(" (empty)".to_owned(), Style::colored(Color::DarkGray)));
            } else {
                out.push(paint::blank());
            }
            i += 1;
        }
        if height > 0 {
            let line = if self.err.as_str().unicode_len() == 0 {
                let hint = self.hint();
                paint::styled(escape::clip(hint.as_str(), width), Style::colored(Color::DarkGray))
            } else {
                let problem = text::cat2("! ", self.err.as_str());
                paint::styled(escape::clip(problem.as_str(), width), Style::colored(Color::Red))
            };
            out.push(line);
        }
        assert(paint::line_views(out@) =~= want);
        out
    }
}

fn is_code(k: Key, code: KeyCode) -> (r: bool)
    ensures
        r == (k.code_of() == Some(code)),
{
    match k.code() {
        Some(c) => c == code,
        None => false,
    }
}

/// One line of the picker.
pub open spec fn line_at(st: StateView, width: int, at: int, first: bool) -> Seq<SpanView> {
    if at < st.rows.len() {
        paint::styled_of(
            escape::clip_of(
                (if at == st.sel {
                    " > "@
                } else {
                    "   "@
                }) + st.rows[at].label_of(),
                width,
            ),
            if at == st.sel {
                Style { bold: true, reversed: true, ..Style::plain_of() }
            } else if st.rows[at].is_dirlike() {
                Style::fg_of(Color::Cyan)
            } else {
                Style::plain_of()
            },
        )
    } else if st.rows.len() == 0 && first {
        paint::styled_of(" (empty)"@, Style::fg_of(Color::DarkGray))
    } else {
        seq![]
    }
}

/// The lines of the picker.
pub open spec fn lines_of(st: StateView, width: int, height: int) -> Seq<Seq<SpanView>> {
    if height <= 0 {
        seq![]
    } else {
        Seq::new((height - 1) as nat, |i: int| line_at(st, width, st.top + i, i == 0)).push(
            if st.err.len() == 0 {
                paint::styled_of(
                    escape::clip_of(
                        if st.mode is File {
                            "Enter descends/selects   h/\u{2190} up   H hidden   Esc cancels"@
                        } else {
                            "Enter descends/selects   Ctrl-S takes this dir   h/\u{2190} up   H hidden   Esc cancels"@
                        },
                        width,
                    ),
                    Style::fg_of(Color::DarkGray),
                )
            } else {
                paint::styled_of(
                    escape::clip_of("! "@ + st.err, width),
                    Style::fg_of(Color::Red),
                )
            },
        )
    }
}

/// A directory that cannot be read leaves the picker where it was.
pub proof fn law_failed_descent_stays(
    st: StateView,
    dir: Seq<char>,
    select: Option<Seq<char>>,
    e: Seq<char>,
)
    ensures
        ({
            let after = opened_of(st, dir, select, Err(e));
            after.dir == st.dir && after.rows == st.rows && after.sel == st.sel
        }),
{
}

proof fn lemma_named_row(rows: Seq<RowView>, name: Seq<char>)
    ensures
        match named_row(rows, name) {
            Some(i) => 0 <= i < rows.len() && (rows[i] matches RowView::Entry(e) && e.name == name),
            None => forall|i: int|
                0 <= i < rows.len() ==> !((#[trigger] rows[i]) matches RowView::Entry(e) && e.name
                    == name),
        },
    decreases rows.len(),
{
    if rows.len() > 0 {
        lemma_named_row(rows.skip(1), name);
        match named_row(rows, name) {
            Some(i) => {
                if i > 0 {
                    assert(rows[i] == rows.skip(1)[i - 1]);
                }
            },
            None => {
                assert forall|i: int| 0 <= i < rows.len() implies !((#[trigger] rows[i]) matches
                    RowView::Entry(e) && e.name == name) by {
                    if i > 0 {
                        assert(rows[i] == rows.skip(1)[i - 1]);
                    }
                }
            },
        }
    }
}

/// Going up selects the directory just left, where the listing shows it.
pub proof fn law_ascending_reselects(st: StateView, found: Seq<EntryView>, i: int)
    requires
        paths::parent_of(st.dir) is Some,
        paths::file_name_of(st.dir) is Some,
        ({
            let rows = opened_of(
                st,
                paths::parent_of(st.dir).unwrap(),
                paths::file_name_of(st.dir),
                Ok(found),
            ).rows;
            &&& 0 <= i < rows.len()
            &&& rows[i] == RowView::Entry(
                EntryView { name: paths::file_name_of(st.dir).unwrap(), is_dir: true },
            )
        }),
    ensures
        ({
            let after = opened_of(
                st,
                paths::parent_of(st.dir).unwrap(),
                paths::file_name_of(st.dir),
                Ok(found),
            );
            &&& 0 <= after.sel < after.rows.len()
            &&& after.rows[after.sel] matches RowView::Entry(e)
            &&& Some(e.name) == paths::file_name_of(st.dir)
        }),
{
    let name = paths::file_name_of(st.dir).unwrap();
    let rows = rows_of(st.mode, paths::parent_of(st.dir).unwrap(), listed_of(found, st.hidden));
    lemma_named_row(rows, name);
}

/// Browsing starts at the nearest directory that exists: the path itself, the
/// directory of a file, or what is left of a path that does not exist.
pub proof fn law_browsing_starts_nearby(
    paths: Seq<Seq<char>>,
    seen: Seq<Seen>,
    fallback: Seq<char>,
    i: int,
)
    requires
        paths.len() == seen.len(),
        0 <= i <= paths.len(),
        forall|j: int| 0 <= j < i ==> (#[trigger] seen[j]) is Nothing,
        i < paths.len() ==> !(seen[i] is Nothing),
    ensures
        start_of(paths, seen, fallback) == if i == paths.len() {
            fallback
        } else if seen[i] is Directory {
            paths[i]
        } else {
            above_of(paths[i])
        },
    decreases i,
{
    if i > 0 {
        assert(seen[0] is Nothing);
        assert forall|j: int| 0 <= j < i - 1 implies (#[trigger] seen.skip(1)[j]) is Nothing by {
            assert(seen.skip(1)[j] == seen[j + 1]);
        }
        law_browsing_starts_nearby(paths.skip(1), seen.skip(1), fallback, i - 1);
    }
}

} // verus!
