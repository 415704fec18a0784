//! Reading unit files back into the model.
//!
//! Every directive the model understands is lifted into a typed field.
//! Everything else -- and anything already inside a `notcron:manual` block --
//! is preserved verbatim in the unit's manual text, so opening a unit in the
//! builder and saving it again never silently drops a directive.

use crate::parts;
use crate::text;
use crate::unit::escape;
use crate::unit::generate;
use crate::unit::generate::{FileView, RenderedFile};
use crate::unit::model;
use crate::unit::model::{
    Body, MountPreset, MountUnit, RestartPolicy, Schedule, Scope, ServiceOpts, ServiceType,
    StandaloneService, TimerJob, Unit, MANUAL_HEADER, MARKER, X_MARKER,
};
use crate::unit::model::{
    BodyView, MountView, ScheduleView, ServiceView, StandaloneView, TimerView, UnitView,
};
use vstd::prelude::*;

verus! {

broadcast use vstd::string::group_string_axioms;

// ---------------------------------------------------------------------------
// Taking a file apart
// ---------------------------------------------------------------------------

/// One directive and the section it stands in.
#[derive(Debug)]
pub struct Directive {
    pub section: String,
    pub key: String,
    pub value: String,
}

/// The contents of a [`Directive`].
#[verifier::ext_equal]
pub struct DirView {
    pub section: Seq<char>,
    pub key: Seq<char>,
    pub value: Seq<char>,
}

impl View for Directive {
    type V = DirView;

    open spec fn view(&self) -> DirView {
        DirView { section: self.section@, key: self.key@, value: self.value@ }
    }
}

/// The contents of a list of directives.
pub open spec fn dir_views(v: Seq<Directive>) -> Seq<DirView> {
    Seq::new(v.len(), |i: int| v[i]@)
}

/// One unit file, decomposed.
#[derive(Debug)]
pub struct Scanned {
    /// `# schedule: ...` and friends, in order, without the `# `.
    pub comments: Vec<String>,
    /// The directives in file order.
    pub entries: Vec<Directive>,
    /// Everything after the manual header, verbatim.
    pub manual: String,
    pub owned: bool,
}

/// The contents of a [`Scanned`].
#[verifier::ext_equal]
pub struct ScanView {
    pub comments: Seq<Seq<char>>,
    pub entries: Seq<DirView>,
    pub manual: Seq<char>,
    pub owned: bool,
}

impl View for Scanned {
    type V = ScanView;

    open spec fn view(&self) -> ScanView {
        ScanView {
            comments: text::texts(self.comments@),
            entries: dir_views(self.entries@),
            manual: self.manual@,
            owned: self.owned,
        }
    }
}

/// What is known after some lines of a file.
#[verifier::ext_equal]
pub struct ScanState {
    pub comments: Seq<Seq<char>>,
    pub entries: Seq<DirView>,
    pub free: Seq<Seq<char>>,
    pub owned: bool,
    pub section: Seq<char>,
    pub in_manual: bool,
}

/// What is known before the first line.
pub open spec fn scan_start() -> ScanState {
    ScanState {
        comments: seq![],
        entries: seq![],
        free: seq![],
        owned: false,
        section: seq![],
        in_manual: false,
    }
}

/// What is known after one more line.
pub open spec fn scan_step(st: ScanState, line: Seq<char>) -> ScanState {
    let t = text::trim_of(line);
    if st.in_manual {
        ScanState { free: st.free.push(line), ..st }
    } else if t == MANUAL_HEADER@ || "# --- notcron:manual"@.is_prefix_of(t) {
        ScanState { in_manual: true, ..st }
    } else if t.len() == 0 {
        st
    } else if t == MARKER@ {
        ScanState { owned: true, ..st }
    } else if t[0] == '#' || t[0] == ';' {
        ScanState { comments: st.comments.push(text::trim_of(t.skip(1))), ..st }
    } else if t[0] == '[' && t.last() == ']' {
        ScanState { section: t.subrange(1, t.len() - 1), ..st }
    } else if t == X_MARKER@ {
        ScanState { owned: true, ..st }
    } else {
        match parts::split_once_of(t, '=') {
            Some((k, v)) => ScanState {
                entries: st.entries.push(
                    DirView {
                        section: st.section,
                        key: text::trim_of(k),
                        value: text::trim_of(v),
                    },
                ),
                ..st
            },
            None => st,
        }
    }
}

/// What is known after some lines.
pub open spec fn scan_lines(st: ScanState, lines: Seq<Seq<char>>) -> ScanState
    decreases lines.len(),
{
    if lines.len() == 0 {
        st
    } else {
        scan_step(scan_lines(st, lines.drop_last()), lines.last())
    }
}

/// What a file says.
pub open spec fn scan_of(body: Seq<char>) -> ScanView {
    let st = scan_lines(scan_start(), parts::lines_of(body));
    ScanView {
        comments: st.comments,
        entries: st.entries,
        manual: text::trim_end_of(parts::join_of(st.free, "\n"@)),
        owned: st.owned,
    }
}

/// What a file says that is not there.
pub open spec fn scan_nothing() -> ScanView {
    ScanView { comments: seq![], entries: seq![], manual: seq![], owned: false }
}

/// The running state of a scan.
struct Scanner {
    comments: Vec<String>,
    entries: Vec<Directive>,
    free: Vec<String>,
    owned: bool,
    section: String,
    in_manual: bool,
}

impl View for Scanner {
    type V = ScanState;

    closed spec fn view(&self) -> ScanState {
        ScanState {
            comments: text::texts(self.comments@),
            entries: dir_views(self.entries@),
            free: text::texts(self.free@),
            owned: self.owned,
            section: self.section@,
            in_manual: self.in_manual,
        }
    }
}

/// Whether a trimmed line starts the free-text block.
fn is_manual_header(t: &str) -> (r: bool)
    ensures
        r == (t@ == MANUAL_HEADER@ || "# --- notcron:manual"@.is_prefix_of(t@)),
{
    text::same(t, MANUAL_HEADER) || text::starts_with(t, "# --- notcron:manual")
}

impl Scanner {
    fn new() -> (r: Scanner)
        ensures
            r@ == scan_start(),
    {
        let r = Scanner {
            comments: Vec::new(),
            entries: Vec::new(),
            free: Vec::new(),
            owned: false,
            section: String::new(),
            in_manual: false,
        };
        assert(r@ =~= scan_start());
        r
    }

    fn step(&mut self, line: &str)
        ensures
            final(self)@ == scan_step(old(self)@, line@),
    {
        let ghost before = self@;
        if self.in_manual {
            self.free.push(line.to_owned());
            assert(self@.free =~= before.free.push(line@));
            return ;
        }
        let t = text::trim(line);
        let n: usize = t.unicode_len();
        if is_manual_header(t) {
            self.in_manual = true;
        } else if n == 0 {
        } else if text::same(t, MARKER) {
            self.owned = true;
        } else {
            let first = t.get_char(0);
            let last = t.get_char(n - 1);
            if first == '#' || first == ';' {
                let rest = t.substring_char(1, n);
                assert(rest@ =~= t@.skip(1));
                self.comments.push(text::trim(rest).to_owned());
                assert(self@.comments =~= before.comments.push(text::trim_of(t@.skip(1))));
            } else if first == '[' && last == ']' {
                self.section = t.substring_char(1, n - 1).to_owned();
            } else if text::same(t, X_MARKER) {
                self.owned = true;
            } else {
                match parts::split_once(t, '=') {
                    Some((k, v)) => {
                        let d = Directive {
                            section: self.section.clone(),
                            key: text::trim(k).to_owned(),
                            value: text::trim(v).to_owned(),
                        };
                        self.entries.push(d);
                        assert(self@.entries =~= before.entries.push(d@));
                    },
                    None => {},
                }
            }
        }
    }
}

fn scan(body: &str) -> (r: Scanned)
    ensures
        r@ == scan_of(body@),
{
    let lines = parts::lines(body);
    let ghost all = text::texts(lines@);
    let mut s = Scanner::new();
    let mut i: usize = 0;
    assert(all.take(0) =~= seq![]);
    while i < lines.len()
        invariant
            i <= lines@.len(),
            all == text::texts(lines@),
            s@ == scan_lines(scan_start(), all.take(i as int)),
        decreases lines@.len() - i,
    {
        proof {
            assert(all.take(i + 1).drop_last() =~= all.take(i as int));
            assert(all.take(i + 1).last() == lines@[i as int]@);
        }
        s.step(lines[i].as_str());
        i += 1;
    }
    assert(all.take(lines@.len() as int) =~= all);
    let joined = parts::join(&s.free, "\n");
    let manual = text::trim_end(joined.as_str()).to_owned();
    Scanned { comments: s.comments, entries: s.entries, manual, owned: s.owned }
}

// ---------------------------------------------------------------------------
// Leftovers
// ---------------------------------------------------------------------------

/// Collects directives the model does not model, re-emitting their section
/// headers so the result is a valid unit fragment.
struct Leftovers {
    text: String,
    last_section: Option<String>,
}

/// The contents of a collection of leftovers.
#[verifier::ext_equal]
pub struct LeftView {
    pub text: Seq<char>,
    pub last_section: Option<Seq<char>>,
}

impl View for Leftovers {
    type V = LeftView;

    closed spec fn view(&self) -> LeftView {
        LeftView { text: self.text@, last_section: text::opt_text(self.last_section) }
    }
}

/// No leftovers.
pub open spec fn no_leftovers() -> LeftView {
    LeftView { text: seq![], last_section: None }
}

/// The leftovers with one more directive.
pub open spec fn left_push(l: LeftView, d: DirView) -> LeftView {
    let head = if l.last_section == Some(d.section) {
        l.text
    } else if l.text.len() == 0 {
        l.text + "["@ + d.section + "]\n"@
    } else {
        l.text + "\n"@ + "["@ + d.section + "]\n"@
    };
    LeftView {
        text: head + d.key + "="@ + d.value + "\n"@,
        last_section: Some(d.section),
    }
}

/// The leftovers merged with the free text of the same file.
pub open spec fn left_finish(l: LeftView, existing: Seq<char>) -> Seq<char> {
    let a = text::trim_end_of(l.text);
    let b = text::trim_end_of(existing);
    if a.len() == 0 {
        b
    } else if b.len() == 0 {
        a
    } else {
        b + "\n"@ + a
    }
}

impl Leftovers {
    fn new() -> (r: Leftovers)
        ensures
            r@ == no_leftovers(),
    {
        Leftovers { text: String::new(), last_section: None }
    }

    fn push(&mut self, d: &Directive)
        ensures
            final(self)@ == left_push(old(self)@, d@),
    {
        let fresh = match &self.last_section {
            Some(s) => !text::same(s.as_str(), d.section.as_str()),
            None => true,
        };
        if fresh {
            if !self.text.as_str().is_empty() {
                self.text.push_str("\n");
            }
            self.text.push_str("[");
            self.text.push_str(d.section.as_str());
            self.text.push_str("]\n");
            self.last_section = Some(d.section.clone());
        }
        self.text.push_str(d.key.as_str());
        self.text.push_str("=");
        self.text.push_str(d.value.as_str());
        self.text.push_str("\n");
    }

    /// Merge with any pre-existing manual block from the same file.
    fn finish(&self, existing: &str) -> (r: String)
        ensures
            r@ == left_finish(self@, existing@),
    {
        let a = text::trim_end(self.text.as_str());
        let b = text::trim_end(existing);
        if a.is_empty() {
            b.to_owned()
        } else if b.is_empty() {
            a.to_owned()
        } else {
            text::cat3(b, "\n", a)
        }
    }
}

/// Whether two directives set the same thing.
pub open spec fn is_same_key(a: DirView, b: DirView) -> bool {
    a.section == b.section && a.key == b.key
}

/// Whether a directive is the description of its file.
pub open spec fn is_description(d: DirView) -> bool {
    d.section == "Unit"@ && d.key == "Description"@
}

/// Whether there is a directive of that section and key.
pub open spec fn has_key(ds: Seq<DirView>, d: DirView) -> bool {
    exists|i: int| 0 <= i < ds.len() && is_same_key(#[trigger] ds[i], d)
}

/// Whether a directive is kept as free text, given the ones before it and
/// those of them that are kept: it is, unless it is written from the model.
/// Free text stands at the end of a file, where a later directive goes over
/// or beyond an earlier one, so behind one that is kept every other of its
/// key is kept too. The description of a derived file is made from another
/// file's and never kept.
pub open spec fn is_kept(
    before: Seq<DirView>,
    kept: Seq<DirView>,
    written: Seq<DirView>,
    derived: bool,
    d: DirView,
) -> bool {
    &&& !(derived && is_description(d) && !has_key(before, d))
    &&& !written.contains(d) || has_key(kept, d)
}

/// The directives of a file that are kept as free text where those of
/// `written` are written from the model.
pub open spec fn kept_of(ds: Seq<DirView>, written: Seq<DirView>, derived: bool) -> Seq<DirView>
    decreases ds.len(),
{
    if ds.len() == 0 {
        seq![]
    } else {
        let before = ds.drop_last();
        let kept = kept_of(before, written, derived);
        if is_kept(before, kept, written, derived, ds.last()) {
            kept.push(ds.last())
        } else {
            kept
        }
    }
}

/// The leftovers with those directives added that stand in the section
/// `Service`, or those that do not.
pub open spec fn left_all(l: LeftView, ds: Seq<DirView>, service: bool) -> LeftView
    decreases ds.len(),
{
    if ds.len() == 0 {
        l
    } else if (ds.last().section == "Service"@) == service {
        left_push(left_all(l, ds.drop_last(), service), ds.last())
    } else {
        left_all(l, ds.drop_last(), service)
    }
}

/// The free text of a file: what it has already, and the directives that are
/// kept, those of the section `Service` first.
pub open spec fn free_of(file: ScanView, written: Seq<DirView>, derived: bool) -> Seq<char> {
    let kept = kept_of(file.entries, written, derived);
    left_finish(left_all(left_all(no_leftovers(), kept, true), kept, false), file.manual)
}

fn same_key(a: &Directive, b: &Directive) -> (r: bool)
    ensures
        r == is_same_key(a@, b@),
{
    text::same(a.section.as_str(), b.section.as_str()) && text::same(a.key.as_str(), b.key.as_str())
}

/// Whether one of the first `n` directives has that section and key.
fn any_of_key(entries: &Vec<Directive>, n: usize, d: &Directive) -> (r: bool)
    requires
        n <= entries@.len(),
    ensures
        r == has_key(dir_views(entries@).take(n as int), d@),
{
    let ghost all = dir_views(entries@).take(n as int);
    let mut i: usize = 0;
    while i < n
        invariant
            i <= n <= entries@.len(),
            all == dir_views(entries@).take(n as int),
            forall|k: int| 0 <= k < i ==> !is_same_key(#[trigger] all[k], d@),
        decreases n - i,
    {
        assert(all[i as int] == entries@[i as int]@);
        if same_key(&entries[i], d) {
            return true;
        }
        i += 1;
    }
    false
}

/// Whether a directive is among some.
fn holds(entries: &Vec<Directive>, d: &Directive) -> (r: bool)
    ensures
        r == dir_views(entries@).contains(d@),
{
    let ghost all = dir_views(entries@);
    let mut i: usize = 0;
    while i < entries.len()
        invariant
            i <= entries@.len(),
            all == dir_views(entries@),
            forall|k: int| 0 <= k < i ==> #[trigger] all[k] != d@,
        decreases entries@.len() - i,
    {
        assert(all[i as int] == entries@[i as int]@);
        if same_key(&entries[i], d) && text::same(entries[i].value.as_str(), d.value.as_str()) {
            assert(all[i as int] =~= d@);
            return true;
        }
        i += 1;
    }
    false
}

fn copy(d: &Directive) -> (r: Directive)
    ensures
        r@ == d@,
{
    Directive { section: d.section.clone(), key: d.key.clone(), value: d.value.clone() }
}

fn keep(entries: &Vec<Directive>, written: &Vec<Directive>, derived: bool) -> (r: Vec<Directive>)
    ensures
        dir_views(r@) == kept_of(dir_views(entries@), dir_views(written@), derived),
{
    let ghost all = dir_views(entries@);
    let ghost w = dir_views(written@);
    let mut kept: Vec<Directive> = Vec::new();
    let mut i: usize = 0;
    assert(all.take(0) =~= seq![]);
    assert(dir_views(kept@) =~= seq![]);
    while i < entries.len()
        invariant
            i <= entries@.len(),
            all == dir_views(entries@),
            w == dir_views(written@),
            dir_views(kept@) == kept_of(all.take(i as int), w, derived),
        decreases entries@.len() - i,
    {
        let d = &entries[i];
        proof {
            assert(all.take(i + 1).drop_last() =~= all.take(i as int));
            assert(all.take(i + 1).last() == d@);
            assert(dir_views(kept@).take(kept@.len() as int) =~= dir_views(kept@));
        }
        let ghost before = dir_views(kept@);
        let made = derived && text::same(d.section.as_str(), "Unit") && text::same(
            d.key.as_str(),
            "Description",
        ) && !any_of_key(entries, i, d);
        if !made && (!holds(written, d) || any_of_key(&kept, kept.len(), d)) {
            kept.push(copy(d));
            assert(dir_views(kept@) =~= before.push(d@));
        }
        i += 1;
    }
    assert(all.take(entries@.len() as int) =~= all);
    kept
}

fn take_left(left: &mut Leftovers, entries: &Vec<Directive>, service: bool)
    ensures
        final(left)@ == left_all(old(left)@, dir_views(entries@), service),
{
    let ghost all = dir_views(entries@);
    let ghost start = left@;
    let mut i: usize = 0;
    assert(all.take(0) =~= seq![]);
    while i < entries.len()
        invariant
            i <= entries@.len(),
            all == dir_views(entries@),
            left@ == left_all(start, all.take(i as int), service),
        decreases entries@.len() - i,
    {
        proof {
            assert(all.take(i + 1).drop_last() =~= all.take(i as int));
            assert(all.take(i + 1).last() == entries@[i as int]@);
        }
        if text::same(entries[i].section.as_str(), "Service") == service {
            left.push(&entries[i]);
        }
        i += 1;
    }
    assert(all.take(entries@.len() as int) =~= all);
}

/// The free text of a file, given what is written of it from the model.
fn free_text(file: &Scanned, written: &Scanned, derived: bool) -> (r: String)
    ensures
        r@ == free_of(file@, written@.entries, derived),
{
    let kept = keep(&file.entries, &written.entries, derived);
    let mut left = Leftovers::new();
    take_left(&mut left, &kept, true);
    take_left(&mut left, &kept, false);
    left.finish(file.manual.as_str())
}

// ---------------------------------------------------------------------------
// Lookups
// ---------------------------------------------------------------------------

/// The value of the first directive of that section and key.
pub open spec fn first_of(ds: Seq<DirView>, section: Seq<char>, key: Seq<char>) -> Option<Seq<char>>
    decreases ds.len(),
{
    if ds.len() == 0 {
        None
    } else if ds[0].section == section && ds[0].key == key {
        Some(ds[0].value)
    } else {
        first_of(ds.skip(1), section, key)
    }
}

/// The same, or nothing where there is no such directive.
pub open spec fn first_or_empty(ds: Seq<DirView>, section: Seq<char>, key: Seq<char>) -> Seq<char> {
    match first_of(ds, section, key) {
        Some(v) => v,
        None => seq![],
    }
}

/// The values of all directives of that section and key.
pub open spec fn all_of(ds: Seq<DirView>, section: Seq<char>, key: Seq<char>) -> Seq<Seq<char>>
    decreases ds.len(),
{
    if ds.len() == 0 {
        seq![]
    } else if ds.last().section == section && ds.last().key == key {
        all_of(ds.drop_last(), section, key).push(ds.last().value)
    } else {
        all_of(ds.drop_last(), section, key)
    }
}

/// The description that a file gives.
pub open spec fn description_of(ds: Seq<DirView>) -> Seq<char> {
    first_or_empty(ds, "Unit"@, "Description"@)
}

/// The description of a mount, from that of its automount: without the words
/// that are added to it there.
pub open spec fn mount_description_of(s: Seq<char>) -> Seq<char> {
    text::trim_of(text::without_suffix(" "@ + s, " (automount)"@))
}

/// What the first `schedule:` comment says.
pub open spec fn source_of(comments: Seq<Seq<char>>) -> Seq<char>
    decreases comments.len(),
{
    if comments.len() == 0 {
        seq![]
    } else {
        match text::after_prefix(comments[0], "schedule:"@) {
            Some(s) => text::trim_of(s),
            None => source_of(comments.skip(1)),
        }
    }
}

fn first(entries: &Vec<Directive>, section: &str, key: &str) -> (r: Option<String>)
    ensures
        text::opt_text(r) == first_of(dir_views(entries@), section@, key@),
{
    let ghost all = dir_views(entries@);
    let mut i: usize = 0;
    assert(all.skip(0) =~= all);
    while i < entries.len()
        invariant
            i <= entries@.len(),
            all == dir_views(entries@),
            first_of(all, section@, key@) == first_of(all.skip(i as int), section@, key@),
        decreases entries@.len() - i,
    {
        assert(all.skip(i as int)[0] == entries@[i as int]@);
        if text::same(entries[i].section.as_str(), section) && text::same(
            entries[i].key.as_str(),
            key,
        ) {
            return Some(entries[i].value.clone());
        }
        assert(all.skip(i as int).skip(1) =~= all.skip(i + 1));
        i += 1;
    }
    None
}

fn first_text(entries: &Vec<Directive>, section: &str, key: &str) -> (r: String)
    ensures
        r@ == first_or_empty(dir_views(entries@), section@, key@),
{
    match first(entries, section, key) {
        Some(v) => v,
        None => String::new(),
    }
}

fn all(entries: &Vec<Directive>, section: &str, key: &str) -> (r: Vec<String>)
    ensures
        text::texts(r@) == all_of(dir_views(entries@), section@, key@),
{
    let ghost ds = dir_views(entries@);
    let mut out: Vec<String> = Vec::new();
    let mut i: usize = 0;
    assert(ds.take(0) =~= seq![]);
    assert(text::texts(out@) =~= seq![]);
    while i < entries.len()
        invariant
            i <= entries@.len(),
            ds == dir_views(entries@),
            text::texts(out@) == all_of(ds.take(i as int), section@, key@),
        decreases entries@.len() - i,
    {
        proof {
            assert(ds.take(i + 1).drop_last() =~= ds.take(i as int));
            assert(ds.take(i + 1).last() == entries@[i as int]@);
        }
        let ghost before = text::texts(out@);
        if text::same(entries[i].section.as_str(), section) && text::same(
            entries[i].key.as_str(),
            key,
        ) {
            out.push(entries[i].value.clone());
            assert(text::texts(out@) =~= before.push(entries@[i as int]@.value));
        }
        i += 1;
    }
    assert(ds.take(entries@.len() as int) =~= ds);
    out
}

fn description(entries: &Vec<Directive>) -> (r: String)
    ensures
        r@ == description_of(dir_views(entries@)),
{
    first_text(entries, "Unit", "Description")
}

fn mount_description(s: &str) -> (r: String)
    ensures
        r@ == mount_description_of(s@),
{
    let full = text::cat2(" ", s);
    let cut = text::drop_suffix(full.as_str(), " (automount)");
    text::trim(cut.as_str()).to_owned()
}

fn source(comments: &Vec<String>) -> (r: String)
    ensures
        r@ == source_of(text::texts(comments@)),
{
    let ghost all = text::texts(comments@);
    let mut i: usize = 0;
    assert(all.skip(0) =~= all);
    while i < comments.len()
        invariant
            i <= comments@.len(),
            all == text::texts(comments@),
            source_of(all) == source_of(all.skip(i as int)),
        decreases comments@.len() - i,
    {
        assert(all.skip(i as int)[0] == comments@[i as int]@);
        match text::strip_prefix(comments[i].as_str(), "schedule:") {
            Some(s) => {
                return text::trim(s).to_owned();
            },
            None => {},
        }
        assert(all.skip(i as int).skip(1) =~= all.skip(i + 1));
        i += 1;
    }
    String::new()
}

// ---------------------------------------------------------------------------
// The service section
// ---------------------------------------------------------------------------

/// The service settings that directives give, where nothing else is said a
/// service of type `t`: the first directive of each key counts.
#[verifier::opaque]
pub open spec fn service_from(t: ServiceType, ds: Seq<DirView>) -> ServiceView {
    ServiceView {
        service_type: match first_of(ds, "Service"@, "Type"@) {
            Some(v) => match ServiceType::named(v) {
                Some(n) => n,
                None => t,
            },
            None => t,
        },
        exec_start: first_or_empty(ds, "Service"@, "ExecStart"@),
        exec_start_pre: first_of(ds, "Service"@, "ExecStartPre"@),
        exec_stop_post: first_of(ds, "Service"@, "ExecStopPost"@),
        working_directory: first_of(ds, "Service"@, "WorkingDirectory"@),
        run_as: first_of(ds, "Service"@, "User"@),
        group: first_of(ds, "Service"@, "Group"@),
        environment: all_of(ds, "Service"@, "Environment"@),
        restart: match first_of(ds, "Service"@, "Restart"@) {
            Some(v) => match RestartPolicy::named(v) {
                Some(p) => p,
                None => RestartPolicy::No,
            },
            None => RestartPolicy::No,
        },
        restart_sec: first_of(ds, "Service"@, "RestartSec"@),
    }
}

fn read_service(t: ServiceType, entries: &Vec<Directive>) -> (r: ServiceOpts)
    ensures
        r@ == service_from(t, dir_views(entries@)),
{
    reveal(service_from);
    let service_type = match first(entries, "Service", "Type") {
        Some(v) => match ServiceType::parse(v.as_str()) {
            Some(n) => n,
            None => t,
        },
        None => t,
    };
    let restart = match first(entries, "Service", "Restart") {
        Some(v) => match RestartPolicy::parse(v.as_str()) {
            Some(p) => p,
            None => RestartPolicy::No,
        },
        None => RestartPolicy::No,
    };
    ServiceOpts {
        service_type,
        exec_start: first_text(entries, "Service", "ExecStart"),
        exec_start_pre: first(entries, "Service", "ExecStartPre"),
        exec_stop_post: first(entries, "Service", "ExecStopPost"),
        working_directory: first(entries, "Service", "WorkingDirectory"),
        run_as: first(entries, "Service", "User"),
        group: first(entries, "Service", "Group"),
        environment: all(entries, "Service", "Environment"),
        restart,
        restart_sec: first(entries, "Service", "RestartSec"),
    }
}

// ---------------------------------------------------------------------------
// Timers
// ---------------------------------------------------------------------------

/// The schedule of a timer, if it has one.
pub open spec fn schedule_from(ds: Seq<DirView>) -> Option<ScheduleView> {
    let calendars = all_of(ds, "Timer"@, "OnCalendar"@);
    if calendars.len() > 0 {
        Some(ScheduleView::Calendar(calendars))
    } else {
        match (first_of(ds, "Timer"@, "OnBootSec"@), first_of(ds, "Timer"@, "OnUnitActiveSec"@)) {
            (Some(boot), Some(every)) => Some(ScheduleView::Every { every, boot }),
            (Some(boot), None) => Some(ScheduleView::Boot { boot }),
            _ => None,
        }
    }
}

/// Whether a timer catches up on missed runs.
pub open spec fn persistent_from(ds: Seq<DirView>) -> bool {
    let v = first_or_empty(ds, "Timer"@, "Persistent"@);
    v == "true"@ || v == "yes"@ || v == "1"@
}

/// The unit that a timer and its service describe, without free text.
pub open spec fn bare_timer(
    scope: Scope,
    stem: Seq<char>,
    timer: ScanView,
    service: ScanView,
    schedule: ScheduleView,
) -> UnitView {
    UnitView {
        name: model::unprefixed_of(stem),
        description: description_of(service.entries),
        scope,
        body: BodyView::Timer(
            TimerView {
                source: source_of(service.comments),
                schedule,
                persistent: persistent_from(timer.entries),
                randomized_delay: first_of(timer.entries, "Timer"@, "RandomizedDelaySec"@),
                service: service_from(ServiceType::Oneshot, service.entries),
                timer_manual: seq![],
                service_manual: seq![],
            },
        ),
    }
}

/// The directives that are written of a unit into its file at position `i`.
pub open spec fn written_at(u: UnitView, i: int) -> Seq<DirView> {
    scan_of(generate::render_of(u)[i].body).entries
}

/// The unit that a timer and its service describe.
#[verifier::opaque]
pub open spec fn timer_of(
    scope: Scope,
    stem: Seq<char>,
    timer: ScanView,
    service: ScanView,
) -> Result<UnitView, Seq<char>> {
    match schedule_from(timer.entries) {
        None => Err(stem + ".timer has no schedule directives"@),
        Some(schedule) => {
            let bare = bare_timer(scope, stem, timer, service, schedule);
            Ok(
                UnitView {
                    body: BodyView::Timer(
                        TimerView {
                            timer_manual: free_of(timer, written_at(bare, 0), true),
                            service_manual: free_of(service, written_at(bare, 1), false),
                            ..bare.body->Timer_0
                        },
                    ),
                    ..bare
                },
            )
        },
    }
}

fn read_schedule(entries: &Vec<Directive>) -> (r: Option<Schedule>)
    ensures
        match r {
            Some(s) => schedule_from(dir_views(entries@)) == Some(s@),
            None => schedule_from(dir_views(entries@)) is None,
        },
{
    let calendars = all(entries, "Timer", "OnCalendar");
    if calendars.len() > 0 {
        return Some(Schedule::Calendar(calendars));
    }
    match first(entries, "Timer", "OnBootSec") {
        Some(boot) => match first(entries, "Timer", "OnUnitActiveSec") {
            Some(every) => Some(Schedule::Every { every, boot }),
            None => Some(Schedule::Boot { boot }),
        },
        None => None,
    }
}

/// What is written of a unit into its file at position `i`.
fn written(files: &Vec<RenderedFile>, i: usize) -> (r: Scanned)
    requires
        i < files@.len(),
    ensures
        r@ == scan_of(generate::file_views(files@)[i as int].body),
{
    scan(files[i].body.as_str())
}

fn parse_timer(scope: Scope, stem: &str, timer: &Scanned, service: &Scanned) -> (r: Result<
    Unit,
    String,
>)
    ensures
        match r {
            Ok(u) => timer_of(scope, stem@, timer@, service@) == Ok::<UnitView, Seq<char>>(u@),
            Err(e) => timer_of(scope, stem@, timer@, service@) == Err::<UnitView, Seq<char>>(e@),
        },
{
    reveal(timer_of);
    let schedule = match read_schedule(&timer.entries) {
        Some(s) => s,
        None => {
            return Err(text::cat2(stem, ".timer has no schedule directives"));
        },
    };
    let ghost when = schedule@;
    let caught = first_text(&timer.entries, "Timer", "Persistent");
    let v = caught.as_str();
    let t = TimerJob {
        source: source(&service.comments),
        schedule,
        persistent: text::same(v, "true") || text::same(v, "yes") || text::same(v, "1"),
        randomized_delay: first(&timer.entries, "Timer", "RandomizedDelaySec"),
        service: read_service(ServiceType::Oneshot, &service.entries),
        timer_manual: String::new(),
        service_manual: String::new(),
    };
    let bare = Unit {
        name: model::unprefixed(stem),
        description: description(&service.entries),
        scope,
        body: Body::Timer(Box::new(t.clone())),
    };
    assert(t@ =~= bare_timer(scope, stem@, timer@, service@, when).body->Timer_0);
    assert(bare@ =~= bare_timer(scope, stem@, timer@, service@, when));
    let files = generate::render(&bare);
    assert(generate::file_views(files@).len() == files@.len());
    let full = TimerJob {
        timer_manual: free_text(timer, &written(&files, 0), true),
        service_manual: free_text(service, &written(&files, 1), false),
        ..t
    };
    Ok(
        Unit {
            name: bare.name,
            description: bare.description,
            scope,
            body: Body::Timer(Box::new(full)),
        },
    )
}

// ---------------------------------------------------------------------------
// Services and mounts
// ---------------------------------------------------------------------------

/// The unit that a standalone service file describes, without free text.
pub open spec fn bare_service(scope: Scope, stem: Seq<char>, s: ScanView) -> UnitView {
    UnitView {
        name: model::unprefixed_of(stem),
        description: description_of(s.entries),
        scope,
        body: BodyView::Service(
            StandaloneView {
                service: service_from(ServiceType::Simple, s.entries),
                wanted_by: first_or_empty(s.entries, "Install"@, "WantedBy"@),
                manual: seq![],
            },
        ),
    }
}

/// The unit that a standalone service file describes.
#[verifier::opaque]
pub open spec fn service_of(scope: Scope, stem: Seq<char>, s: ScanView) -> UnitView {
    let bare = bare_service(scope, stem, s);
    UnitView {
        body: BodyView::Service(
            StandaloneView {
                manual: free_of(s, written_at(bare, 0), false),
                ..bare.body->Service_0
            },
        ),
        ..bare
    }
}

fn parse_service(scope: Scope, stem: &str, s: &Scanned) -> (r: Unit)
    ensures
        r@ == service_of(scope, stem@, s@),
{
    reveal(service_of);
    let body = StandaloneService {
        service: read_service(ServiceType::Simple, &s.entries),
        wanted_by: first_text(&s.entries, "Install", "WantedBy"),
        manual: String::new(),
    };
    let bare = Unit {
        name: model::unprefixed(stem),
        description: description(&s.entries),
        scope,
        body: Body::Service(Box::new(body.clone())),
    };
    assert(body@ =~= bare_service(scope, stem@, s@).body->Service_0);
    assert(bare@ =~= bare_service(scope, stem@, s@));
    let files = generate::render(&bare);
    assert(generate::file_views(files@).len() == files@.len());
    let full = StandaloneService { manual: free_text(s, &written(&files, 0), false), ..body };
    Unit {
        name: bare.name,
        description: bare.description,
        scope,
        body: Body::Service(Box::new(full)),
    }
}

/// The unit that a mount and its automount describe, without free text.
pub open spec fn bare_mount(
    scope: Scope,
    stem: Seq<char>,
    am: ScanView,
    mnt: ScanView,
    automount: bool,
) -> UnitView {
    let fstype = first_or_empty(mnt.entries, "Mount"@, "Type"@);
    UnitView {
        name: stem,
        description: if automount {
            mount_description_of(description_of(am.entries))
        } else {
            description_of(mnt.entries)
        },
        scope,
        body: BodyView::Mount(
            MountView {
                preset: MountPreset::for_fstype(fstype),
                what: first_or_empty(mnt.entries, "Mount"@, "What"@),
                where_: match first_of(mnt.entries, "Mount"@, "Where"@) {
                    Some(w) => w,
                    None => escape::unescape_path_of(stem),
                },
                fstype,
                options: first_or_empty(mnt.entries, "Mount"@, "Options"@),
                automount,
                timeout_idle: first_of(am.entries, "Automount"@, "TimeoutIdleSec"@),
                manual: seq![],
                automount_manual: seq![],
            },
        ),
    }
}

/// The unit that a mount and its automount describe.
#[verifier::opaque]
pub open spec fn mount_of(
    scope: Scope,
    stem: Seq<char>,
    am: ScanView,
    mnt: ScanView,
    automount: bool,
) -> UnitView {
    let bare = bare_mount(scope, stem, am, mnt, automount);
    UnitView {
        body: BodyView::Mount(
            if automount {
                MountView {
                    manual: free_of(mnt, written_at(bare, 1), true),
                    automount_manual: free_of(am, written_at(bare, 0), false),
                    ..bare.body->Mount_0
                }
            } else {
                MountView {
                    manual: free_of(mnt, written_at(bare, 0), false),
                    ..bare.body->Mount_0
                }
            },
        ),
        ..bare
    }
}

fn parse_mount(scope: Scope, stem: &str, am: &Scanned, mnt: &Scanned, automount: bool) -> (r: Unit)
    ensures
        r@ == mount_of(scope, stem@, am@, mnt@, automount),
{
    reveal(mount_of);
    let fstype = first_text(&mnt.entries, "Mount", "Type");
    let m = MountUnit {
        preset: MountPreset::of_fstype(fstype.as_str()),
        what: first_text(&mnt.entries, "Mount", "What"),
        where_: match first(&mnt.entries, "Mount", "Where") {
            Some(w) => w,
            None => escape::unescape_path(stem),
        },
        fstype,
        options: first_text(&mnt.entries, "Mount", "Options"),
        automount,
        timeout_idle: first(&am.entries, "Automount", "TimeoutIdleSec"),
        manual: String::new(),
        automount_manual: String::new(),
    };
    let description = if automount {
        mount_description(description(&am.entries).as_str())
    } else {
        description(&mnt.entries)
    };
    let bare = Unit {
        name: stem.to_owned(),
        description,
        scope,
        body: Body::Mount(Box::new(m.clone())),
    };
    let ghost want = bare_mount(scope, stem@, am@, mnt@, automount);
    assert(m@ =~= want.body->Mount_0);
    assert(bare@ =~= want);
    let files = generate::render(&bare);
    assert(generate::file_views(files@).len() == files@.len());
    let full = if automount {
        MountUnit {
            manual: free_text(mnt, &written(&files, 1), true),
            automount_manual: free_text(am, &written(&files, 0), false),
            ..m
        }
    } else {
        MountUnit { manual: free_text(mnt, &written(&files, 0), false), ..m }
    };
    Unit {
        name: bare.name,
        description: bare.description,
        scope,
        body: Body::Mount(Box::new(full)),
    }
}

// ---------------------------------------------------------------------------
// Units
// ---------------------------------------------------------------------------

/// A unit file read off disk.
#[derive(Debug, Clone)]
pub struct SourceFile {
    pub name: String,
    pub body: String,
}

impl View for SourceFile {
    type V = FileView;

    open spec fn view(&self) -> FileView {
        FileView { name: self.name@, body: self.body@ }
    }
}

/// The contents of a list of files.
pub open spec fn source_views(v: Seq<SourceFile>) -> Seq<FileView> {
    Seq::new(v.len(), |i: int| v[i]@)
}

/// Whether one of the files carries an ownership mark.
pub open spec fn any_owned(files: Seq<FileView>) -> bool {
    exists|i: int| 0 <= i < files.len() && scan_of((#[trigger] files[i]).body).owned
}

/// What the file at position `i` says.
pub open spec fn scan_at(files: Seq<FileView>, i: int) -> ScanView {
    if i < files.len() {
        scan_of(files[i].body)
    } else {
        scan_nothing()
    }
}

/// The unit that some files describe, and whether this program wrote them; or
/// why they describe none.
pub open spec fn parse_of(scope: Scope, files: Seq<FileView>) -> Result<
    (UnitView, bool),
    Seq<char>,
> {
    if files.len() == 0 {
        Err("no unit files given"@)
    } else {
        let name = files[0].name;
        match parts::rsplit_once_of(name, '.') {
            None => Err("'"@ + name + "' has no unit suffix"@),
            Some((stem, _)) => {
                let owned = any_owned(files);
                if ".timer"@.is_suffix_of(name) {
                    match timer_of(scope, stem, scan_at(files, 0), scan_at(files, 1)) {
                        Ok(u) => Ok((u, owned)),
                        Err(e) => Err(e),
                    }
                } else if ".automount"@.is_suffix_of(name) {
                    Ok((mount_of(scope, stem, scan_at(files, 0), scan_at(files, 1), true), owned))
                } else if ".mount"@.is_suffix_of(name) {
                    Ok((mount_of(scope, stem, scan_nothing(), scan_at(files, 0), false), owned))
                } else if ".service"@.is_suffix_of(name) {
                    Ok((service_of(scope, stem, scan_at(files, 0)), owned))
                } else {
                    Err("unsupported unit type '"@ + name + "'"@)
                }
            },
        }
    }
}

/// What a file says that is not there.
fn nothing() -> (r: Scanned)
    ensures
        r@ == scan_nothing(),
{
    let r = Scanned {
        comments: Vec::new(),
        entries: Vec::new(),
        manual: String::new(),
        owned: false,
    };
    assert(r@ =~= scan_nothing());
    r
}

/// Parse a unit from its files. The primary file (`.timer`, `.automount` or
/// `.service`/`.mount`) must come first, matching [`Unit::filenames`].
///
/// Returns an error only for input that is not a unit at all; unrecognised
/// directives are preserved rather than rejected.
pub fn parse(scope: Scope, files: &[SourceFile]) -> (r: Result<(Unit, bool), String>)
    ensures
        match r {
            Ok(p) => parse_of(scope, source_views(files@)) == Ok::<(UnitView, bool), Seq<char>>(
                (p.0@, p.1),
            ),
            Err(e) => parse_of(scope, source_views(files@)) == Err::<(UnitView, bool), Seq<char>>(
                e@,
            ),
        },
{
    let ghost views = source_views(files@);
    if files.len() == 0 {
        return Err("no unit files given".to_owned());
    }
    assert(views[0] == files@[0]@);
    let name = files[0].name.as_str();
    let stem = match parts::rsplit_once(name, '.') {
        Some((s, _)) => s,
        None => {
            return Err(text::cat3("'", name, "' has no unit suffix"));
        },
    };
    let scan0 = scan(files[0].body.as_str());
    let scan1 = if files.len() > 1 {
        assert(views[1] == files@[1]@);
        scan(files[1].body.as_str())
    } else {
        nothing()
    };
    let mut owned = false;
    let mut i: usize = 0;
    while i < files.len()
        invariant
            i <= files@.len(),
            views == source_views(files@),
            owned == exists|k: int| 0 <= k < i && scan_of((#[trigger] views[k]).body).owned,
        decreases files@.len() - i,
    {
        let s = scan(files[i].body.as_str());
        assert(views[i as int] == files@[i as int]@);
        if s.owned {
            owned = true;
        }
        i += 1;
    }
    assert(owned == any_owned(views));
    if text::ends_with(name, ".timer") {
        match parse_timer(scope, stem, &scan0, &scan1) {
            Ok(u) => Ok((u, owned)),
            Err(e) => Err(e),
        }
    } else if text::ends_with(name, ".automount") {
        Ok((parse_mount(scope, stem, &scan0, &scan1, true), owned))
    } else if text::ends_with(name, ".mount") {
        let none = nothing();
        Ok((parse_mount(scope, stem, &none, &scan0, false), owned))
    } else if text::ends_with(name, ".service") {
        Ok((parse_service(scope, stem, &scan0), owned))
    } else {
        Err(text::cat3("unsupported unit type '", name, "'"))
    }
}

} // verus!
