//! What reading gives back of what was written.
//!
//! [`law_round_trip`] is the contract between [`super::generate`] and
//! [`super::parse`]: a unit that has been written and read again is the same
//! unit, and is recognised as the program's own.

use crate::parts;
use crate::text;
use crate::unit::generate;
use crate::unit::generate::FileView;
use crate::unit::model;
use crate::unit::model::{
    BodyView, MountView, ScheduleView, ServiceView, StandaloneView, TimerView, UnitView,
};
use crate::unit::model::{
    MountPreset, RestartPolicy, ServiceType, HOMEPAGE, MANUAL_HEADER, MARKER, X_MARKER,
};
use crate::unit::parse;
use crate::unit::parse::{DirView, LeftView, ScanState, ScanView};
use vstd::prelude::*;

verus! {

broadcast use vstd::string::group_string_axioms;

// ---------------------------------------------------------------------------
// Units that a file can hold
// ---------------------------------------------------------------------------

/// A value that a directive line holds as it stands: one line, with no white
/// space around it.
pub open spec fn is_value(v: Seq<char>) -> bool {
    !v.contains('\n') && text::trim_of(v) == v
}

/// A value that is there.
pub open spec fn is_entry(v: Seq<char>) -> bool {
    is_value(v) && v.len() > 0
}

/// A value that may be missing, and is not empty where it is there.
pub open spec fn is_opt_entry(v: Option<Seq<char>>) -> bool {
    v matches Some(s) ==> is_entry(s)
}

/// Values that are all there.
pub open spec fn are_entries(vs: Seq<Seq<char>>) -> bool {
    forall|i: int| 0 <= i < vs.len() ==> is_entry(#[trigger] vs[i])
}

/// Free text that a file holds as it stands: nothing white at its end, and no
/// line ended by a carriage return.
pub open spec fn is_free_text(m: Seq<char>) -> bool {
    &&& text::trim_end_of(m) == m
    &&& forall|i: int| 0 <= i < m.len() - 1 && #[trigger] m[i] == '\r' ==> m[i + 1] != '\n'
}

/// Service settings that a file can hold.
pub open spec fn is_plain_service(s: ServiceView) -> bool {
    &&& is_value(s.exec_start)
    &&& is_opt_entry(s.exec_start_pre)
    &&& is_opt_entry(s.exec_stop_post)
    &&& is_opt_entry(s.working_directory)
    &&& is_opt_entry(s.run_as)
    &&& is_opt_entry(s.group)
    &&& are_entries(s.environment)
    &&& is_opt_entry(s.restart_sec)
}

/// A schedule that a file can hold.
pub open spec fn is_plain_schedule(s: ScheduleView) -> bool {
    match s {
        ScheduleView::Calendar(v) => v.len() > 0 && are_entries(v),
        ScheduleView::Every { every, boot } => is_value(every) && is_value(boot),
        ScheduleView::Boot { boot } => is_value(boot),
    }
}

/// A timer that its two files can hold. `Persistent=` is written for calendar
/// timers only, and the restart policy for standalone services only.
pub open spec fn is_plain_timer(t: TimerView) -> bool {
    &&& is_value(t.source)
    &&& is_plain_schedule(t.schedule)
    &&& (t.persistent ==> t.schedule is Calendar)
    &&& is_opt_entry(t.randomized_delay)
    &&& is_plain_service(t.service)
    &&& t.service.restart == RestartPolicy::No
    &&& t.service.restart_sec is None
    &&& is_free_text(t.timer_manual)
    &&& is_free_text(t.service_manual)
}

/// A mount that its files can hold: the preset is the one its file system
/// type stands for, and only an automount has an idle timeout and free text
/// of its own.
pub open spec fn is_plain_mount(m: MountView) -> bool {
    &&& is_value(m.what)
    &&& is_value(m.where_)
    &&& is_value(m.fstype)
    &&& is_value(m.options)
    &&& m.preset == MountPreset::for_fstype(m.fstype)
    &&& is_opt_entry(m.timeout_idle)
    &&& is_free_text(m.manual)
    &&& is_free_text(m.automount_manual)
    &&& (!m.automount ==> m.timeout_idle is None && m.automount_manual.len() == 0)
}

/// A unit that its files can hold. A timer or service goes by its bare name;
/// a mount is named after its mount point.
pub open spec fn is_plain(u: UnitView) -> bool {
    &&& is_value(u.description)
    &&& match u.body {
        BodyView::Timer(t) => {
            &&& !model::prefixed_of(u.name).contains('\n')
            &&& model::unprefixed_of(u.name) == u.name
            &&& is_plain_timer(t)
        },
        BodyView::Service(s) => {
            &&& !model::prefixed_of(u.name).contains('\n')
            &&& model::unprefixed_of(u.name) == u.name
            &&& is_plain_service(s.service)
            &&& is_value(s.wanted_by)
            &&& is_free_text(s.manual)
        },
        BodyView::Mount(m) => {
            &&& u.stem_of() == Ok::<Seq<char>, Seq<char>>(u.name)
            &&& is_plain_mount(m)
        },
    }
}

// ---------------------------------------------------------------------------
// Reading lines that were written
// ---------------------------------------------------------------------------

/// Directives of one key.
spec fn kvs(key: Seq<char>, vs: Seq<Seq<char>>) -> Seq<Seq<char>> {
    Seq::new(vs.len(), |i: int| generate::kv_of(key, vs[i]))
}

/// The same directives, read.
spec fn dirs(section: Seq<char>, key: Seq<char>, vs: Seq<Seq<char>>) -> Seq<DirView> {
    Seq::new(vs.len(), |i: int| DirView { section, key, value: vs[i] })
}

/// The values of a directive that may be missing.
spec fn opt_seq(v: Option<Seq<char>>) -> Seq<Seq<char>> {
    match v {
        Some(s) => seq![s],
        None => seq![],
    }
}

/// The value of a directive that is left out where it is empty.
spec fn full_seq(v: Seq<char>) -> Seq<Seq<char>> {
    if v.len() == 0 {
        seq![]
    } else {
        seq![v]
    }
}

/// A text without a newline.
spec fn is_single(s: Seq<char>) -> bool {
    !s.contains('\n')
}

spec fn all_single(ls: Seq<Seq<char>>) -> bool {
    forall|i: int| 0 <= i < ls.len() ==> is_single(#[trigger] ls[i])
}

/// Whether `st` is what is known after these lines, none of them free text.
#[verifier::opaque]
spec fn reads(lines: Seq<Seq<char>>, st: ScanState) -> bool {
    &&& parse::scan_lines(parse::scan_start(), lines) == st
    &&& !st.in_manual
    &&& all_single(lines)
}

/// A key made of letters only, other than the ownership mark.
spec fn is_key(key: Seq<char>) -> bool {
    &&& key.len() > 0
    &&& key[0] != 'X'
    &&& forall|i: int| 0 <= i < key.len() ==> text::is_alnum(#[trigger] key[i])
}

proof fn lemma_alnum(c: char)
    requires
        text::is_alnum(c),
    ensures
        !text::is_white(c),
        c != '=' && c != '#' && c != ';' && c != '[' && c != '\n' && c != '\r',
{
}

/// A directive line as it is read, with nothing white at its end.
proof fn lemma_tight_line(st: ScanState, key: Seq<char>, v: Seq<char>)
    requires
        !st.in_manual,
        is_key(key),
        is_single(v),
        v.len() > 0 ==> !text::is_white(v.last()),
    ensures
        is_single(generate::kv_of(key, v)),
        parse::scan_step(st, generate::kv_of(key, v)) == (ScanState {
            entries: st.entries.push(
                DirView { section: st.section, key, value: text::trim_of(v) },
            ),
            ..st
        }),
{
    let t = generate::kv_of(key, v);
    let k = key.len() as int;
    reveal_strlit("=");
    reveal_strlit("# --- notcron:manual");
    reveal_strlit("# --- notcron:manual ---");
    reveal_strlit("# Generated by notcron");
    reveal_strlit("X-NotCron=1");
    assert(t.len() == k + 1 + v.len());
    assert(t[k] == '=');
    assert(t.skip(k + 1) =~= v);
    assert(t.take(k) =~= key);
    lemma_alnum(key[0]);
    assert(t[0] == key[0]);
    assert(t.last() == if v.len() > 0 {
        v.last()
    } else {
        '='
    });
    text::lemma_trim_tight(t);
    assert forall|i: int| 0 <= i < k implies #[trigger] t[i] != '=' && t[i] != '\n' by {
        assert(t[i] == key[i]);
        lemma_alnum(key[i]);
    }
    text::lemma_first_index_at(t, '=', k);
    lemma_alnum(key.last());
    assert(key.last() == key[k - 1]);
    text::lemma_trim_tight(key);
    assert forall|i: int| 0 <= i < t.len() implies #[trigger] t[i] != '\n' by {
        if i > k {
            assert(t[i] == v[i - k - 1]);
            assert(v.contains(v[i - k - 1]));
        }
    }
    assert(!text::is_white('='));
    assert(t[0] != "# --- notcron:manual"@[0]);
    assert(t != MANUAL_HEADER@);
    assert(t != MARKER@);
    assert(t != X_MARKER@);
}

/// A directive line as it is read.
proof fn lemma_kv_line(st: ScanState, key: Seq<char>, v: Seq<char>)
    requires
        !st.in_manual,
        is_key(key),
        is_single(v),
    ensures
        is_single(generate::kv_of(key, v)),
        parse::scan_step(st, generate::kv_of(key, v)) == (ScanState {
            entries: st.entries.push(
                DirView { section: st.section, key, value: text::trim_of(v) },
            ),
            ..st
        }),
    decreases v.len(),
{
    if v.len() > 0 && text::is_white(v.last()) {
        let less = v.drop_last();
        let line = generate::kv_of(key, v);
        assert forall|i: int| 0 <= i < less.len() implies #[trigger] less[i] != '\n' by {
            assert(v.contains(v[i]));
        }
        lemma_kv_line(st, key, less);
        assert(line.drop_last() =~= generate::kv_of(key, less));
        assert(line.last() == v.last());
        text::lemma_trim_shorter(line);
        text::lemma_trim_shorter(v);
        assert forall|i: int| 0 <= i < line.len() implies #[trigger] line[i] != '\n' by {
            if i < line.len() - 1 {
                assert(line[i] == generate::kv_of(key, less)[i]);
                assert(generate::kv_of(key, less).contains(line[i]));
            } else {
                assert(v.contains(v[v.len() - 1]));
            }
        }
    } else {
        lemma_tight_line(st, key, v);
    }
}

/// A carriage return at the end of a line says nothing, as long as free text
/// has not begun.
proof fn lemma_scan_stripped(lines: Seq<Seq<char>>)
    requires
        !parse::scan_lines(parse::scan_start(), lines).in_manual,
    ensures
        parse::scan_lines(
            parse::scan_start(),
            Seq::new(lines.len(), |i: int| parts::strip_cr(lines[i])),
        ) == parse::scan_lines(parse::scan_start(), lines),
    decreases lines.len(),
{
    let read = Seq::new(lines.len(), |i: int| parts::strip_cr(lines[i]));
    if lines.len() > 0 {
        let less = lines.drop_last();
        lemma_scan_stripped(less);
        assert(read.drop_last() =~= Seq::new(less.len(), |i: int| parts::strip_cr(less[i])));
        let line = lines.last();
        if line.len() > 0 && line.last() == '\r' {
            text::lemma_trim_shorter(line);
        }
    } else {
        assert(read =~= lines);
    }
}

proof fn lemma_scan_append(st: ScanState, a: Seq<Seq<char>>, b: Seq<Seq<char>>)
    ensures
        parse::scan_lines(st, a + b) == parse::scan_lines(parse::scan_lines(st, a), b),
    decreases b.len(),
{
    if b.len() == 0 {
        assert(a + b =~= a);
    } else {
        assert((a + b).drop_last() =~= a + b.drop_last());
        lemma_scan_append(st, a, b.drop_last());
    }
}

/// Reading on through directives of one key.
proof fn lemma_field(lines: Seq<Seq<char>>, st: ScanState, key: Seq<char>, vs: Seq<Seq<char>>)
    requires
        reads(lines, st),
        is_key(key),
        forall|i: int| 0 <= i < vs.len() ==> is_value(#[trigger] vs[i]),
    ensures
        reads(
            lines + kvs(key, vs),
            (ScanState { entries: st.entries + dirs(st.section, key, vs), ..st }),
        ),
    decreases vs.len(),
{
    reveal(reads);
    let more = kvs(key, vs);
    if vs.len() == 0 {
        assert(lines + more =~= lines);
        assert(st.entries + dirs(st.section, key, vs) =~= st.entries);
    } else {
        let less = vs.drop_last();
        lemma_field(lines, st, key, less);
        let mid = ScanState { entries: st.entries + dirs(st.section, key, less), ..st };
        assert((lines + more).drop_last() =~= lines + kvs(key, less));
        assert((lines + more).last() == generate::kv_of(key, vs.last()));
        text::lemma_trim_trim(vs.last());
        lemma_kv_line(mid, key, vs.last());
        assert(mid.entries.push(
            DirView { section: st.section, key, value: vs.last() },
        ) =~= st.entries + dirs(st.section, key, vs));
        assert forall|i: int| 0 <= i < (lines + more).len() implies is_single(
            #[trigger] (lines + more)[i],
        ) by {
            if i < (lines + more).len() - 1 {
                assert((lines + more)[i] == (lines + kvs(key, less))[i]);
            }
        }
    }
}

/// Reading on through a directive whose value has white space before it.
proof fn lemma_tail_field(lines: Seq<Seq<char>>, st: ScanState, key: Seq<char>, v: Seq<char>)
    requires
        reads(lines, st),
        is_key(key),
        is_single(v),
    ensures
        reads(
            lines.push(generate::kv_of(key, v)),
            (ScanState {
                entries: st.entries.push(
                    DirView { section: st.section, key, value: text::trim_of(v) },
                ),
                ..st
            }),
        ),
{
    reveal(reads);
    lemma_kv_line(st, key, v);
    let all = lines.push(generate::kv_of(key, v));
    assert(all.drop_last() =~= lines);
    assert forall|i: int| 0 <= i < all.len() implies is_single(#[trigger] all[i]) by {
        if i < lines.len() {
            assert(all[i] == lines[i]);
        }
    }
}

/// Reading on into a section.
proof fn lemma_section(lines: Seq<Seq<char>>, st: ScanState, line: Seq<char>, name: Seq<char>)
    requires
        reads(lines, st),
        line == seq!['['] + name + seq![']'],
        !name.contains('\n'),
    ensures
        reads(lines + seq![seq![], line], (ScanState { section: name, ..st })),
{
    reveal(reads);
    let empty = Seq::<char>::empty();
    let more = seq![empty, line];
    let all = lines + more;
    reveal_strlit("# --- notcron:manual");
    reveal_strlit("# --- notcron:manual ---");
    reveal_strlit("# Generated by notcron");
    lemma_scan_append(parse::scan_start(), lines, more);
    assert(more.drop_last() =~= seq![empty]);
    assert(more.drop_last().drop_last() =~= seq![]);
    reveal_with_fuel(parse::scan_lines, 3);
    text::lemma_trim_tight(empty);
    assert(line[0] == '[' && line.last() == ']');
    text::lemma_trim_tight(line);
    assert(line.subrange(1, line.len() - 1) =~= name);
    assert(parse::scan_step(st, empty) == st);
    assert(line[0] != "# --- notcron:manual"@[0]);
    if "# --- notcron:manual"@.is_prefix_of(line) {
        assert(line.take(20)[0] == line[0]);
    }
    assert(parse::scan_step(st, line) == (ScanState { section: name, ..st }));
    assert(parse::scan_lines(st, more) == (ScanState { section: name, ..st }));
    assert forall|i: int| 0 <= i < line.len() implies #[trigger] line[i] != '\n' by {
        if 0 < i < line.len() - 1 {
            assert(line[i] == name[i - 1]);
            assert(name.contains(name[i - 1]));
        }
    }
    assert forall|i: int| 0 <= i < all.len() implies is_single(#[trigger] all[i]) by {}
}

/// A comment line as it is read.
proof fn lemma_comment(lines: Seq<Seq<char>>, st: ScanState, v: Seq<char>)
    requires
        reads(lines, st),
        is_entry(v),
        !"--- notcron:manual"@.is_prefix_of(v),
        v != "Generated by notcron"@,
    ensures
        reads(lines.push("# "@ + v), (ScanState { comments: st.comments.push(v), ..st })),
{
    reveal(reads);
    let t = "# "@ + v;
    reveal_strlit("# ");
    reveal_strlit("--- notcron:manual");
    reveal_strlit("# --- notcron:manual");
    reveal_strlit("# --- notcron:manual ---");
    reveal_strlit("# Generated by notcron");
    reveal_strlit("Generated by notcron");
    text::lemma_trim_trim(v);
    assert(t[0] == '#' && t.last() == v.last());
    text::lemma_trim_tight(t);
    let rest = t.skip(1);
    assert(rest[0] == ' ');
    assert(rest.skip(1) =~= v);
    assert(text::trim_start_of(v) == v);
    assert(text::trim_start_of(rest) == text::trim_start_of(rest.skip(1)));
    assert(text::trim_of(rest) == v);
    assert(t.skip(2) =~= v);
    let long = "# --- notcron:manual"@;
    if long.is_prefix_of(t) {
        assert(long.skip(2) =~= "--- notcron:manual"@);
        assert(v.take(18) =~= t.take(20).skip(2));
        assert(false);
    }
    assert(MANUAL_HEADER@.take(20) =~= long);
    assert(MARKER@.skip(2) =~= "Generated by notcron"@);
    let all = lines.push(t);
    assert(all.drop_last() =~= lines);
    assert forall|i: int| 0 <= i < t.len() implies #[trigger] t[i] != '\n' by {
        if i >= 2 {
            assert(t[i] == v[i - 2]);
            assert(v.contains(v[i - 2]));
        }
    }
    assert forall|i: int| 0 <= i < all.len() implies is_single(#[trigger] all[i]) by {
        if i < lines.len() {
            assert(all[i] == lines[i]);
        }
    }
}

/// What is known after the head of a file.
spec fn head_state(source: Seq<char>, description: Seq<char>) -> ScanState {
    ScanState {
        comments: if source.len() == 0 {
            seq![HOMEPAGE@]
        } else {
            seq![HOMEPAGE@, "schedule: "@ + source]
        },
        entries: seq![
            DirView {
                section: "Unit"@,
                key: "Description"@,
                value: text::trim_of(description),
            },
        ],
        free: seq![],
        owned: true,
        section: "Unit"@,
        in_manual: false,
    }
}

/// The marker line as it is read.
proof fn lemma_marker()
    ensures
        reads(seq![MARKER@], (ScanState { owned: true, ..parse::scan_start() })),
{
    reveal(reads);
    reveal_strlit("# --- notcron:manual");
    reveal_strlit("# --- notcron:manual ---");
    reveal_strlit("# Generated by notcron");
    let ls = seq![MARKER@];
    assert(ls.drop_last() =~= seq![]);
    text::lemma_trim_tight(MARKER@);
    assert("# --- notcron:manual"@[2] != MARKER@[2]);
    if "# --- notcron:manual"@.is_prefix_of(MARKER@) {
        assert(MARKER@.take(20)[2] == MARKER@[2]);
    }
    reveal_with_fuel(parse::scan_lines, 2);
}

/// The ownership directive as it is read.
proof fn lemma_x_marker(lines: Seq<Seq<char>>, st: ScanState)
    requires
        reads(lines, st),
    ensures
        reads(lines.push(X_MARKER@), (ScanState { owned: true, ..st })),
{
    reveal(reads);
    reveal_strlit("# --- notcron:manual");
    reveal_strlit("# --- notcron:manual ---");
    reveal_strlit("# Generated by notcron");
    reveal_strlit("X-NotCron=1");
    text::lemma_trim_tight(X_MARKER@);
    let all = lines.push(X_MARKER@);
    assert(all.drop_last() =~= lines);
    assert forall|i: int| 0 <= i < all.len() implies is_single(#[trigger] all[i]) by {
        if i < lines.len() {
            assert(all[i] == lines[i]);
        }
    }
}

/// The head of a file as it is read.
proof fn lemma_head(source: Seq<char>, description: Seq<char>)
    requires
        is_value(source),
        is_single(description),
    ensures
        reads(
            generate::header_of(source) + generate::unit_section_of(description),
            head_state(source, description),
        ),
{
    lemma_marker();
    let l0 = seq![MARKER@];
    let s0 = ScanState { owned: true, ..parse::scan_start() };
    reveal_strlit("https://github.com/suchattai-labs/notcron-rs");
    reveal_strlit("--- notcron:manual");
    reveal_strlit("Generated by notcron");
    reveal_strlit("# ");
    reveal_strlit("schedule: ");
    reveal_strlit("# schedule: ");
    text::lemma_trim_tight(HOMEPAGE@);
    assert(!HOMEPAGE@.contains('\n'));
    let dash = "--- notcron:manual"@;
    assert(dash[0] != HOMEPAGE@[0]);
    assert(!dash.is_prefix_of(HOMEPAGE@)) by {
        if dash.is_prefix_of(HOMEPAGE@) {
            assert(HOMEPAGE@.take(18)[0] == HOMEPAGE@[0]);
        }
    }
    lemma_comment(l0, s0, HOMEPAGE@);
    let l1 = l0.push("# "@ + HOMEPAGE@);
    let s1 = ScanState { comments: s0.comments.push(HOMEPAGE@), ..s0 };
    let (l2, s2) = if source.len() == 0 {
        (l1, s1)
    } else {
        let c = "schedule: "@ + source;
        text::lemma_trim_trim(source);
        assert(c[0] == 's' && c.last() == source.last());
        text::lemma_trim_tight(c);
        assert forall|i: int| 0 <= i < c.len() implies #[trigger] c[i] != '\n' by {
            if i >= 10 {
                assert(c[i] == source[i - 10]);
                assert(source.contains(source[i - 10]));
            }
        }
        if dash.is_prefix_of(c) {
            assert(c.take(18)[0] == c[0]);
        }
        lemma_comment(l1, s1, c);
        (l1.push("# "@ + c), ScanState { comments: s1.comments.push(c), ..s1 })
    };
    assert("# "@ + ("schedule: "@ + source) =~= "# schedule: "@ + source);
    assert(l2 =~= generate::header_of(source));
    reveal_strlit("[Unit]");
    reveal_strlit("Unit");
    reveal_strlit("Description");
    assert("[Unit]"@ =~= seq!['['] + "Unit"@ + seq![']']);
    lemma_section(l2, s2, "[Unit]"@, "Unit"@);
    let l3 = l2 + seq![seq![], "[Unit]"@];
    let s3 = ScanState { section: "Unit"@, ..s2 };
    lemma_tail_field(l3, s3, "Description"@, description);
    let l4 = l3.push(generate::kv_of("Description"@, description));
    let s4 = ScanState {
        entries: s3.entries.push(
            DirView {
                section: "Unit"@,
                key: "Description"@,
                value: text::trim_of(description),
            },
        ),
        ..s3
    };
    lemma_x_marker(l4, s4);
    assert(l4.push(X_MARKER@) =~= generate::header_of(source) + generate::unit_section_of(
        description,
    ));
    assert(s4 =~= head_state(source, description));
}

/// Joining the lines of a text that ends in a newline gives the text before
/// that newline.
proof fn lemma_join_lines(m: Seq<char>)
    requires
        m.len() > 0,
        m.last() != '\r',
        forall|i: int| 0 <= i < m.len() - 1 && #[trigger] m[i] == '\r' ==> m[i + 1] != '\n',
    ensures
        parts::join_of(parts::lines_of(m.push('\n')), "\n"@) == m,
        parts::lines_of(m.push('\n')).len() > 0,
    decreases m.len(),
{
    let s = m.push('\n');
    reveal_strlit("\n");
    assert("\n"@ =~= seq!['\n']);
    text::lemma_first_index(m, '\n');
    let k = text::first_index(m, '\n');
    assert(parts::lines_of(Seq::<char>::empty()) =~= seq![]);
    if k == m.len() {
        text::lemma_first_index_at(s, '\n', k);
        assert(s.take(k) =~= m);
        assert(s.skip(k + 1) =~= seq![]);
        assert(parts::lines_of(s) =~= seq![m]);
    } else {
        text::lemma_first_index_at(s, '\n', k);
        let head = m.take(k);
        assert(s.take(k) =~= head);
        if k > 0 {
            assert(head.last() == m[k - 1]);
        }
        assert(parts::strip_cr(head) == head);
        let rest = m.skip(k + 1);
        let tail = s.skip(k + 1);
        assert(tail =~= rest.push('\n'));
        let all = parts::lines_of(s);
        assert(all == seq![head] + parts::lines_of(tail));
        assert(all.skip(1) =~= parts::lines_of(tail));
        if rest.len() == 0 {
            text::lemma_first_index_at(tail, '\n', 0);
            assert(tail.take(0) =~= seq![]);
            assert(tail.skip(1) =~= seq![]);
            assert(parts::lines_of(tail) =~= seq![Seq::<char>::empty()]);
            assert(all.len() == 2);
            parts::lemma_join_front(all, "\n"@);
            assert(m =~= head + seq!['\n']);
            assert(parts::join_of(all.skip(1), "\n"@) =~= seq![]);
            assert(parts::join_of(all, "\n"@) =~= m);
        } else {
            assert forall|i: int| 0 <= i < rest.len() - 1 && #[trigger] rest[i]
                == '\r' implies rest[i + 1] != '\n' by {
                assert(rest[i] == m[i + k + 1]);
                assert(rest[i + 1] == m[i + k + 1 + 1]);
            }
            assert(rest.last() == m.last());
            lemma_join_lines(rest);
            parts::lemma_join_front(all, "\n"@);
            assert(m =~= head + seq!['\n'] + rest);
        }
    }
}

/// Reading free text to the end of a file.
proof fn lemma_scan_free(st: ScanState, ls: Seq<Seq<char>>)
    requires
        st.in_manual,
    ensures
        parse::scan_lines(st, ls) == (ScanState { free: st.free + ls, ..st }),
    decreases ls.len(),
{
    if ls.len() == 0 {
        assert(st.free + ls =~= st.free);
    } else {
        lemma_scan_free(st, ls.drop_last());
        assert((st.free + ls.drop_last()).push(ls.last()) =~= st.free + ls);
    }
}

/// A whole file as it is read.
proof fn lemma_body(lines: Seq<Seq<char>>, st: ScanState, free: Seq<char>)
    requires
        reads(lines, st),
        st.free.len() == 0,
        is_free_text(free),
    ensures
        parse::scan_of(generate::body_of(lines, free)) == (ScanView {
            comments: st.comments,
            entries: st.entries,
            manual: free,
            owned: st.owned,
        }),
{
    reveal(reads);
    let none = Seq::<char>::empty();
    text::lemma_trim_end(free);
    if free.len() == 0 {
        assert(lines + generate::manual_of(free) =~= lines);
        let read = Seq::new(lines.len(), |i: int| parts::strip_cr(lines[i]));
        parts::lemma_lines_ended(lines, none);
        lemma_scan_stripped(lines);
        assert(parts::unlines_of(lines) + none =~= parts::unlines_of(lines));
        assert(parts::lines_of(none) =~= seq![]);
        assert(read + parts::lines_of(none) =~= read);
        assert(parts::join_of(st.free, "\n"@) =~= seq![]);
        assert(free =~= text::trim_end_of(none));
    } else {
        assert(!text::is_white(free.last()));
        assert(generate::trim_manual_of(free) == free);
        reveal_strlit("# --- notcron:manual");
        reveal_strlit("# --- notcron:manual ---");
        let head = lines + seq![none, MANUAL_HEADER@];
        let all = lines + generate::manual_of(free);
        assert(all =~= head.push(free));
        assert(all.drop_last() =~= head);
        let more = free.push('\n');
        assert(generate::body_of(lines, free) == parts::unlines_of(head) + more);
        assert forall|i: int| 0 <= i < head.len() implies is_single(#[trigger] head[i]) by {
            if i < lines.len() {
                assert(head[i] == lines[i]);
            }
        }
        parts::lemma_lines_ended(head, more);
        let tail = parts::lines_of(more);
        let read = Seq::new(lines.len(), |i: int| parts::strip_cr(lines[i]));
        lemma_scan_stripped(lines);
        assert(Seq::new(head.len(), |i: int| parts::strip_cr(head[i])) =~= read + seq![
            none,
            MANUAL_HEADER@,
        ]);
        lemma_scan_append(parse::scan_start(), read + seq![none, MANUAL_HEADER@], tail);
        lemma_scan_append(parse::scan_start(), read, seq![none, MANUAL_HEADER@]);
        let two = seq![none, MANUAL_HEADER@];
        assert(two.drop_last() =~= seq![none]);
        assert(two.drop_last().drop_last() =~= seq![]);
        reveal_with_fuel(parse::scan_lines, 3);
        text::lemma_trim_tight(none);
        text::lemma_trim_tight(MANUAL_HEADER@);
        assert(parse::scan_step(st, none) == st);
        let mid = ScanState { in_manual: true, ..st };
        assert(parse::scan_lines(st, two) == mid);
        lemma_scan_free(mid, tail);
        assert(st.free + tail =~= tail);
        lemma_join_lines(free);
    }
}

// ---------------------------------------------------------------------------
// Reading service settings back
// ---------------------------------------------------------------------------

/// The first match in directives and some more of one key, and all matches.
proof fn lemma_more(
    a: Seq<DirView>,
    sec: Seq<char>,
    key: Seq<char>,
    vs: Seq<Seq<char>>,
    s: Seq<char>,
    k: Seq<char>,
)
    ensures
        parse::first_of(a + dirs(sec, key, vs), s, k) == or_else(
            parse::first_of(a, s, k),
            hit(sec, key, vs, s, k),
        ),
        parse::all_of(a + dirs(sec, key, vs), s, k) == parse::all_of(a, s, k) + hits(
            sec,
            key,
            vs,
            s,
            k,
        ),
    decreases vs.len(),
{
    let b = dirs(sec, key, vs);
    if vs.len() == 0 {
        assert(a + b =~= a);
        assert(parse::all_of(a, s, k) + seq![] =~= parse::all_of(a, s, k));
    } else {
        let less = vs.drop_last();
        let last = DirView { section: sec, key, value: vs.last() };
        lemma_more(a, sec, key, less, s, k);
        assert((a + b).drop_last() =~= a + dirs(sec, key, less));
        assert((a + b).last() == last);
        lemma_first_last(a + dirs(sec, key, less), last, s, k);
        assert((a + dirs(sec, key, less)).push(last) =~= a + b);
        if less.len() == 0 {
            assert(vs[0] == vs.last());
        } else {
            assert(less[0] == vs[0]);
        }
        if sec == s && key == k {
            assert(hits(sec, key, less, s, k).push(vs.last()) =~= vs);
            assert((parse::all_of(a, s, k) + less).push(vs.last()) =~= parse::all_of(a, s, k) + vs);
        }
    }
}

proof fn lemma_first_last(a: Seq<DirView>, d: DirView, s: Seq<char>, k: Seq<char>)
    ensures
        parse::first_of(a.push(d), s, k) == or_else(
            parse::first_of(a, s, k),
            if d.section == s && d.key == k {
                Some(d.value)
            } else {
                None
            },
        ),
    decreases a.len(),
{
    let b = a.push(d);
    if a.len() == 0 {
        assert(b.skip(1) =~= seq![]);
        reveal_with_fuel(parse::first_of, 2);
    } else {
        assert(b[0] == a[0]);
        assert(b.skip(1) =~= a.skip(1).push(d));
        lemma_first_last(a.skip(1), d, s, k);
    }
}

/// The first of two finds.
spec fn or_else(a: Option<Seq<char>>, b: Option<Seq<char>>) -> Option<Seq<char>> {
    match a {
        Some(v) => Some(v),
        None => b,
    }
}

/// What is found among directives of one key.
spec fn hit(
    sec: Seq<char>,
    key: Seq<char>,
    vs: Seq<Seq<char>>,
    s: Seq<char>,
    k: Seq<char>,
) -> Option<Seq<char>> {
    if sec == s && key == k && vs.len() > 0 {
        Some(vs[0])
    } else {
        None
    }
}

/// All that is found among them.
spec fn hits(
    sec: Seq<char>,
    key: Seq<char>,
    vs: Seq<Seq<char>>,
    s: Seq<char>,
    k: Seq<char>,
) -> Seq<Seq<char>> {
    if sec == s && key == k {
        vs
    } else {
        seq![]
    }
}

/// The names of types and policies.
proof fn lemma_service_names(t: ServiceType, p: RestartPolicy)
    ensures
        ServiceType::named(t.name()) == Some(t),
        RestartPolicy::named(p.name()) == Some(p),
        is_entry(t.name()),
        is_entry(p.name()),
{
    reveal_strlit("simple");
    reveal_strlit("exec");
    reveal_strlit("forking");
    reveal_strlit("oneshot");
    reveal_strlit("notify");
    reveal_strlit("idle");
    reveal_strlit("no");
    reveal_strlit("on-success");
    reveal_strlit("on-failure");
    reveal_strlit("on-abnormal");
    reveal_strlit("on-abort");
    reveal_strlit("always");
    assert("simple"@[0] != "notify"@[0]);
    assert("exec"@[0] != "idle"@[0]);
    assert("forking"@[0] != "oneshot"@[0]);
    assert("on-success"@[3] != "on-failure"@[3]);
    text::lemma_trim_tight(t.name());
    text::lemma_trim_tight(p.name());
}

/// The entries of a service section up to what its kind of unit adds.
spec fn service_entries(s: ServiceView) -> Seq<DirView> {
    dirs("Service"@, "Type"@, seq![s.service_type.name()]) + dirs(
        "Service"@,
        "ExecStartPre"@,
        opt_seq(s.exec_start_pre),
    ) + dirs("Service"@, "ExecStart"@, seq![s.exec_start]) + dirs(
        "Service"@,
        "ExecStopPost"@,
        opt_seq(s.exec_stop_post),
    ) + dirs("Service"@, "WorkingDirectory"@, opt_seq(s.working_directory)) + dirs(
        "Service"@,
        "User"@,
        opt_seq(s.run_as),
    ) + dirs("Service"@, "Group"@, opt_seq(s.group)) + dirs(
        "Service"@,
        "Environment"@,
        s.environment,
    )
}

spec fn output_entries(stem: Seq<char>) -> Seq<DirView> {
    dirs("Service"@, "StandardOutput"@, seq!["journal"@]) + dirs(
        "Service"@,
        "StandardError"@,
        seq!["journal"@],
    ) + dirs("Service"@, "SyslogIdentifier"@, seq![text::trim_of(stem)])
}

/// What is found among the entries of a service section.
spec fn service_found(s: ServiceView, k: Seq<char>) -> Option<Seq<char>> {
    let sec = "Service"@;
    or_else(
        or_else(
            or_else(
                or_else(
                    or_else(
                        or_else(
                            or_else(
                                hit(sec, "Type"@, seq![s.service_type.name()], sec, k),
                                hit(sec, "ExecStartPre"@, opt_seq(s.exec_start_pre), sec, k),
                            ),
                            hit(sec, "ExecStart"@, seq![s.exec_start], sec, k),
                        ),
                        hit(sec, "ExecStopPost"@, opt_seq(s.exec_stop_post), sec, k),
                    ),
                    hit(sec, "WorkingDirectory"@, opt_seq(s.working_directory), sec, k),
                ),
                hit(sec, "User"@, opt_seq(s.run_as), sec, k),
            ),
            hit(sec, "Group"@, opt_seq(s.group), sec, k),
        ),
        hit(sec, "Environment"@, s.environment, sec, k),
    )
}

/// What is found in a service section behind a description.
#[verifier::rlimit(50)]
#[verifier::spinoff_prover]
proof fn lemma_service_found(description: Seq<char>, s: ServiceView, k: Seq<char>)
    ensures
        ({
            let ds = description_dir(description) + service_entries(s);
            &&& parse::first_of(ds, "Service"@, k) == service_found(s, k)
            &&& k == "Environment"@ ==> parse::all_of(ds, "Service"@, k) == s.environment
        }),
{
    let sec = "Service"@;
    let none = Seq::<DirView>::empty();
    lemma_service_keys_differ();
    let a = description_dir(description);
    assert(none + a =~= a);
    lemma_more(none, "Unit"@, "Description"@, seq![description], sec, k);
    assert("Unit"@.len() != "Service"@.len()) by {
        reveal_strlit("Unit");
        reveal_strlit("Service");
    }
    assert(parse::first_of(a, sec, k) is None);
    assert(parse::all_of(a, sec, k) =~= seq![]);
    let a0 = a + dirs(sec, "Type"@, seq![s.service_type.name()]);
    lemma_more(a, sec, "Type"@, seq![s.service_type.name()], sec, k);
    let a1 = a0 + dirs(sec, "ExecStartPre"@, opt_seq(s.exec_start_pre));
    lemma_more(a0, sec, "ExecStartPre"@, opt_seq(s.exec_start_pre), sec, k);
    let a2 = a1 + dirs(sec, "ExecStart"@, seq![s.exec_start]);
    lemma_more(a1, sec, "ExecStart"@, seq![s.exec_start], sec, k);
    let a3 = a2 + dirs(sec, "ExecStopPost"@, opt_seq(s.exec_stop_post));
    lemma_more(a2, sec, "ExecStopPost"@, opt_seq(s.exec_stop_post), sec, k);
    let a4 = a3 + dirs(sec, "WorkingDirectory"@, opt_seq(s.working_directory));
    lemma_more(a3, sec, "WorkingDirectory"@, opt_seq(s.working_directory), sec, k);
    let a5 = a4 + dirs(sec, "User"@, opt_seq(s.run_as));
    lemma_more(a4, sec, "User"@, opt_seq(s.run_as), sec, k);
    let a6 = a5 + dirs(sec, "Group"@, opt_seq(s.group));
    lemma_more(a5, sec, "Group"@, opt_seq(s.group), sec, k);
    let a7 = a6 + dirs(sec, "Environment"@, s.environment);
    lemma_more(a6, sec, "Environment"@, s.environment, sec, k);
    assert(a + service_entries(s) =~= a7);
    if k == "Environment"@ {
        assert(parse::all_of(a6, sec, k) =~= seq![]);
        assert(parse::all_of(a7, sec, k) =~= s.environment);
    }
}

/// The keys of a service section are different.
proof fn lemma_service_keys_differ()
    ensures
        "Type"@ != "ExecStartPre"@,
        "Type"@ != "ExecStart"@,
        "Type"@ != "ExecStopPost"@,
        "Type"@ != "WorkingDirectory"@,
        "Type"@ != "User"@,
        "Type"@ != "Group"@,
        "Type"@ != "Environment"@,
        "Type"@ != "Restart"@,
        "Type"@ != "RestartSec"@,
        "Type"@ != "StandardOutput"@,
        "Type"@ != "StandardError"@,
        "Type"@ != "SyslogIdentifier"@,
        "ExecStartPre"@ != "ExecStart"@,
        "ExecStartPre"@ != "ExecStopPost"@,
        "ExecStartPre"@ != "WorkingDirectory"@,
        "ExecStartPre"@ != "User"@,
        "ExecStartPre"@ != "Group"@,
        "ExecStartPre"@ != "Environment"@,
        "ExecStartPre"@ != "Restart"@,
        "ExecStartPre"@ != "RestartSec"@,
        "ExecStartPre"@ != "StandardOutput"@,
        "ExecStartPre"@ != "StandardError"@,
        "ExecStartPre"@ != "SyslogIdentifier"@,
        "ExecStart"@ != "ExecStopPost"@,
        "ExecStart"@ != "WorkingDirectory"@,
        "ExecStart"@ != "User"@,
        "ExecStart"@ != "Group"@,
        "ExecStart"@ != "Environment"@,
        "ExecStart"@ != "Restart"@,
        "ExecStart"@ != "RestartSec"@,
        "ExecStart"@ != "StandardOutput"@,
        "ExecStart"@ != "StandardError"@,
        "ExecStart"@ != "SyslogIdentifier"@,
        "ExecStopPost"@ != "WorkingDirectory"@,
        "ExecStopPost"@ != "User"@,
        "ExecStopPost"@ != "Group"@,
        "ExecStopPost"@ != "Environment"@,
        "ExecStopPost"@ != "Restart"@,
        "ExecStopPost"@ != "RestartSec"@,
        "ExecStopPost"@ != "StandardOutput"@,
        "ExecStopPost"@ != "StandardError"@,
        "ExecStopPost"@ != "SyslogIdentifier"@,
        "WorkingDirectory"@ != "User"@,
        "WorkingDirectory"@ != "Group"@,
        "WorkingDirectory"@ != "Environment"@,
        "WorkingDirectory"@ != "Restart"@,
        "WorkingDirectory"@ != "RestartSec"@,
        "WorkingDirectory"@ != "StandardOutput"@,
        "WorkingDirectory"@ != "StandardError"@,
        "WorkingDirectory"@ != "SyslogIdentifier"@,
        "User"@ != "Group"@,
        "User"@ != "Environment"@,
        "User"@ != "Restart"@,
        "User"@ != "RestartSec"@,
        "User"@ != "StandardOutput"@,
        "User"@ != "StandardError"@,
        "User"@ != "SyslogIdentifier"@,
        "Group"@ != "Environment"@,
        "Group"@ != "Restart"@,
        "Group"@ != "RestartSec"@,
        "Group"@ != "StandardOutput"@,
        "Group"@ != "StandardError"@,
        "Group"@ != "SyslogIdentifier"@,
        "Environment"@ != "Restart"@,
        "Environment"@ != "RestartSec"@,
        "Environment"@ != "StandardOutput"@,
        "Environment"@ != "StandardError"@,
        "Environment"@ != "SyslogIdentifier"@,
        "Restart"@ != "RestartSec"@,
        "Restart"@ != "StandardOutput"@,
        "Restart"@ != "StandardError"@,
        "Restart"@ != "SyslogIdentifier"@,
        "RestartSec"@ != "StandardOutput"@,
        "RestartSec"@ != "StandardError"@,
        "RestartSec"@ != "SyslogIdentifier"@,
        "StandardOutput"@ != "StandardError"@,
        "StandardOutput"@ != "SyslogIdentifier"@,
        "StandardError"@ != "SyslogIdentifier"@,
{
    reveal_strlit("Type");
    reveal_strlit("ExecStart");
    reveal_strlit("ExecStartPre");
    reveal_strlit("ExecStopPost");
    reveal_strlit("WorkingDirectory");
    reveal_strlit("User");
    reveal_strlit("Group");
    reveal_strlit("Environment");
    reveal_strlit("Restart");
    reveal_strlit("RestartSec");
    reveal_strlit("SyslogIdentifier");
    reveal_strlit("StandardOutput");
    reveal_strlit("StandardError");
    assert("Type"@.len() == 4);
    assert("ExecStartPre"@.len() == 12);
    assert("ExecStart"@.len() == 9);
    assert("ExecStopPost"@.len() == 12);
    assert("WorkingDirectory"@.len() == 16);
    assert("User"@.len() == 4);
    assert("Group"@.len() == 5);
    assert("Environment"@.len() == 11);
    assert("Restart"@.len() == 7);
    assert("RestartSec"@.len() == 10);
    assert("StandardOutput"@.len() == 14);
    assert("StandardError"@.len() == 13);
    assert("SyslogIdentifier"@.len() == 16);
    assert("ExecStartPre"@[6] != "ExecStopPost"@[6]);
    assert("Type"@[0] != "User"@[0]);
    assert("WorkingDirectory"@[0] != "SyslogIdentifier"@[0]);
}

/// What is found behind it: the output directives are none of the settings.
proof fn lemma_output_found(a: Seq<DirView>, stem: Seq<char>, s: Seq<char>, k: Seq<char>)
    requires
        s == "Service"@ ==> k != "StandardOutput"@ && k != "StandardError"@ && k
            != "SyslogIdentifier"@,
    ensures
        parse::first_of(a + output_entries(stem), s, k) == parse::first_of(a, s, k),
        parse::all_of(a + output_entries(stem), s, k) == parse::all_of(a, s, k),
{
    let sec = "Service"@;
    let journal = seq!["journal"@];
    let a0 = a + dirs(sec, "StandardOutput"@, journal);
    lemma_more(a, sec, "StandardOutput"@, journal, s, k);
    let a1 = a0 + dirs(sec, "StandardError"@, journal);
    lemma_more(a0, sec, "StandardError"@, journal, s, k);
    let id = seq![text::trim_of(stem)];
    lemma_more(a1, sec, "SyslogIdentifier"@, id, s, k);
    assert(a + output_entries(stem) =~= a1 + dirs(sec, "SyslogIdentifier"@, id));
    let found = parse::all_of(a, s, k);
    assert(found + seq![] =~= found);
}

/// The settings of a service, found by their keys.
spec fn finds(ds: Seq<DirView>, s: ServiceView) -> bool {
    let sec = "Service"@;
    &&& parse::first_of(ds, sec, "Type"@) == Some(s.service_type.name())
    &&& parse::first_of(ds, sec, "ExecStart"@) == Some(s.exec_start)
    &&& parse::first_of(ds, sec, "ExecStartPre"@) == s.exec_start_pre
    &&& parse::first_of(ds, sec, "ExecStopPost"@) == s.exec_stop_post
    &&& parse::first_of(ds, sec, "WorkingDirectory"@) == s.working_directory
    &&& parse::first_of(ds, sec, "User"@) == s.run_as
    &&& parse::first_of(ds, sec, "Group"@) == s.group
    &&& parse::all_of(ds, sec, "Environment"@) == s.environment
    &&& parse::first_of(ds, sec, "Restart"@) is None
    &&& parse::first_of(ds, sec, "RestartSec"@) is None
}

proof fn lemma_finds(description: Seq<char>, s: ServiceView)
    ensures
        finds(description_dir(description) + service_entries(s), s),
{
    lemma_service_keys_differ();
    lemma_service_found(description, s, "Type"@);
    lemma_service_found(description, s, "ExecStart"@);
    lemma_service_found(description, s, "ExecStartPre"@);
    lemma_service_found(description, s, "ExecStopPost"@);
    lemma_service_found(description, s, "WorkingDirectory"@);
    lemma_service_found(description, s, "User"@);
    lemma_service_found(description, s, "Group"@);
    lemma_service_found(description, s, "Environment"@);
    lemma_service_found(description, s, "Restart"@);
    lemma_service_found(description, s, "RestartSec"@);
}

// ---------------------------------------------------------------------------
// Reading whole sections
// ---------------------------------------------------------------------------

proof fn lemma_kv_opt(key: Seq<char>, v: Option<Seq<char>>)
    requires
        is_opt_entry(v),
    ensures
        generate::kv_opt_of(key, v) == kvs(key, opt_seq(v)),
        forall|i: int| 0 <= i < opt_seq(v).len() ==> is_value(#[trigger] opt_seq(v)[i]),
{
    assert(generate::kv_opt_of(key, v) =~= kvs(key, opt_seq(v)));
}

proof fn lemma_kv_full(key: Seq<char>, v: Seq<char>)
    requires
        is_value(v),
    ensures
        generate::kv_opt_of(key, Some(v)) == kvs(key, full_seq(v)),
        forall|i: int| 0 <= i < full_seq(v).len() ==> is_value(#[trigger] full_seq(v)[i]),
{
    assert(generate::kv_opt_of(key, Some(v)) =~= kvs(key, full_seq(v)));
}

proof fn lemma_kv_all(key: Seq<char>, vs: Seq<Seq<char>>)
    requires
        are_entries(vs),
    ensures
        generate::kv_all_of(key, vs) == kvs(key, vs),
    decreases vs.len(),
{
    if vs.len() > 0 {
        lemma_kv_all(key, vs.drop_last());
        assert(is_entry(vs[vs.len() - 1]));
    }
    assert(generate::kv_all_of(key, vs) =~= kvs(key, vs));
}

/// The service section of a file as it is read.
proof fn lemma_service_section(lines: Seq<Seq<char>>, st: ScanState, s: ServiceView)
    requires
        reads(lines, st),
        is_plain_service(s),
    ensures
        reads(
            lines + generate::service_section_of(s),
            (ScanState {
                section: "Service"@,
                entries: st.entries + service_entries(s),
                ..st
            }),
        ),
{
    let sec = "Service"@;
    lemma_section_keys();
    assert("[Service]"@ =~= seq!['['] + sec + seq![']']) by {
        reveal_strlit("[Service]");
        reveal_strlit("Service");
    }
    lemma_section(lines, st, "[Service]"@, sec);
    lemma_service_names(s.service_type, RestartPolicy::No);
    let s0 = ScanState { section: sec, ..st };
    let p0 = seq![seq![], "[Service]"@];
    let e0 = Seq::<DirView>::empty();
    assert(st.entries + e0 =~= st.entries);
    lemma_next(lines, p0, s0, e0, st.entries, "Type"@, seq![s.service_type.name()]);
    let p1 = p0 + kvs("Type"@, seq![s.service_type.name()]);
    let e1 = e0 + dirs(sec, "Type"@, seq![s.service_type.name()]);
    assert(p1 =~= seq![
        seq![],
        "[Service]"@,
        generate::kv_of("Type"@, s.service_type.name()),
    ]);
    assert(e1 =~= dirs(sec, "Type"@, seq![s.service_type.name()]));
    lemma_kv_opt("ExecStartPre"@, s.exec_start_pre);
    lemma_next(lines, p1, s0, e1, st.entries, "ExecStartPre"@, opt_seq(s.exec_start_pre));
    let p2 = p1 + kvs("ExecStartPre"@, opt_seq(s.exec_start_pre));
    let e2 = e1 + dirs(sec, "ExecStartPre"@, opt_seq(s.exec_start_pre));
    lemma_next(lines, p2, s0, e2, st.entries, "ExecStart"@, seq![s.exec_start]);
    let p3 = p2 + kvs("ExecStart"@, seq![s.exec_start]);
    let e3 = e2 + dirs(sec, "ExecStart"@, seq![s.exec_start]);
    assert(kvs("ExecStart"@, seq![s.exec_start]) =~= seq![
        generate::kv_of("ExecStart"@, s.exec_start),
    ]);
    lemma_kv_opt("ExecStopPost"@, s.exec_stop_post);
    lemma_next(lines, p3, s0, e3, st.entries, "ExecStopPost"@, opt_seq(s.exec_stop_post));
    let p4 = p3 + kvs("ExecStopPost"@, opt_seq(s.exec_stop_post));
    let e4 = e3 + dirs(sec, "ExecStopPost"@, opt_seq(s.exec_stop_post));
    lemma_kv_opt("WorkingDirectory"@, s.working_directory);
    lemma_next(lines, p4, s0, e4, st.entries, "WorkingDirectory"@, opt_seq(s.working_directory));
    let p5 = p4 + kvs("WorkingDirectory"@, opt_seq(s.working_directory));
    let e5 = e4 + dirs(sec, "WorkingDirectory"@, opt_seq(s.working_directory));
    lemma_kv_opt("User"@, s.run_as);
    lemma_next(lines, p5, s0, e5, st.entries, "User"@, opt_seq(s.run_as));
    let p6 = p5 + kvs("User"@, opt_seq(s.run_as));
    let e6 = e5 + dirs(sec, "User"@, opt_seq(s.run_as));
    lemma_kv_opt("Group"@, s.group);
    lemma_next(lines, p6, s0, e6, st.entries, "Group"@, opt_seq(s.group));
    let p7 = p6 + kvs("Group"@, opt_seq(s.group));
    let e7 = e6 + dirs(sec, "Group"@, opt_seq(s.group));
    lemma_kv_all("Environment"@, s.environment);
    lemma_next(lines, p7, s0, e7, st.entries, "Environment"@, s.environment);
}

/// The keys that files are written with.
proof fn lemma_section_keys()
    ensures
        is_key("Type"@),
        is_key("ExecStartPre"@),
        is_key("ExecStart"@),
        is_key("ExecStopPost"@),
        is_key("WorkingDirectory"@),
        is_key("User"@),
        is_key("Group"@),
        is_key("Environment"@),
        is_key("StandardOutput"@),
        is_key("StandardError"@),
        is_key("SyslogIdentifier"@),
        is_key("Restart"@),
        is_key("RestartSec"@),
        is_key("WantedBy"@),
        is_key("OnCalendar"@),
        is_key("OnBootSec"@),
        is_key("OnUnitActiveSec"@),
        is_key("Persistent"@),
        is_key("RandomizedDelaySec"@),
        is_key("AccuracySec"@),
        is_key("Unit"@),
        is_key("What"@),
        is_key("Where"@),
        is_key("Options"@),
        is_key("TimeoutIdleSec"@),
        !"Service"@.contains('\n'),
        !"Install"@.contains('\n'),
        !"Timer"@.contains('\n'),
        !"Mount"@.contains('\n'),
        !"Automount"@.contains('\n'),
{
    reveal_strlit("Type");
    reveal_strlit("ExecStartPre");
    reveal_strlit("ExecStart");
    reveal_strlit("ExecStopPost");
    reveal_strlit("WorkingDirectory");
    reveal_strlit("User");
    reveal_strlit("Group");
    reveal_strlit("Environment");
    reveal_strlit("StandardOutput");
    reveal_strlit("StandardError");
    reveal_strlit("SyslogIdentifier");
    reveal_strlit("Restart");
    reveal_strlit("RestartSec");
    reveal_strlit("WantedBy");
    reveal_strlit("OnCalendar");
    reveal_strlit("OnBootSec");
    reveal_strlit("OnUnitActiveSec");
    reveal_strlit("Persistent");
    reveal_strlit("RandomizedDelaySec");
    reveal_strlit("AccuracySec");
    reveal_strlit("Unit");
    reveal_strlit("What");
    reveal_strlit("Where");
    reveal_strlit("Options");
    reveal_strlit("TimeoutIdleSec");
    reveal_strlit("Service");
    reveal_strlit("Install");
    reveal_strlit("Timer");
    reveal_strlit("Mount");
    reveal_strlit("Automount");
}

/// Reading on through one more key of a section that began after `lines`.
proof fn lemma_next(
    lines: Seq<Seq<char>>,
    p: Seq<Seq<char>>,
    st: ScanState,
    e: Seq<DirView>,
    before: Seq<DirView>,
    key: Seq<char>,
    vs: Seq<Seq<char>>,
)
    requires
        reads(lines + p, (ScanState { entries: before + e, ..st })),
        is_key(key),
        forall|i: int| 0 <= i < vs.len() ==> is_value(#[trigger] vs[i]),
    ensures
        reads(
            lines + (p + kvs(key, vs)),
            (ScanState { entries: before + (e + dirs(st.section, key, vs)), ..st }),
        ),
{
    lemma_field(lines + p, (ScanState { entries: before + e, ..st }), key, vs);
    assert(lines + p + kvs(key, vs) =~= lines + (p + kvs(key, vs)));
    assert(before + e + dirs(st.section, key, vs) =~= before + (e + dirs(st.section, key, vs)));
}

/// The output directives of a file as they are read.
proof fn lemma_output_section(lines: Seq<Seq<char>>, st: ScanState, stem: Seq<char>)
    requires
        reads(lines, st),
        st.section == "Service"@,
        is_single(stem),
    ensures
        reads(
            lines + generate::output_of(stem),
            (ScanState { entries: st.entries + output_entries(stem), ..st }),
        ),
{
    let sec = "Service"@;
    lemma_section_keys();
    assert(is_value("journal"@)) by {
        reveal_strlit("journal");
        text::lemma_trim_tight("journal"@);
    }
    let none = Seq::<Seq<char>>::empty();
    let e0 = Seq::<DirView>::empty();
    assert(lines + none =~= lines);
    assert(st.entries + e0 =~= st.entries);
    lemma_next(lines, none, st, e0, st.entries, "StandardOutput"@, seq!["journal"@]);
    let p1 = none + kvs("StandardOutput"@, seq!["journal"@]);
    let e1 = e0 + dirs(sec, "StandardOutput"@, seq!["journal"@]);
    lemma_next(lines, p1, st, e1, st.entries, "StandardError"@, seq!["journal"@]);
    let p2 = p1 + kvs("StandardError"@, seq!["journal"@]);
    let e2 = e1 + dirs(sec, "StandardError"@, seq!["journal"@]);
    let s2 = ScanState { entries: st.entries + e2, ..st };
    lemma_tail_field(lines + p2, s2, "SyslogIdentifier"@, stem);
    assert((lines + p2).push(generate::kv_of("SyslogIdentifier"@, stem)) =~= lines
        + generate::output_of(stem));
    assert(s2.entries.push(
        DirView { section: sec, key: "SyslogIdentifier"@, value: text::trim_of(stem) },
    ) =~= st.entries + output_entries(stem));
}

/// The install section of a file as it is read.
proof fn lemma_install_section(lines: Seq<Seq<char>>, st: ScanState, target: Seq<char>)
    requires
        reads(lines, st),
        is_value(target),
    ensures
        reads(
            lines + generate::install_of(target),
            (ScanState {
                section: "Install"@,
                entries: st.entries + dirs("Install"@, "WantedBy"@, seq![target]),
                ..st
            }),
        ),
{
    let sec = "Install"@;
    lemma_section_keys();
    assert("[Install]"@ =~= seq!['['] + sec + seq![']']) by {
        reveal_strlit("[Install]");
        reveal_strlit("Install");
    }
    lemma_section(lines, st, "[Install]"@, sec);
    let s0 = ScanState { section: sec, ..st };
    lemma_field(lines + seq![seq![], "[Install]"@], s0, "WantedBy"@, seq![target]);
    assert(lines + seq![seq![], "[Install]"@] + kvs("WantedBy"@, seq![target]) =~= lines
        + generate::install_of(target));
}

// ---------------------------------------------------------------------------
// Reading timer directives back
// ---------------------------------------------------------------------------

/// The entries of a schedule.
spec fn schedule_entries(s: ScheduleView) -> Seq<DirView> {
    match s {
        ScheduleView::Calendar(v) => dirs("Timer"@, "OnCalendar"@, v),
        ScheduleView::Every { every, boot } => dirs("Timer"@, "OnBootSec"@, seq![boot]) + dirs(
            "Timer"@,
            "OnUnitActiveSec"@,
            seq![every],
        ),
        ScheduleView::Boot { boot } => dirs("Timer"@, "OnBootSec"@, seq![boot]),
    }
}

/// The schedule lines of a file as they are read.
proof fn lemma_schedule_section(
    lines: Seq<Seq<char>>,
    p: Seq<Seq<char>>,
    st: ScanState,
    s: ScheduleView,
)
    requires
        reads(lines + p, st),
        st.section == "Timer"@,
        is_plain_schedule(s),
    ensures
        reads(
            lines + (p + generate::schedule_of(s)),
            (ScanState { entries: st.entries + schedule_entries(s), ..st }),
        ),
{
    lemma_section_keys();
    let l = lines + p;
    match s {
        ScheduleView::Calendar(v) => {
            lemma_kv_all("OnCalendar"@, v);
            lemma_field(l, st, "OnCalendar"@, v);
        },
        ScheduleView::Every { every, boot } => {
            lemma_field(l, st, "OnBootSec"@, seq![boot]);
            let mid = ScanState {
                entries: st.entries + dirs("Timer"@, "OnBootSec"@, seq![boot]),
                ..st
            };
            lemma_field(
                l + kvs("OnBootSec"@, seq![boot]),
                mid,
                "OnUnitActiveSec"@,
                seq![every],
            );
            assert(l + kvs("OnBootSec"@, seq![boot]) + kvs("OnUnitActiveSec"@, seq![every])
                =~= l + generate::schedule_of(s));
            assert(mid.entries + dirs("Timer"@, "OnUnitActiveSec"@, seq![every]) =~= st.entries
                + schedule_entries(s));
        },
        ScheduleView::Boot { boot } => {
            lemma_field(l, st, "OnBootSec"@, seq![boot]);
            assert(kvs("OnBootSec"@, seq![boot]) =~= generate::schedule_of(s));
        },
    }
    assert(l + generate::schedule_of(s) =~= lines + (p + generate::schedule_of(s)));
}

/// The values of `Persistent=`.
spec fn persistent_seq(t: TimerView) -> Seq<Seq<char>> {
    if t.persistent {
        seq!["true"@]
    } else {
        seq![]
    }
}

/// The entries of a `.timer` file behind its description.
spec fn timer_entries(t: TimerView, stem: Seq<char>) -> Seq<DirView> {
    schedule_entries(t.schedule) + dirs("Timer"@, "Persistent"@, persistent_seq(t)) + dirs(
        "Timer"@,
        "RandomizedDelaySec"@,
        opt_seq(t.randomized_delay),
    ) + dirs("Timer"@, "AccuracySec"@, seq!["1s"@]) + dirs(
        "Timer"@,
        "Unit"@,
        seq![stem + ".service"@],
    ) + dirs("Install"@, "WantedBy"@, seq!["timers.target"@])
}

/// What is found among those entries.
proof fn lemma_timer_found(t: TimerView, stem: Seq<char>, description: Seq<char>, k: Seq<char>)
    ensures
        ({
            let ds = description_dir(description) + timer_entries(t, stem);
            let tm = "Timer"@;
            &&& parse::first_of(ds, tm, k) == or_else(
                or_else(
                    or_else(
                        or_else(
                            schedule_found(t.schedule, k),
                            hit(tm, "Persistent"@, persistent_seq(t), tm, k),
                        ),
                        hit(tm, "RandomizedDelaySec"@, opt_seq(t.randomized_delay), tm, k),
                    ),
                    hit(tm, "AccuracySec"@, seq!["1s"@], tm, k),
                ),
                hit(tm, "Unit"@, seq![stem + ".service"@], tm, k),
            )
            &&& k == "OnCalendar"@ ==> parse::all_of(ds, tm, k) == (match t.schedule {
                ScheduleView::Calendar(v) => v,
                _ => seq![],
            })
        }),
{
    let tm = "Timer"@;
    let none = Seq::<DirView>::empty();
    lemma_timer_keys_differ();
    let a = description_dir(description);
    assert(none + a =~= a);
    lemma_more(none, "Unit"@, "Description"@, seq![description], tm, k);
    assert(parse::all_of(a, tm, k) =~= seq![]);
    let a0 = a + schedule_entries(t.schedule);
    match t.schedule {
        ScheduleView::Calendar(v) => {
            lemma_more(a, tm, "OnCalendar"@, v, tm, k);
        },
        ScheduleView::Every { every, boot } => {
            let b = a + dirs(tm, "OnBootSec"@, seq![boot]);
            lemma_more(a, tm, "OnBootSec"@, seq![boot], tm, k);
            lemma_more(b, tm, "OnUnitActiveSec"@, seq![every], tm, k);
            assert(a0 =~= b + dirs(tm, "OnUnitActiveSec"@, seq![every]));
        },
        ScheduleView::Boot { boot } => {
            lemma_more(a, tm, "OnBootSec"@, seq![boot], tm, k);
        },
    }
    let a1 = a0 + dirs(tm, "Persistent"@, persistent_seq(t));
    lemma_more(a0, tm, "Persistent"@, persistent_seq(t), tm, k);
    let a2 = a1 + dirs(tm, "RandomizedDelaySec"@, opt_seq(t.randomized_delay));
    lemma_more(a1, tm, "RandomizedDelaySec"@, opt_seq(t.randomized_delay), tm, k);
    let a3 = a2 + dirs(tm, "AccuracySec"@, seq!["1s"@]);
    lemma_more(a2, tm, "AccuracySec"@, seq!["1s"@], tm, k);
    let a4 = a3 + dirs(tm, "Unit"@, seq![stem + ".service"@]);
    lemma_more(a3, tm, "Unit"@, seq![stem + ".service"@], tm, k);
    let a5 = a4 + dirs("Install"@, "WantedBy"@, seq!["timers.target"@]);
    lemma_more(a4, "Install"@, "WantedBy"@, seq!["timers.target"@], tm, k);
    assert(a + timer_entries(t, stem) =~= a5);
    if k == "OnCalendar"@ {
        let found = match t.schedule {
            ScheduleView::Calendar(v) => v,
            _ => seq![],
        };
        assert(parse::all_of(a0, tm, k) =~= found);
        assert(parse::all_of(a5, tm, k) =~= found);
    }
}

/// What is found among the entries of a schedule.
spec fn schedule_found(s: ScheduleView, k: Seq<char>) -> Option<Seq<char>> {
    let tm = "Timer"@;
    match s {
        ScheduleView::Calendar(v) => hit(tm, "OnCalendar"@, v, tm, k),
        ScheduleView::Every { every, boot } => or_else(
            hit(tm, "OnBootSec"@, seq![boot], tm, k),
            hit(tm, "OnUnitActiveSec"@, seq![every], tm, k),
        ),
        ScheduleView::Boot { boot } => hit(tm, "OnBootSec"@, seq![boot], tm, k),
    }
}

/// The keys of a timer section are different.
proof fn lemma_timer_keys_differ()
    ensures
        "OnCalendar"@ != "OnBootSec"@,
        "OnCalendar"@ != "OnUnitActiveSec"@,
        "OnCalendar"@ != "Persistent"@,
        "OnCalendar"@ != "RandomizedDelaySec"@,
        "OnCalendar"@ != "AccuracySec"@,
        "OnCalendar"@ != "Unit"@,
        "OnBootSec"@ != "OnUnitActiveSec"@,
        "OnBootSec"@ != "Persistent"@,
        "OnBootSec"@ != "RandomizedDelaySec"@,
        "OnBootSec"@ != "AccuracySec"@,
        "OnBootSec"@ != "Unit"@,
        "OnUnitActiveSec"@ != "Persistent"@,
        "OnUnitActiveSec"@ != "RandomizedDelaySec"@,
        "OnUnitActiveSec"@ != "AccuracySec"@,
        "OnUnitActiveSec"@ != "Unit"@,
        "Persistent"@ != "RandomizedDelaySec"@,
        "Persistent"@ != "AccuracySec"@,
        "Persistent"@ != "Unit"@,
        "RandomizedDelaySec"@ != "AccuracySec"@,
        "RandomizedDelaySec"@ != "Unit"@,
        "AccuracySec"@ != "Unit"@,
        "Unit"@ != "Timer"@,
        "Install"@ != "Timer"@,
{
    reveal_strlit("OnCalendar");
    reveal_strlit("OnBootSec");
    reveal_strlit("OnUnitActiveSec");
    reveal_strlit("Persistent");
    reveal_strlit("RandomizedDelaySec");
    reveal_strlit("AccuracySec");
    reveal_strlit("Unit");
    reveal_strlit("Timer");
    reveal_strlit("Install");
    assert("OnCalendar"@.len() == 10);
    assert("OnBootSec"@.len() == 9);
    assert("OnUnitActiveSec"@.len() == 15);
    assert("Persistent"@.len() == 10);
    assert("RandomizedDelaySec"@.len() == 18);
    assert("AccuracySec"@.len() == 11);
    assert("Unit"@.len() == 4);
    assert("Timer"@.len() == 5);
    assert("Install"@.len() == 7);
    assert("OnCalendar"@[0] != "Persistent"@[0]);
}

/// What a `.timer` file is read as.
proof fn lemma_timer_read(t: TimerView, stem: Seq<char>, description: Seq<char>)
    requires
        is_plain_timer(t),
    ensures
        ({
            let ds = description_dir(description) + timer_entries(t, stem);
            &&& parse::schedule_from(ds) == Some(t.schedule)
            &&& parse::persistent_from(ds) == t.persistent
            &&& parse::first_of(ds, "Timer"@, "RandomizedDelaySec"@) == t.randomized_delay
        }),
{
    lemma_timer_keys_differ();
    lemma_timer_found(t, stem, description, "OnCalendar"@);
    lemma_timer_found(t, stem, description, "OnBootSec"@);
    lemma_timer_found(t, stem, description, "OnUnitActiveSec"@);
    lemma_timer_found(t, stem, description, "Persistent"@);
    lemma_timer_found(t, stem, description, "RandomizedDelaySec"@);
    reveal_strlit("true");
    reveal_strlit("yes");
    reveal_strlit("1");
    assert("true"@.len() == 4 && "yes"@.len() == 3 && "1"@.len() == 1);
    assert(t.persistent ==> persistent_seq(t)[0] == "true"@);
}

// ---------------------------------------------------------------------------
// Reading whole files
// ---------------------------------------------------------------------------

spec fn description_dir(description: Seq<char>) -> Seq<DirView> {
    dirs("Unit"@, "Description"@, seq![description])
}

/// Text behind a value that has no white space around it.
proof fn lemma_tail(v: Seq<char>, suffix: Seq<char>)
    requires
        is_value(v),
        suffix.len() > 0,
        !suffix.contains('\n'),
        !text::is_white(suffix.last()),
    ensures
        is_single(v + suffix),
        v.len() > 0 ==> is_value(v + suffix),
{
    let t = v + suffix;
    text::lemma_trim_trim(v);
    assert(t.last() == suffix.last());
    if v.len() > 0 {
        assert(t[0] == v[0]);
        text::lemma_trim_tight(t);
    }
    assert forall|i: int| 0 <= i < t.len() implies #[trigger] t[i] != '\n' by {
        if i < v.len() {
            assert(t[i] == v[i]);
            assert(v.contains(v[i]));
        } else {
            assert(t[i] == suffix[i - v.len()]);
            assert(suffix.contains(suffix[i - v.len()]));
        }
    }
}

/// The stem of a timer or service with its suffix is a value.
proof fn lemma_stem(name: Seq<char>)
    requires
        is_single(model::prefixed_of(name)),
    ensures
        is_value(model::prefixed_of(name) + ".service"@),
{
    reveal_strlit(".service");
    reveal_strlit("notcron-");
    let stem = model::prefixed_of(name);
    let v = stem + ".service"@;
    assert(stem[0] == model::PREFIX@[0]) by {
        if model::PREFIX@.is_prefix_of(name) {
            assert(name.take(model::PREFIX@.len() as int)[0] == name[0]);
        }
    }
    assert(v[0] == 'n' && v.last() == 'e');
    text::lemma_trim_tight(v);
    assert forall|i: int| 0 <= i < v.len() implies #[trigger] v[i] != '\n' by {
        if i < stem.len() {
            assert(v[i] == stem[i]);
            assert(stem.contains(stem[i]));
        }
    }
}

/// Nothing is kept of a file whose directives are all written.
proof fn lemma_nothing_kept(ds: Seq<DirView>, written: Seq<DirView>, derived: bool)
    requires
        forall|i: int| 0 <= i < ds.len() ==> written.contains(#[trigger] ds[i]),
    ensures
        parse::kept_of(ds, written, derived) == Seq::<DirView>::empty(),
    decreases ds.len(),
{
    if ds.len() > 0 {
        let before = ds.drop_last();
        assert forall|i: int| 0 <= i < before.len() implies written.contains(
            #[trigger] before[i],
        ) by {
            assert(before[i] == ds[i]);
        }
        lemma_nothing_kept(before, written, derived);
        assert(written.contains(ds[ds.len() - 1]));
    }
}

/// The free text of a file whose directives are all written.
proof fn lemma_free(file: ScanView, written: Seq<DirView>, derived: bool)
    requires
        file.entries == written,
        is_free_text(file.manual),
    ensures
        parse::free_of(file, written, derived) == file.manual,
{
    assert forall|i: int| 0 <= i < written.len() implies written.contains(
        #[trigger] written[i],
    ) by {}
    lemma_nothing_kept(file.entries, written, derived);
    lemma_finish(file.manual);
}

/// The `.timer` file as it is read.
proof fn lemma_timer_file(u: UnitView, t: TimerView, stem: Seq<char>)
    requires
        is_value(u.description),
        is_plain_timer(t),
        is_value(stem + ".service"@),
    ensures
        ({
            let file = parse::scan_of(
                generate::body_of(generate::timer_lines(u, t, stem), t.timer_manual),
            );
            &&& file.entries == description_dir(text::trim_of(u.description + " (timer)"@))
                + timer_entries(t, stem)
            &&& file.manual == t.timer_manual
            &&& file.owned
        }),
{
    let tm = "Timer"@;
    lemma_section_keys();
    let d = u.description + " (timer)"@;
    reveal_strlit(" (timer)");
    lemma_tail(u.description, " (timer)"@);
    let none = Seq::<char>::empty();
    text::lemma_trim_tight(none);
    lemma_head(none, d);
    let lines = generate::header_of(none) + generate::unit_section_of(d);
    let h = head_state(none, d);
    assert(h.entries =~= description_dir(text::trim_of(d)));
    assert("[Timer]"@ =~= seq!['['] + tm + seq![']']) by {
        reveal_strlit("[Timer]");
        reveal_strlit("Timer");
    }
    lemma_section(lines, h, "[Timer]"@, tm);
    let p0 = seq![seq![], "[Timer]"@];
    let st = ScanState { section: tm, ..h };
    lemma_schedule_section(lines, p0, st, t.schedule);
    let p1 = p0 + generate::schedule_of(t.schedule);
    let e1 = schedule_entries(t.schedule);
    assert(is_value("true"@) && is_value("1s"@) && is_value("timers.target"@)) by {
        reveal_strlit("true");
        reveal_strlit("1s");
        reveal_strlit("timers.target");
        text::lemma_trim_tight("true"@);
        text::lemma_trim_tight("1s"@);
        text::lemma_trim_tight("timers.target"@);
    }
    assert(generate::persistent_of(t) =~= kvs("Persistent"@, persistent_seq(t)));
    lemma_next(lines, p1, st, e1, h.entries, "Persistent"@, persistent_seq(t));
    let p2 = p1 + generate::persistent_of(t);
    let e2 = e1 + dirs(tm, "Persistent"@, persistent_seq(t));
    lemma_kv_opt("RandomizedDelaySec"@, t.randomized_delay);
    lemma_next(lines, p2, st, e2, h.entries, "RandomizedDelaySec"@, opt_seq(t.randomized_delay));
    let p3 = p2 + kvs("RandomizedDelaySec"@, opt_seq(t.randomized_delay));
    let e3 = e2 + dirs(tm, "RandomizedDelaySec"@, opt_seq(t.randomized_delay));
    lemma_next(lines, p3, st, e3, h.entries, "AccuracySec"@, seq!["1s"@]);
    let p4 = p3 + kvs("AccuracySec"@, seq!["1s"@]);
    let e4 = e3 + dirs(tm, "AccuracySec"@, seq!["1s"@]);
    lemma_next(lines, p4, st, e4, h.entries, "Unit"@, seq![stem + ".service"@]);
    let p5 = p4 + kvs("Unit"@, seq![stem + ".service"@]);
    let e5 = e4 + dirs(tm, "Unit"@, seq![stem + ".service"@]);
    lemma_install_section(
        lines + p5,
        (ScanState { entries: h.entries + e5, ..st }),
        "timers.target"@,
    );
    let all = lines + p5 + generate::install_of("timers.target"@);
    assert(all =~= generate::timer_lines(u, t, stem)) by {
        let q = seq![
            generate::kv_of("AccuracySec"@, "1s"@),
            generate::kv_of("Unit"@, stem + ".service"@),
        ];
        assert(p5 =~= p3 + q);
        let front = lines + p0 + generate::schedule_of(t.schedule) + generate::persistent_of(t)
            + generate::kv_opt_of("RandomizedDelaySec"@, t.randomized_delay);
        assert(front =~= lines + p3);
        assert(lines + p5 =~= front + q);
    }
    let last = ScanState {
        section: "Install"@,
        entries: h.entries + e5 + dirs("Install"@, "WantedBy"@, seq!["timers.target"@]),
        ..st
    };
    lemma_body(all, last, t.timer_manual);
    assert(last.entries =~= description_dir(text::trim_of(d)) + timer_entries(t, stem));
}

/// The `.service` file of a timer as it is read.
proof fn lemma_timer_service_file(u: UnitView, t: TimerView, stem: Seq<char>)
    requires
        is_value(u.description),
        is_plain_timer(t),
        is_single(stem),
    ensures
        parse::scan_of(
            generate::body_of(generate::timer_service_lines(u, t, stem), t.service_manual),
        ) == (ScanView {
            comments: head_state(t.source, u.description).comments,
            entries: description_dir(u.description) + service_entries(t.service) + output_entries(
                stem,
            ),
            manual: t.service_manual,
            owned: true,
        }),
{
    lemma_head(t.source, u.description);
    let h = head_state(t.source, u.description);
    let l0 = generate::header_of(t.source) + generate::unit_section_of(u.description);
    assert(h.entries =~= description_dir(u.description));
    lemma_service_section(l0, h, t.service);
    let l1 = l0 + generate::service_section_of(t.service);
    let s1 = ScanState {
        section: "Service"@,
        entries: h.entries + service_entries(t.service),
        ..h
    };
    lemma_output_section(l1, s1, stem);
    let s2 = ScanState { entries: s1.entries + output_entries(stem), ..s1 };
    lemma_body(l1 + generate::output_of(stem), s2, t.service_manual);
}

/// What the comments of a service file say of the schedule.
proof fn lemma_source(source: Seq<char>, description: Seq<char>)
    requires
        is_value(source),
    ensures
        parse::source_of(head_state(source, description).comments) == source,
{
    let c = head_state(source, description).comments;
    reveal_strlit("schedule:");
    reveal_strlit("schedule: ");
    reveal_strlit("https://github.com/suchattai-labs/notcron-rs");
    let key = "schedule:"@;
    if key.is_prefix_of(HOMEPAGE@) {
        assert(HOMEPAGE@.take(9)[0] == HOMEPAGE@[0]);
    }
    assert(c[0] == HOMEPAGE@);
    assert(parse::source_of(c) == parse::source_of(c.skip(1)));
    if source.len() == 0 {
        assert(c.skip(1) =~= seq![]);
        assert(source =~= seq![]);
    } else {
        let line = "schedule: "@ + source;
        assert(c.skip(1)[0] == line);
        assert(line.take(9) =~= key);
        let rest = line.skip(9);
        assert(rest.skip(1) =~= source);
        text::lemma_trim_trim(source);
        assert(text::trim_start_of(rest) == text::trim_start_of(rest.skip(1)));
        assert(text::trim_of(rest) == source);
    }
}

/// The description of a file, read.
proof fn lemma_description_first(description: Seq<char>, rest: Seq<DirView>)
    ensures
        parse::description_of(description_dir(description) + rest) == description,
{
    assert((description_dir(description) + rest)[0].value == description);
}

/// The names of a unit's files, taken apart.
proof fn lemma_file_name(stem: Seq<char>)
    ensures
        parts::rsplit_once_of(stem + ".timer"@, '.') == Some((stem, "timer"@)),
        parts::rsplit_once_of(stem + ".service"@, '.') == Some((stem, "service"@)),
        parts::rsplit_once_of(stem + ".mount"@, '.') == Some((stem, "mount"@)),
        parts::rsplit_once_of(stem + ".automount"@, '.') == Some((stem, "automount"@)),
        ".timer"@.is_suffix_of(stem + ".timer"@),
        !".timer"@.is_suffix_of(stem + ".service"@),
        !".automount"@.is_suffix_of(stem + ".service"@),
        !".mount"@.is_suffix_of(stem + ".service"@),
        ".service"@.is_suffix_of(stem + ".service"@),
        !".timer"@.is_suffix_of(stem + ".automount"@),
        ".automount"@.is_suffix_of(stem + ".automount"@),
        !".timer"@.is_suffix_of(stem + ".mount"@),
        !".automount"@.is_suffix_of(stem + ".mount"@),
        ".mount"@.is_suffix_of(stem + ".mount"@),
{
    reveal_strlit(".timer");
    reveal_strlit(".service");
    reveal_strlit(".mount");
    reveal_strlit(".automount");
    reveal_strlit("timer");
    reveal_strlit("service");
    reveal_strlit("mount");
    reveal_strlit("automount");
    assert(".timer"@ =~= seq!['.'] + "timer"@);
    assert(".service"@ =~= seq!['.'] + "service"@);
    assert(".mount"@ =~= seq!['.'] + "mount"@);
    assert(".automount"@ =~= seq!['.'] + "automount"@);
    lemma_split_name(stem, ".timer"@, "timer"@);
    lemma_split_name(stem, ".service"@, "service"@);
    lemma_split_name(stem, ".mount"@, "mount"@);
    lemma_split_name(stem, ".automount"@, "automount"@);
    lemma_not_suffix(stem, ".service"@, ".timer"@, 1);
    lemma_not_suffix(stem, ".service"@, ".automount"@, 1);
    lemma_not_suffix(stem, ".service"@, ".mount"@, 1);
    lemma_not_suffix(stem, ".automount"@, ".timer"@, 1);
    lemma_not_suffix(stem, ".mount"@, ".timer"@, 1);
    lemma_not_suffix(stem, ".mount"@, ".automount"@, 6);
}

proof fn lemma_split_name(stem: Seq<char>, suffix: Seq<char>, kind: Seq<char>)
    requires
        suffix == seq!['.'] + kind,
        !kind.contains('.'),
    ensures
        parts::rsplit_once_of(stem + suffix, '.') == Some((stem, kind)),
        suffix.is_suffix_of(stem + suffix),
{
    let name = stem + suffix;
    let k = stem.len() as int;
    assert(name[k] == '.');
    assert forall|i: int| k < i < name.len() implies #[trigger] name[i] != '.' by {
        assert(name[i] == kind[i - k - 1]);
        assert(kind.contains(kind[i - k - 1]));
    }
    text::lemma_last_index_at(name, '.', k);
    assert(name.take(k) =~= stem);
    assert(name.skip(k + 1) =~= kind);
    assert(name.skip(k) =~= suffix);
    assert(name.subrange(k, name.len() as int) =~= suffix);
}

proof fn lemma_not_suffix(stem: Seq<char>, end: Seq<char>, other: Seq<char>, back: int)
    requires
        0 < back <= end.len(),
        back <= other.len(),
        end[end.len() - back] != other[other.len() - back],
    ensures
        !other.is_suffix_of(stem + end),
{
    let name = stem + end;
    assert(name[name.len() - back] == end[end.len() - back]);
    if other.is_suffix_of(name) {
        let cut = name.subrange((name.len() - other.len()) as int, name.len() as int);
        assert(cut[other.len() - back] == name[name.len() - back]);
        assert(cut == other);
    }
}

/// What the files of a timer describe, read.
proof fn lemma_timer_parsed(
    u: UnitView,
    t: TimerView,
    stem: Seq<char>,
    timer: ScanView,
    service: ScanView,
)
    requires
        u.body == BodyView::Timer(t),
        is_value(u.description),
        is_single(stem),
        stem == model::prefixed_of(u.name),
        model::unprefixed_of(stem) == u.name,
        is_value(stem + ".service"@),
        is_plain_timer(t),
        timer.entries == description_dir(text::trim_of(u.description + " (timer)"@))
            + timer_entries(t, stem),
        timer.manual == t.timer_manual,
        service.comments == head_state(t.source, u.description).comments,
        service.entries == description_dir(u.description) + service_entries(t.service)
            + output_entries(stem),
        service.manual == t.service_manual,
    ensures
        parse::timer_of(u.scope, stem, timer, service) == Ok::<UnitView, Seq<char>>(u),
{
    lemma_timer_read(t, stem, text::trim_of(u.description + " (timer)"@));
    let d = description_dir(u.description);
    let e = service_entries(t.service);
    let o = output_entries(stem);
    assert(d + e + o =~= d + (e + o));
    lemma_description_first(u.description, e + o);
    lemma_service_read(ServiceType::Oneshot, u.description, t.service, stem);
    lemma_source(t.source, u.description);
    let bare = TimerView { timer_manual: seq![], service_manual: seq![], ..t };
    let v = UnitView { body: BodyView::Timer(bare), ..u };
    reveal(parse::timer_of);
    let got = parse::bare_timer(u.scope, stem, timer, service, t.schedule);
    assert(got.body->Timer_0 =~= bare);
    assert(got =~= v);
    assert(is_free_text(Seq::<char>::empty())) by {
        assert(text::trim_end_of(Seq::<char>::empty()) =~= seq![]);
    }
    lemma_timer_file(v, bare, stem);
    lemma_timer_service_file(v, bare, stem);
    assert(timer_entries(bare, stem) =~= timer_entries(t, stem));
    lemma_free(timer, parse::written_at(v, 0), true);
    lemma_free(service, parse::written_at(v, 1), false);
    assert(TimerView {
        timer_manual: t.timer_manual,
        service_manual: t.service_manual,
        ..bare
    } =~= t);
}

/// The settings of a timer's service, read.
proof fn lemma_service_read(
    kind: ServiceType,
    description: Seq<char>,
    s: ServiceView,
    stem: Seq<char>,
)
    requires
        s.restart == RestartPolicy::No,
        s.restart_sec is None,
    ensures
        parse::service_from(
            kind,
            description_dir(description) + service_entries(s) + output_entries(stem),
        ) == s,
{
    let a = description_dir(description) + service_entries(s);
    let sec = "Service"@;
    reveal(parse::service_from);
    lemma_finds(description, s);
    lemma_service_names(s.service_type, s.restart);
    lemma_service_keys_differ();
    lemma_output_found(a, stem, sec, "Type"@);
    lemma_output_found(a, stem, sec, "ExecStart"@);
    lemma_output_found(a, stem, sec, "ExecStartPre"@);
    lemma_output_found(a, stem, sec, "ExecStopPost"@);
    lemma_output_found(a, stem, sec, "WorkingDirectory"@);
    lemma_output_found(a, stem, sec, "User"@);
    lemma_output_found(a, stem, sec, "Group"@);
    lemma_output_found(a, stem, sec, "Environment"@);
    lemma_output_found(a, stem, sec, "Restart"@);
    lemma_output_found(a, stem, sec, "RestartSec"@);
}

/// Free text without leftovers is kept as it is.
proof fn lemma_finish(m: Seq<char>)
    requires
        is_free_text(m),
    ensures
        parse::left_finish(parse::no_leftovers(), m) == m,
{
    assert(text::trim_end_of(Seq::<char>::empty()) =~= seq![]);
}

/// A timer that was written reads as itself.
proof fn lemma_timer_round_trip(u: UnitView, t: TimerView)
    requires
        is_plain(u),
        u.body == BodyView::Timer(t),
    ensures
        parse::parse_of(u.scope, generate::render_of(u)) == Ok::<(UnitView, bool), Seq<char>>(
            (u, true),
        ),
{
    let stem = model::prefixed_of(u.name);
    let files = generate::render_of(u);
    lemma_stem(u.name);
    lemma_file_name(stem);
    model::law_unprefixed_prefixed(u.name);
    lemma_timer_file(u, t, stem);
    lemma_timer_service_file(u, t, stem);
    let timer = parse::scan_of(files[0].body);
    let service = parse::scan_of(files[1].body);
    assert(parse::scan_at(files, 0) == timer);
    assert(parse::scan_at(files, 1) == service);
    lemma_timer_parsed(u, t, stem, timer, service);
    assert(timer.owned);
    assert(parse::any_owned(files));
}

/// The entries of a standalone service behind its common settings.
spec fn standalone_entries(s: StandaloneView, stem: Seq<char>) -> Seq<DirView> {
    dirs("Service"@, "Restart"@, seq![s.service.restart.name()]) + dirs(
        "Service"@,
        "RestartSec"@,
        opt_seq(s.service.restart_sec),
    ) + output_entries(stem) + dirs("Install"@, "WantedBy"@, seq![s.wanted_by])
}

/// A standalone service file as it is read.
proof fn lemma_standalone_file(u: UnitView, s: StandaloneView, stem: Seq<char>)
    requires
        is_value(u.description),
        is_plain_service(s.service),
        is_value(s.wanted_by),
        is_free_text(s.manual),
        is_single(stem),
    ensures
        ({
            let file = parse::scan_of(
                generate::body_of(generate::standalone_lines(u, s, stem), s.manual),
            );
            &&& file.entries == description_dir(u.description) + (service_entries(s.service)
                + standalone_entries(s, stem))
            &&& file.manual == s.manual
            &&& file.owned
        }),
{
    let sec = "Service"@;
    let none = Seq::<char>::empty();
    lemma_section_keys();
    text::lemma_trim_tight(none);
    lemma_head(none, u.description);
    let h = head_state(none, u.description);
    let l0 = generate::header_of(none) + generate::unit_section_of(u.description);
    assert(h.entries =~= description_dir(u.description));
    lemma_service_section(l0, h, s.service);
    let l1 = l0 + generate::service_section_of(s.service);
    let s1 = ScanState { section: sec, entries: h.entries + service_entries(s.service), ..h };
    lemma_service_names(ServiceType::Simple, s.service.restart);
    lemma_field(l1, s1, "Restart"@, seq![s.service.restart.name()]);
    let r = kvs("Restart"@, seq![s.service.restart.name()]);
    assert(r =~= seq![generate::kv_of("Restart"@, s.service.restart.name())]);
    let e2 = dirs(sec, "Restart"@, seq![s.service.restart.name()]);
    let l2 = l1 + r;
    let s2 = ScanState { entries: s1.entries + e2, ..s1 };
    lemma_kv_opt("RestartSec"@, s.service.restart_sec);
    lemma_field(l2, s2, "RestartSec"@, opt_seq(s.service.restart_sec));
    let e3 = dirs(sec, "RestartSec"@, opt_seq(s.service.restart_sec));
    let l3 = l2 + kvs("RestartSec"@, opt_seq(s.service.restart_sec));
    let s3 = ScanState { entries: s2.entries + e3, ..s2 };
    lemma_output_section(l3, s3, stem);
    let l4 = l3 + generate::output_of(stem);
    let s4 = ScanState { entries: s3.entries + output_entries(stem), ..s3 };
    lemma_install_section(l4, s4, s.wanted_by);
    let e5 = dirs("Install"@, "WantedBy"@, seq![s.wanted_by]);
    let s5 = ScanState { section: "Install"@, entries: s4.entries + e5, ..s4 };
    lemma_body(l4 + generate::install_of(s.wanted_by), s5, s.manual);
    assert(s5.entries =~= description_dir(u.description) + (service_entries(s.service)
        + standalone_entries(s, stem)));
}

/// The settings of a standalone service, read.
proof fn lemma_standalone_read(s: StandaloneView, description: Seq<char>, stem: Seq<char>)
    ensures
        ({
            let ds = description_dir(description) + (service_entries(s.service)
                + standalone_entries(s, stem));
            &&& parse::service_from(ServiceType::Simple, ds) == s.service
            &&& parse::first_of(ds, "Install"@, "WantedBy"@) == Some(s.wanted_by)
        }),
{
    let d = description_dir(description);
    let e = service_entries(s.service);
    let ds = d + (e + standalone_entries(s, stem));
    let sec = "Service"@;
    reveal(parse::service_from);
    lemma_finds(description, s.service);
    lemma_service_names(s.service.service_type, s.service.restart);
    lemma_service_keys_differ();
    lemma_standalone_found(s, description, stem, sec, "Type"@);
    lemma_standalone_found(s, description, stem, sec, "ExecStart"@);
    lemma_standalone_found(s, description, stem, sec, "ExecStartPre"@);
    lemma_standalone_found(s, description, stem, sec, "ExecStopPost"@);
    lemma_standalone_found(s, description, stem, sec, "WorkingDirectory"@);
    lemma_standalone_found(s, description, stem, sec, "User"@);
    lemma_standalone_found(s, description, stem, sec, "Group"@);
    lemma_standalone_found(s, description, stem, sec, "Environment"@);
    lemma_standalone_found(s, description, stem, sec, "Restart"@);
    lemma_standalone_found(s, description, stem, sec, "RestartSec"@);
    assert("Install"@ != sec) by {
        reveal_strlit("Install");
        reveal_strlit("Service");
        assert("Install"@[0] != sec[0]);
    }
    lemma_standalone_found(s, description, stem, "Install"@, "WantedBy"@);
    assert(parse::all_of(ds, sec, "Environment"@) =~= s.service.environment);
}

/// What is found in a standalone service file.
proof fn lemma_standalone_found(
    s: StandaloneView,
    description: Seq<char>,
    stem: Seq<char>,
    at: Seq<char>,
    k: Seq<char>,
)
    requires
        at == "Service"@ || (at == "Install"@ && k == "WantedBy"@),
        at == "Service"@ ==> k != "StandardOutput"@ && k != "StandardError"@ && k
            != "SyslogIdentifier"@,
    ensures
        ({
            let a = description_dir(description) + service_entries(s.service);
            let ds = description_dir(description) + (service_entries(s.service)
                + standalone_entries(s, stem));
            let sec = "Service"@;
            let found = parse::first_of(a, at, k);
            if at == sec {
                &&& parse::first_of(ds, at, k) == or_else(
                    or_else(
                        found,
                        hit(sec, "Restart"@, seq![s.service.restart.name()], sec, k),
                    ),
                    hit(sec, "RestartSec"@, opt_seq(s.service.restart_sec), sec, k),
                )
                &&& k == "Environment"@ ==> parse::all_of(ds, at, k) == parse::all_of(a, at, k)
            } else {
                parse::first_of(ds, at, k) == Some(s.wanted_by)
            }
        }),
{
    let sec = "Service"@;
    let d = description_dir(description);
    let e = service_entries(s.service);
    let a = d + e;
    lemma_service_keys_differ();
    assert("Install"@ != sec && "Unit"@ != "Install"@) by {
        reveal_strlit("Install");
        reveal_strlit("Service");
        reveal_strlit("Unit");
        assert("Install"@[0] != sec[0]);
    }
    if at != sec {
        let none = Seq::<DirView>::empty();
        assert forall|i: int| 0 <= i < a.len() implies (#[trigger] a[i]).section != at by {
            if i < d.len() {
                assert(a[i] == d[i]);
            } else {
                assert(a[i] == e[i - d.len()]);
            }
        }
        assert(a + none =~= a);
        lemma_first_skip(a, none, at, k);
    }
    let a0 = a + dirs(sec, "Restart"@, seq![s.service.restart.name()]);
    lemma_more(a, sec, "Restart"@, seq![s.service.restart.name()], at, k);
    let a1 = a0 + dirs(sec, "RestartSec"@, opt_seq(s.service.restart_sec));
    lemma_more(a0, sec, "RestartSec"@, opt_seq(s.service.restart_sec), at, k);
    let a2 = a1 + output_entries(stem);
    lemma_output_found(a1, stem, at, k);
    lemma_more(a2, "Install"@, "WantedBy"@, seq![s.wanted_by], at, k);
    assert(d + (e + standalone_entries(s, stem)) =~= a2 + dirs(
        "Install"@,
        "WantedBy"@,
        seq![s.wanted_by],
    ));
    if k == "Environment"@ {
        let found = parse::all_of(a, at, k);
        assert(found + seq![] =~= found);
    }
}

/// The first match behind directives of other sections.
proof fn lemma_first_skip(a: Seq<DirView>, b: Seq<DirView>, section: Seq<char>, key: Seq<char>)
    requires
        forall|i: int|
            0 <= i < a.len() ==> (#[trigger] a[i]).section != section || a[i].key != key,
    ensures
        parse::first_of(a + b, section, key) == parse::first_of(b, section, key),
    decreases a.len(),
{
    if a.len() == 0 {
        assert(a + b =~= b);
    } else {
        assert((a + b)[0] == a[0]);
        assert((a + b).skip(1) =~= a.skip(1) + b);
        assert forall|i: int| 0 <= i < a.skip(1).len() implies (#[trigger] a.skip(1)[i]).section
            != section || a.skip(1)[i].key != key by {
            assert(a.skip(1)[i] == a[i + 1]);
        }
        lemma_first_skip(a.skip(1), b, section, key);
    }
}

/// A directive found at the front.
proof fn lemma_first_here(section: Seq<char>, key: Seq<char>, v: Seq<char>, b: Seq<DirView>)
    ensures
        parse::first_of(dirs(section, key, seq![v]) + b, section, key) == Some(v),
{
    assert((dirs(section, key, seq![v]) + b)[0].value == v);
}

/// What a standalone service file describes, read.
proof fn lemma_standalone_parsed(
    u: UnitView,
    s: StandaloneView,
    stem: Seq<char>,
    file: ScanView,
)
    requires
        is_plain(u),
        u.body == BodyView::Service(s),
        stem == model::prefixed_of(u.name),
        model::unprefixed_of(stem) == u.name,
        file.entries == description_dir(u.description) + (service_entries(s.service)
            + standalone_entries(s, stem)),
        file.manual == s.manual,
    ensures
        parse::service_of(u.scope, stem, file) == u,
{
    reveal(parse::service_of);
    lemma_description_first(
        u.description,
        service_entries(s.service) + standalone_entries(s, stem),
    );
    lemma_standalone_read(s, u.description, stem);
    let bare = StandaloneView { manual: seq![], ..s };
    let v = UnitView { body: BodyView::Service(bare), ..u };
    let got = parse::bare_service(u.scope, stem, file);
    assert(got.body->Service_0 =~= bare);
    assert(got =~= v);
    assert(is_free_text(Seq::<char>::empty())) by {
        assert(text::trim_end_of(Seq::<char>::empty()) =~= seq![]);
    }
    lemma_standalone_file(v, bare, stem);
    assert(standalone_entries(bare, stem) =~= standalone_entries(s, stem));
    lemma_free(file, parse::written_at(v, 0), false);
}

/// A standalone service that was written reads as itself.
proof fn lemma_standalone_round_trip(u: UnitView, s: StandaloneView)
    requires
        is_plain(u),
        u.body == BodyView::Service(s),
    ensures
        parse::parse_of(u.scope, generate::render_of(u)) == Ok::<(UnitView, bool), Seq<char>>(
            (u, true),
        ),
{
    let stem = model::prefixed_of(u.name);
    let files = generate::render_of(u);
    lemma_stem(u.name);
    lemma_file_name(stem);
    model::law_unprefixed_prefixed(u.name);
    lemma_standalone_file(u, s, stem);
    let file = parse::scan_of(files[0].body);
    assert(parse::scan_at(files, 0) == file);
    lemma_standalone_parsed(u, s, stem, file);
    assert(file.owned);
    assert(parse::any_owned(files));
}

/// The entries of a `.mount` file behind its description.
spec fn mount_entries(m: MountView) -> Seq<DirView> {
    dirs("Mount"@, "What"@, seq![m.what]) + dirs("Mount"@, "Where"@, seq![m.where_]) + dirs(
        "Mount"@,
        "Type"@,
        seq![m.fstype],
    ) + dirs("Mount"@, "Options"@, full_seq(m.options)) + dirs(
        "Install"@,
        "WantedBy"@,
        seq!["multi-user.target"@],
    )
}

/// The entries of an `.automount` file behind its description.
spec fn automount_entries(m: MountView) -> Seq<DirView> {
    dirs("Automount"@, "Where"@, seq![m.where_]) + dirs(
        "Automount"@,
        "TimeoutIdleSec"@,
        opt_seq(m.timeout_idle),
    ) + dirs("Install"@, "WantedBy"@, seq!["multi-user.target"@])
}

proof fn lemma_multi_user()
    ensures
        is_value("multi-user.target"@),
{
    reveal_strlit("multi-user.target");
    text::lemma_trim_tight("multi-user.target"@);
}

/// The `.mount` file as it is read.
proof fn lemma_mount_file(u: UnitView, m: MountView)
    requires
        is_value(u.description),
        is_plain_mount(m),
    ensures
        ({
            let file = parse::scan_of(
                generate::body_of(generate::mount_lines(u, m), m.manual),
            );
            &&& file.entries == description_dir(u.description) + mount_entries(m)
            &&& file.manual == m.manual
            &&& file.owned
        }),
{
    let sec = "Mount"@;
    let none = Seq::<char>::empty();
    lemma_section_keys();
    lemma_multi_user();
    text::lemma_trim_tight(none);
    lemma_head(none, u.description);
    let h = head_state(none, u.description);
    let l0 = generate::header_of(none) + generate::unit_section_of(u.description);
    assert(h.entries =~= description_dir(u.description));
    assert("[Mount]"@ =~= seq!['['] + sec + seq![']']) by {
        reveal_strlit("[Mount]");
        reveal_strlit("Mount");
    }
    lemma_section(l0, h, "[Mount]"@, sec);
    let p0 = seq![seq![], "[Mount]"@];
    let st = ScanState { section: sec, ..h };
    let e0 = Seq::<DirView>::empty();
    assert(h.entries + e0 =~= h.entries);
    lemma_next(l0, p0, st, e0, h.entries, "What"@, seq![m.what]);
    let p1 = p0 + kvs("What"@, seq![m.what]);
    let e1 = e0 + dirs(sec, "What"@, seq![m.what]);
    assert(e1 =~= dirs(sec, "What"@, seq![m.what]));
    lemma_next(l0, p1, st, e1, h.entries, "Where"@, seq![m.where_]);
    let p2 = p1 + kvs("Where"@, seq![m.where_]);
    let e2 = e1 + dirs(sec, "Where"@, seq![m.where_]);
    lemma_next(l0, p2, st, e2, h.entries, "Type"@, seq![m.fstype]);
    let p3 = p2 + kvs("Type"@, seq![m.fstype]);
    let e3 = e2 + dirs(sec, "Type"@, seq![m.fstype]);
    assert(p3 =~= seq![
        seq![],
        "[Mount]"@,
        generate::kv_of("What"@, m.what),
        generate::kv_of("Where"@, m.where_),
        generate::kv_of("Type"@, m.fstype),
    ]);
    lemma_kv_full("Options"@, m.options);
    lemma_field(
        l0 + p3,
        (ScanState { entries: h.entries + e3, ..st }),
        "Options"@,
        full_seq(m.options),
    );
    let l4 = l0 + p3 + kvs("Options"@, full_seq(m.options));
    let e4 = dirs(sec, "Options"@, full_seq(m.options));
    let s4 = ScanState { entries: h.entries + e3 + e4, ..st };
    lemma_install_section(l4, s4, "multi-user.target"@);
    let e5 = dirs("Install"@, "WantedBy"@, seq!["multi-user.target"@]);
    let s5 = ScanState { section: "Install"@, entries: s4.entries + e5, ..s4 };
    lemma_body(l4 + generate::install_of("multi-user.target"@), s5, m.manual);
    assert(s5.entries =~= description_dir(u.description) + mount_entries(m));
}

/// The `.automount` file as it is read.
proof fn lemma_automount_file(u: UnitView, m: MountView)
    requires
        is_value(u.description),
        is_plain_mount(m),
    ensures
        ({
            let file = parse::scan_of(
                generate::body_of(generate::automount_lines(u, m), m.automount_manual),
            );
            &&& file.entries == description_dir(text::trim_of(u.description + " (automount)"@))
                + automount_entries(m)
            &&& file.manual == m.automount_manual
            &&& file.owned
        }),
{
    let sec = "Automount"@;
    let none = Seq::<char>::empty();
    let d = u.description + " (automount)"@;
    lemma_section_keys();
    lemma_multi_user();
    reveal_strlit(" (automount)");
    lemma_tail(u.description, " (automount)"@);
    text::lemma_trim_tight(none);
    lemma_head(none, d);
    let h = head_state(none, d);
    let l0 = generate::header_of(none) + generate::unit_section_of(d);
    assert(h.entries =~= description_dir(text::trim_of(d)));
    assert("[Automount]"@ =~= seq!['['] + sec + seq![']']) by {
        reveal_strlit("[Automount]");
        reveal_strlit("Automount");
    }
    lemma_section(l0, h, "[Automount]"@, sec);
    let p0 = seq![seq![], "[Automount]"@];
    let st = ScanState { section: sec, ..h };
    let e0 = Seq::<DirView>::empty();
    assert(h.entries + e0 =~= h.entries);
    lemma_next(l0, p0, st, e0, h.entries, "Where"@, seq![m.where_]);
    let p1 = p0 + kvs("Where"@, seq![m.where_]);
    let e1 = e0 + dirs(sec, "Where"@, seq![m.where_]);
    assert(e1 =~= dirs(sec, "Where"@, seq![m.where_]));
    assert(p1 =~= seq![seq![], "[Automount]"@, generate::kv_of("Where"@, m.where_)]);
    lemma_kv_opt("TimeoutIdleSec"@, m.timeout_idle);
    lemma_field(
        l0 + p1,
        (ScanState { entries: h.entries + e1, ..st }),
        "TimeoutIdleSec"@,
        opt_seq(m.timeout_idle),
    );
    let l2 = l0 + p1 + kvs("TimeoutIdleSec"@, opt_seq(m.timeout_idle));
    let e2 = dirs(sec, "TimeoutIdleSec"@, opt_seq(m.timeout_idle));
    let s2 = ScanState { entries: h.entries + e1 + e2, ..st };
    lemma_install_section(l2, s2, "multi-user.target"@);
    let e3 = dirs("Install"@, "WantedBy"@, seq!["multi-user.target"@]);
    let s3 = ScanState { section: "Install"@, entries: s2.entries + e3, ..s2 };
    lemma_body(l2 + generate::install_of("multi-user.target"@), s3, m.automount_manual);
    assert(s3.entries =~= description_dir(text::trim_of(d)) + automount_entries(m));
}

/// What the directives of a `.mount` file say.
proof fn lemma_mount_lookups(m: MountView, description: Seq<char>)
    ensures
        ({
            let ds = description_dir(description) + mount_entries(m);
            &&& parse::first_of(ds, "Mount"@, "What"@) == Some(m.what)
            &&& parse::first_of(ds, "Mount"@, "Where"@) == Some(m.where_)
            &&& parse::first_of(ds, "Mount"@, "Type"@) == Some(m.fstype)
            &&& parse::first_or_empty(ds, "Mount"@, "Options"@) == m.options
            &&& parse::first_of(ds, "Unit"@, "Description"@) == Some(description)
        }),
{
    let sec = "Mount"@;
    let d = description_dir(description);
    let a0 = dirs(sec, "What"@, seq![m.what]);
    let a1 = dirs(sec, "Where"@, seq![m.where_]);
    let a2 = dirs(sec, "Type"@, seq![m.fstype]);
    let a3 = dirs(sec, "Options"@, full_seq(m.options));
    let a4 = dirs("Install"@, "WantedBy"@, seq!["multi-user.target"@]);
    let ds = d + mount_entries(m);
    reveal_strlit("Mount");
    reveal_strlit("Unit");
    reveal_strlit("Install");
    reveal_strlit("What");
    reveal_strlit("Where");
    reveal_strlit("Type");
    reveal_strlit("Options");
    assert("What"@[0] != "Type"@[0]);
    assert("Mount"@.len() == 5 && "Unit"@.len() == 4 && "Install"@.len() == 7);
    assert("What"@.len() == 4 && "Where"@.len() == 5 && "Type"@.len() == 4);
    assert("Options"@.len() == 7);
    assert(ds =~= d + (a0 + (a1 + a2 + a3 + a4)));
    lemma_first_here("Unit"@, "Description"@, description, a0 + (a1 + a2 + a3 + a4));
    lemma_first_skip(d, a0 + (a1 + a2 + a3 + a4), sec, "What"@);
    lemma_first_here(sec, "What"@, m.what, a1 + a2 + a3 + a4);
    assert(ds =~= (d + a0) + (a1 + (a2 + a3 + a4)));
    lemma_first_skip(d + a0, a1 + (a2 + a3 + a4), sec, "Where"@);
    lemma_first_here(sec, "Where"@, m.where_, a2 + a3 + a4);
    assert(ds =~= (d + a0 + a1) + (a2 + (a3 + a4)));
    lemma_first_skip(d + a0 + a1, a2 + (a3 + a4), sec, "Type"@);
    lemma_first_here(sec, "Type"@, m.fstype, a3 + a4);
    if m.options.len() > 0 {
        assert(ds =~= (d + a0 + a1 + a2) + (a3 + a4));
        lemma_first_skip(d + a0 + a1 + a2, a3 + a4, sec, "Options"@);
        lemma_first_here(sec, "Options"@, m.options, a4);
    } else {
        assert(ds + seq![] =~= ds);
        lemma_first_skip(ds, seq![], sec, "Options"@);
        assert(m.options =~= seq![]);
    }
}

/// What the directives of an `.automount` file say.
proof fn lemma_automount_lookups(m: MountView, description: Seq<char>)
    ensures
        ({
            let ds = description_dir(description) + automount_entries(m);
            &&& parse::first_of(ds, "Automount"@, "TimeoutIdleSec"@) == m.timeout_idle
            &&& parse::first_of(ds, "Unit"@, "Description"@) == Some(description)
        }),
{
    let sec = "Automount"@;
    let d = description_dir(description);
    let a0 = dirs(sec, "Where"@, seq![m.where_]);
    let a1 = dirs(sec, "TimeoutIdleSec"@, opt_seq(m.timeout_idle));
    let a2 = dirs("Install"@, "WantedBy"@, seq!["multi-user.target"@]);
    let ds = d + automount_entries(m);
    reveal_strlit("Automount");
    reveal_strlit("Unit");
    reveal_strlit("Install");
    reveal_strlit("Where");
    reveal_strlit("TimeoutIdleSec");
    assert("Automount"@.len() == 9 && "Unit"@.len() == 4 && "Install"@.len() == 7);
    assert("Where"@.len() == 5 && "TimeoutIdleSec"@.len() == 14);
    assert(ds =~= d + (a0 + a1 + a2));
    lemma_first_here("Unit"@, "Description"@, description, a0 + a1 + a2);
    match m.timeout_idle {
        Some(v) => {
            assert(ds =~= (d + a0) + (a1 + a2));
            lemma_first_skip(d + a0, a1 + a2, sec, "TimeoutIdleSec"@);
            lemma_first_here(sec, "TimeoutIdleSec"@, v, a2);
        },
        None => {
            assert(ds + seq![] =~= ds);
            lemma_first_skip(ds, seq![], sec, "TimeoutIdleSec"@);
        },
    }
}

/// The description of a mount, read out of its automount.
proof fn lemma_mount_description(d: Seq<char>)
    requires
        is_value(d),
    ensures
        parse::mount_description_of(text::trim_of(d + " (automount)"@)) == d,
{
    reveal_strlit(" (automount)");
    reveal_strlit(" ");
    let end = " (automount)"@;
    let whole = d + end;
    text::lemma_trim_trim(d);
    assert(whole.last() == ')');
    let v = text::trim_of(whole);
    let full = " "@ + v;
    if d.len() == 0 {
        assert(whole =~= end);
        assert(end.skip(1)[0] == '(');
        text::lemma_trim_tight(end.skip(1));
        assert(text::trim_start_of(end) == text::trim_start_of(end.skip(1)));
        assert(v == end.skip(1));
        assert(full =~= end);
        assert(full.subrange(0, full.len() as int) =~= end);
        assert(full.take(0) =~= seq![]);
        text::lemma_trim_tight(Seq::<char>::empty());
        assert(d =~= seq![]);
    } else {
        assert(whole[0] == d[0]);
        text::lemma_trim_tight(whole);
        let n = full.len() - end.len();
        assert(full.subrange(n, full.len() as int) =~= end);
        assert(full.take(n) =~= " "@ + d);
        let s = " "@ + d;
        assert(s.skip(1) =~= d);
        assert(text::trim_start_of(s) == text::trim_start_of(s.skip(1)));
        text::lemma_trim_tight(d);
    }
}

/// What the files of a mount describe, read.
proof fn lemma_mount_parsed(u: UnitView, m: MountView, am: ScanView, mnt: ScanView)
    requires
        u.body == BodyView::Mount(m),
        is_plain(u),
        mnt.entries == description_dir(u.description) + mount_entries(m),
        mnt.manual == m.manual,
        m.automount ==> am.entries == description_dir(
            text::trim_of(u.description + " (automount)"@),
        ) + automount_entries(m),
        m.automount ==> am.manual == m.automount_manual,
        !m.automount ==> am == parse::scan_nothing(),
    ensures
        parse::mount_of(u.scope, u.name, am, mnt, m.automount) == u,
{
    reveal(parse::mount_of);
    let d = text::trim_of(u.description + " (automount)"@);
    lemma_mount_lookups(m, u.description);
    lemma_automount_lookups(m, d);
    lemma_mount_description(u.description);
    lemma_description_first(u.description, mount_entries(m));
    lemma_description_first(d, automount_entries(m));
    let bare = MountView { manual: seq![], automount_manual: seq![], ..m };
    let v = UnitView { body: BodyView::Mount(bare), ..u };
    let got = parse::bare_mount(u.scope, u.name, am, mnt, m.automount);
    assert(got.body->Mount_0 =~= bare);
    assert(got =~= v);
    assert(is_free_text(Seq::<char>::empty())) by {
        assert(text::trim_end_of(Seq::<char>::empty()) =~= seq![]);
    }
    lemma_mount_file(v, bare);
    assert(mount_entries(bare) =~= mount_entries(m));
    assert(automount_entries(bare) =~= automount_entries(m));
    if m.automount {
        lemma_automount_file(v, bare);
        lemma_free(mnt, parse::written_at(v, 1), true);
        lemma_free(am, parse::written_at(v, 0), false);
    } else {
        lemma_free(mnt, parse::written_at(v, 0), false);
        assert(m.automount_manual =~= seq![]);
    }
}

/// A plain mount that was written reads as itself.
proof fn lemma_mount_round_trip(u: UnitView, m: MountView)
    requires
        is_plain(u),
        u.body == BodyView::Mount(m),
        !m.automount,
    ensures
        parse::parse_of(u.scope, generate::render_of(u)) == Ok::<(UnitView, bool), Seq<char>>(
            (u, true),
        ),
{
    let files = generate::render_of(u);
    lemma_mount_file(u, m);
    let mnt = parse::scan_of(files[0].body);
    assert(files.len() == 1);
    assert(files[0].name == u.name + ".mount"@);
    lemma_mount_parsed(u, m, parse::scan_nothing(), mnt);
    lemma_mount_unit(u, files, mnt);
}

/// What a lone `.mount` file is read as.
proof fn lemma_mount_unit(u: UnitView, files: Seq<FileView>, mnt: ScanView)
    requires
        files.len() == 1,
        files[0].name == u.name + ".mount"@,
        mnt == parse::scan_of(files[0].body),
        mnt.owned,
        parse::mount_of(u.scope, u.name, parse::scan_nothing(), mnt, false) == u,
    ensures
        parse::parse_of(u.scope, files) == Ok::<(UnitView, bool), Seq<char>>((u, true)),
{
    lemma_file_name(u.name);
    assert(parse::scan_at(files, 0) == mnt);
    assert(parse::any_owned(files));
}

/// A mount with an automount that was written reads as itself.
proof fn lemma_automount_round_trip(u: UnitView, m: MountView)
    requires
        is_plain(u),
        u.body == BodyView::Mount(m),
        m.automount,
    ensures
        parse::parse_of(u.scope, generate::render_of(u)) == Ok::<(UnitView, bool), Seq<char>>(
            (u, true),
        ),
{
    let files = generate::render_of(u);
    lemma_mount_file(u, m);
    lemma_automount_file(u, m);
    let am = parse::scan_of(files[0].body);
    let mnt = parse::scan_of(files[1].body);
    assert(files.len() == 2);
    assert(files[0].name == u.name + ".automount"@);
    lemma_mount_parsed(u, m, am, mnt);
    lemma_automount_unit(u, files, am, mnt);
}

/// What an `.automount` file and its `.mount` file are read as.
proof fn lemma_automount_unit(u: UnitView, files: Seq<FileView>, am: ScanView, mnt: ScanView)
    requires
        files.len() == 2,
        files[0].name == u.name + ".automount"@,
        am == parse::scan_of(files[0].body),
        mnt == parse::scan_of(files[1].body),
        am.owned,
        parse::mount_of(u.scope, u.name, am, mnt, true) == u,
    ensures
        parse::parse_of(u.scope, files) == Ok::<(UnitView, bool), Seq<char>>((u, true)),
{
    lemma_file_name(u.name);
    assert(parse::scan_at(files, 0) == am);
    assert(parse::scan_at(files, 1) == mnt);
    assert(parse::any_owned(files));
}

// ---------------------------------------------------------------------------
// The laws
// ---------------------------------------------------------------------------

/// A unit that was written and is read again is the same unit, recognised as
/// the program's own; so writing it a second time gives the same bytes.
pub proof fn law_round_trip(u: UnitView)
    requires
        is_plain(u),
    ensures
        parse::parse_of(u.scope, generate::render_of(u)) == Ok::<(UnitView, bool), Seq<char>>(
            (u, true),
        ),
{
    match u.body {
        BodyView::Timer(t) => lemma_timer_round_trip(u, t),
        BodyView::Service(s) => lemma_standalone_round_trip(u, s),
        BodyView::Mount(m) => if m.automount {
            lemma_automount_round_trip(u, m);
        } else {
            lemma_mount_round_trip(u, m);
        },
    }
}

/// Once a file is known to be owned it stays so, whatever its other lines say.
proof fn lemma_owned_stays(st: ScanState, ls: Seq<Seq<char>>)
    requires
        st.owned,
    ensures
        parse::scan_lines(st, ls).owned,
    decreases ls.len(),
{
    if ls.len() > 0 {
        lemma_owned_stays(st, ls.drop_last());
    }
}

/// Every file that is written, whatever its unit holds, is recognised as the
/// program's own.
pub proof fn law_written_files_are_owned(u: UnitView, i: int)
    requires
        0 <= i < generate::render_of(u).len(),
    ensures
        parse::scan_of(generate::render_of(u)[i].body).owned,
{
    let stem = u.stem_or_empty();
    let (lines, free) = match u.body {
        BodyView::Timer(t) => if i == 0 {
            (generate::timer_lines(u, t, stem), t.timer_manual)
        } else {
            (generate::timer_service_lines(u, t, stem), t.service_manual)
        },
        BodyView::Service(s) => (generate::standalone_lines(u, s, stem), s.manual),
        BodyView::Mount(m) => if m.automount && i == 0 {
            (generate::automount_lines(u, m), m.automount_manual)
        } else {
            (generate::mount_lines(u, m), m.manual)
        },
    };
    let all = lines + generate::manual_of(free);
    assert(all.len() > 0 && all[0] == MARKER@);
    parts::lemma_unlines_front(all);
    let first = seq![MARKER@];
    let more = parts::unlines_of(all.skip(1));
    assert(first.drop_last() =~= seq![]);
    reveal_with_fuel(parts::unlines_of, 2);
    assert(parts::unlines_of(first) =~= MARKER@.push('\n'));
    assert(parts::unlines_of(all) == parts::unlines_of(first) + more);
    lemma_marker();
    reveal(reads);
    assert(MARKER@.last() != '\r') by {
        reveal_strlit("# Generated by notcron");
    }
    parts::lemma_lines_unlines(first, more);
    lemma_scan_append(parse::scan_start(), first, parts::lines_of(more));
    lemma_owned_stays(
        (ScanState { owned: true, ..parse::scan_start() }),
        parts::lines_of(more),
    );
}

// ---------------------------------------------------------------------------
// What a file that is read can hold
// ---------------------------------------------------------------------------

proof fn lemma_trim_whole(s: Seq<char>)
    requires
        !s.contains('\n'),
    ensures
        is_value(text::trim_of(s)),
{
    let a = text::trim_start_of(s);
    let b = text::trim_of(s);
    text::lemma_trim_start(s);
    text::lemma_trim_end(a);
    text::lemma_trim_trim(s);
    assert forall|i: int| 0 <= i < b.len() implies #[trigger] b[i] != '\n' by {
        assert(b[i] == a[i]);
        assert(a[i] == s[s.len() - a.len() + i]);
        assert(s.contains(s[s.len() - a.len() + i]));
    }
}

/// A directive that a line holds.
spec fn is_directive(d: DirView) -> bool {
    is_value(d.value) && !d.key.contains('\n')
}

/// Whether all that is known came out of lines.
spec fn is_read(st: ScanState) -> bool {
    &&& forall|i: int| 0 <= i < st.entries.len() ==> is_directive(#[trigger] st.entries[i])
    &&& forall|i: int| 0 <= i < st.comments.len() ==> is_value(#[trigger] st.comments[i])
}

proof fn lemma_step_read(st: ScanState, line: Seq<char>)
    requires
        is_read(st),
        !line.contains('\n'),
    ensures
        is_read(parse::scan_step(st, line)),
{
    let t = text::trim_of(line);
    lemma_trim_whole(line);
    let after = parse::scan_step(st, line);
    if t.len() > 0 {
        let rest = t.skip(1);
        assert(!rest.contains('\n')) by {
            assert forall|i: int| 0 <= i < rest.len() implies #[trigger] rest[i] != '\n' by {
                assert(t.contains(t[i + 1]));
            }
        }
        lemma_trim_whole(rest);
    }
    text::lemma_first_index(t, '=');
    match parts::split_once_of(t, '=') {
        Some((k, v)) => {
            assert(!k.contains('\n')) by {
                assert forall|i: int| 0 <= i < k.len() implies #[trigger] k[i] != '\n' by {
                    assert(t.contains(t[i]));
                }
            }
            assert(!v.contains('\n')) by {
                let n = t.len() - v.len();
                assert forall|i: int| 0 <= i < v.len() implies #[trigger] v[i] != '\n' by {
                    assert(v[i] == t[n + i]);
                    assert(t.contains(t[n + i]));
                }
            }
            lemma_trim_whole(k);
            lemma_trim_whole(v);
        },
        None => {},
    }
    assert forall|i: int| 0 <= i < after.entries.len() implies is_directive(
        #[trigger] after.entries[i],
    ) by {
        if i < st.entries.len() {
            assert(after.entries[i] == st.entries[i]);
        }
    }
    assert forall|i: int| 0 <= i < after.comments.len() implies is_value(
        #[trigger] after.comments[i],
    ) by {
        if i < st.comments.len() {
            assert(after.comments[i] == st.comments[i]);
        }
    }
}

proof fn lemma_lines_read(ls: Seq<Seq<char>>)
    requires
        forall|i: int| 0 <= i < ls.len() ==> !(#[trigger] ls[i]).contains('\n'),
    ensures
        is_read(parse::scan_lines(parse::scan_start(), ls)),
    decreases ls.len(),
{
    if ls.len() > 0 {
        let less = ls.drop_last();
        assert forall|i: int| 0 <= i < less.len() implies !(#[trigger] less[i]).contains('\n') by {
            assert(less[i] == ls[i]);
        }
        lemma_lines_read(less);
        assert(!ls[ls.len() - 1].contains('\n'));
        lemma_step_read(parse::scan_lines(parse::scan_start(), less), ls.last());
    }
}

/// The directives and comments of a file.
proof fn lemma_file_read(body: Seq<char>)
    ensures
        forall|i: int|
            0 <= i < parse::scan_of(body).entries.len() ==> is_directive(
                #[trigger] parse::scan_of(body).entries[i],
            ),
        forall|i: int|
            0 <= i < parse::scan_of(body).comments.len() ==> is_value(
                #[trigger] parse::scan_of(body).comments[i],
            ),
{
    let ls = parts::lines_of(body);
    assert forall|i: int| 0 <= i < ls.len() implies !(#[trigger] ls[i]).contains('\n') by {
        parts::lemma_lines_whole(body, i);
    }
    lemma_lines_read(ls);
}

// ---------------------------------------------------------------------------
// Nothing is dropped
// ---------------------------------------------------------------------------

/// The line of a directive.
pub open spec fn line_of(d: DirView) -> Seq<char> {
    generate::kv_of(d.key, d.value)
}

/// The lines of a file's free text.
pub open spec fn free_lines_of(body: Seq<char>) -> Seq<Seq<char>> {
    parse::scan_lines(parse::scan_start(), parts::lines_of(body)).free
}

/// Whether a file holds a directive: among those it gives, or as a line of
/// its free text.
pub open spec fn is_held(body: Seq<char>, d: DirView) -> bool {
    parse::scan_of(body).entries.contains(d) || free_lines_of(body).contains(line_of(d))
}

proof fn lemma_entries_grow(st: ScanState, ls: Seq<Seq<char>>, d: DirView)
    requires
        st.entries.contains(d),
    ensures
        parse::scan_lines(st, ls).entries.contains(d),
    decreases ls.len(),
{
    if ls.len() > 0 {
        lemma_entries_grow(st, ls.drop_last(), d);
        let before = parse::scan_lines(st, ls.drop_last());
        let after = parse::scan_lines(st, ls);
        let i = choose|i: int| 0 <= i < before.entries.len() && before.entries[i] == d;
        assert(after.entries[i] == d);
    }
}

/// The text of a file: the text of its lines, and more behind it.
proof fn lemma_body_parts(lines: Seq<Seq<char>>, free: Seq<char>)
    requires
        lines.len() > 0,
    ensures
        generate::body_of(lines, seq![]) == parts::unlines_of(lines),
        parts::lines_of(generate::body_of(lines, free)) == parts::lines_of(
            parts::unlines_of(lines),
        ) + parts::lines_of(parts::unlines_of(generate::manual_of(free))),
{
    let none = Seq::<char>::empty();
    assert(generate::trim_manual_of(none) =~= none);
    assert(lines + generate::manual_of(none) =~= lines);
    let x = parts::unlines_of(lines);
    assert(x.last() == '\n');
    parts::lemma_unlines_append(lines, generate::manual_of(free));
    parts::lemma_lines_append(x, parts::unlines_of(generate::manual_of(free)));
}

/// What is written of a file without free text is written with it too.
proof fn lemma_written_stays(lines: Seq<Seq<char>>, free: Seq<char>, d: DirView)
    requires
        lines.len() > 0,
        parse::scan_of(generate::body_of(lines, seq![])).entries.contains(d),
    ensures
        parse::scan_of(generate::body_of(lines, free)).entries.contains(d),
{
    lemma_body_parts(lines, free);
    let a = parts::lines_of(parts::unlines_of(lines));
    let b = parts::lines_of(parts::unlines_of(generate::manual_of(free)));
    lemma_scan_append(parse::scan_start(), a, b);
    lemma_entries_grow(parse::scan_lines(parse::scan_start(), a), b, d);
}

/// The lines of free text are read as free text.
proof fn lemma_free_lines(lines: Seq<Seq<char>>, free: Seq<char>, line: Seq<char>)
    requires
        lines.len() > 0,
        free.len() > 0,
        text::trim_end_of(free) == free,
        parts::lines_of(free.push('\n')).contains(line),
    ensures
        free_lines_of(generate::body_of(lines, free)).contains(line),
{
    let none = Seq::<char>::empty();
    lemma_body_parts(lines, free);
    text::lemma_trim_end(free);
    assert(generate::trim_manual_of(free) == free);
    let m = generate::manual_of(free);
    let two = seq![none, MANUAL_HEADER@];
    reveal_strlit("# --- notcron:manual");
    reveal_strlit("# --- notcron:manual ---");
    let tail = parts::lines_of(free.push('\n'));
    assert(m.drop_last() =~= two);
    assert(m.last() == free);
    assert(parts::unlines_of(m) == parts::unlines_of(two) + free.push('\n'));
    parts::lemma_lines_unlines(two, free.push('\n'));
    let a = parts::lines_of(parts::unlines_of(lines));
    let st = parse::scan_lines(parse::scan_start(), a);
    lemma_scan_append(parse::scan_start(), a, two + tail);
    lemma_scan_append(st, two, tail);
    assert(two.drop_last() =~= seq![none]);
    text::lemma_trim_tight(MANUAL_HEADER@);
    let mid = parse::scan_lines(st, two);
    assert(mid == parse::scan_step(parse::scan_lines(st, two.drop_last()), MANUAL_HEADER@));
    assert(mid.in_manual);
    lemma_scan_free(mid, tail);
    let k = choose|k: int| 0 <= k < tail.len() && tail[k] == line;
    assert((mid.free + tail)[mid.free.len() + k] == line);
}

/// Whether a text has an ended line.
spec fn has_line(s: Seq<char>, line: Seq<char>) -> bool {
    exists|k: int| #[trigger] is_line_at(s, line, k)
}

spec fn is_line_at(s: Seq<char>, line: Seq<char>, k: int) -> bool {
    &&& 0 <= k
    &&& k + line.len() < s.len()
    &&& k > 0 ==> s[k - 1] == '\n'
    &&& s.subrange(k, k + line.len()) == line
    &&& s[k + line.len()] == '\n'
}

/// Whether leftovers end in a whole line.
spec fn is_ended(l: LeftView) -> bool {
    &&& l.text.len() > 0 ==> l.text.last() == '\n'
    &&& l.text.len() == 0 ==> l.last_section is None
}

proof fn lemma_push_line(l: LeftView, d: DirView, line: Seq<char>)
    requires
        is_ended(l),
    ensures
        is_ended(parse::left_push(l, d)),
        has_line(parse::left_push(l, d).text, line_of(d)),
        has_line(l.text, line) ==> has_line(parse::left_push(l, d).text, line),
{
    reveal_strlit("\n");
    reveal_strlit("[");
    reveal_strlit("]\n");
    reveal_strlit("=");
    let after = parse::left_push(l, d).text;
    let p = line_of(d);
    let at = after.len() - p.len() - 1;
    assert(after.subrange(at, at + p.len()) =~= p);
    assert(after[at + p.len()] == '\n');
    if at > 0 {
        assert(after[at - 1] == '\n');
    }
    assert(is_line_at(after, p, at));
    if has_line(l.text, line) {
        let k = choose|k: int| #[trigger] is_line_at(l.text, line, k);
        assert(after.subrange(k, k + line.len()) =~= l.text.subrange(k, k + line.len()));
        assert(is_line_at(after, line, k));
    }
}

proof fn lemma_all_lines(l: LeftView, ds: Seq<DirView>, service: bool, d: DirView)
    requires
        is_ended(l),
    ensures
        is_ended(parse::left_all(l, ds, service)),
        has_line(l.text, line_of(d)) ==> has_line(
            parse::left_all(l, ds, service).text,
            line_of(d),
        ),
        ds.contains(d) && (d.section == "Service"@) == service ==> has_line(
            parse::left_all(l, ds, service).text,
            line_of(d),
        ),
    decreases ds.len(),
{
    if ds.len() > 0 {
        let rest = ds.drop_last();
        lemma_all_lines(l, rest, service, d);
        lemma_push_line(parse::left_all(l, rest, service), ds.last(), line_of(d));
        if ds.contains(d) && ds.last() != d {
            let i = choose|i: int| 0 <= i < ds.len() && ds[i] == d;
            assert(rest[i] == d);
        }
    }
}

/// An ended line of a text is one of its lines.
proof fn lemma_line_inside(whole: Seq<char>, p: Seq<char>, at: int)
    requires
        is_line_at(whole, p, at),
        parts::is_line(p),
    ensures
        parts::lines_of(whole).contains(p),
{
    let x = whole.take(at);
    let y = whole.skip(at + p.len() + 1);
    let one = seq![p];
    assert(one.drop_last() =~= seq![]);
    reveal_with_fuel(parts::unlines_of, 2);
    assert(parts::unlines_of(one) =~= p.push('\n'));
    parts::lemma_lines_unlines(one, y);
    let tail = p.push('\n') + y;
    assert(whole =~= x + tail) by {
        assert forall|i: int| 0 <= i < p.len() implies whole[at + i] == p[i] by {
            assert(whole.subrange(at, at + p.len())[i] == p[i]);
        }
    }
    assert(parts::lines_of(tail) == one + parts::lines_of(y));
    assert(parts::lines_of(tail)[0] == p);
    if at > 0 {
        assert(x.last() == whole[at - 1]);
        parts::lemma_lines_append(x, tail);
        assert(parts::lines_of(whole)[parts::lines_of(x).len() as int] == p);
    } else {
        assert(x + tail =~= tail);
    }
}

/// The line of a directive is a line, and ends in nothing white.
proof fn lemma_directive_line(d: DirView)
    requires
        is_directive(d),
    ensures
        parts::is_line(line_of(d)),
        line_of(d).len() > 0,
        !text::is_white(line_of(d).last()),
{
    let p = line_of(d);
    reveal_strlit("=");
    text::lemma_trim_trim(d.value);
    assert(p.last() == if d.value.len() > 0 {
        d.value.last()
    } else {
        '='
    });
    assert forall|i: int| 0 <= i < p.len() implies #[trigger] p[i] != '\n' by {
        if i < d.key.len() {
            assert(p[i] == d.key[i]);
            assert(d.key.contains(d.key[i]));
        } else if i > d.key.len() {
            assert(p[i] == d.value[i - d.key.len() - 1]);
            assert(d.value.contains(d.value[i - d.key.len() - 1]));
        }
    }
}

/// An ended line stays one where the end of a text is cut off behind it, and
/// where other lines come before it.
proof fn lemma_line_moves(s: Seq<char>, n: int, head: Seq<char>, p: Seq<char>, k: int)
    requires
        is_line_at(s, p, k),
        k + p.len() <= n <= s.len(),
        head.len() > 0 ==> head.last() == '\n',
    ensures
        is_line_at((head + s.take(n)).push('\n'), p, head.len() + k),
{
    let whole = (head + s.take(n)).push('\n');
    let at = head.len() + k;
    assert(whole.subrange(at, at + p.len()) =~= s.subrange(k, k + p.len()));
    if k > 0 {
        assert(whole[at - 1] == s[k - 1]);
    } else if at > 0 {
        assert(whole[at - 1] == head.last());
    }
    if k + p.len() < n {
        assert(whole[at + p.len()] == s[k + p.len()]);
    }
}

/// A line of leftovers is a line of the free text they end up in.
proof fn lemma_finish_line(l: LeftView, existing: Seq<char>, d: DirView)
    requires
        has_line(l.text, line_of(d)),
        is_directive(d),
    ensures
        parts::lines_of(parse::left_finish(l, existing).push('\n')).contains(line_of(d)),
        parse::left_finish(l, existing).len() > 0,
{
    let p = line_of(d);
    let k = choose|k: int| #[trigger] is_line_at(l.text, p, k);
    let a = text::trim_end_of(l.text);
    let b = text::trim_end_of(existing);
    let r = parse::left_finish(l, existing);
    text::lemma_trim_end(l.text);
    lemma_directive_line(d);
    let last = k + p.len() - 1;
    assert(l.text[last] == p.last()) by {
        assert(l.text.subrange(k, k + p.len())[p.len() - 1] == p.last());
    }
    let n = a.len() as int;
    assert(n > last);
    let head = if b.len() == 0 {
        seq![]
    } else {
        b + "\n"@
    };
    reveal_strlit("\n");
    assert(r =~= head + l.text.take(n));
    lemma_line_moves(l.text, n, head, p, k);
    lemma_line_inside(r.push('\n'), p, head.len() + k);
}

/// Where a key occurs there is a first directive of it.
proof fn lemma_has_first(ds: Seq<DirView>, d: DirView)
    ensures
        parse::first_of(ds, d.section, d.key) is Some == parse::has_key(ds, d),
    decreases ds.len(),
{
    if ds.len() > 0 {
        let before = ds.drop_last();
        lemma_has_first(before, d);
        lemma_first_last(before, ds.last(), d.section, d.key);
        assert(before.push(ds.last()) =~= ds);
        if parse::has_key(before, d) {
            let i = choose|i: int|
                0 <= i < before.len() && parse::is_same_key(#[trigger] before[i], d);
            assert(parse::is_same_key(ds[i], d));
        }
        if parse::is_same_key(ds.last(), d) {
            assert(parse::is_same_key(ds[ds.len() - 1], d));
        }
        if parse::has_key(ds, d) {
            let i = choose|i: int| 0 <= i < ds.len() && parse::is_same_key(#[trigger] ds[i], d);
            if i < before.len() {
                assert(parse::is_same_key(before[i], d));
            }
        }
    }
}

/// Whether a directive is the first description of a file.
pub open spec fn is_first_description(ds: Seq<DirView>, d: DirView) -> bool {
    parse::is_description(d) && parse::first_of(ds, "Unit"@, "Description"@) == Some(d.value)
}

/// What is not written is kept.
proof fn lemma_kept(ds: Seq<DirView>, written: Seq<DirView>, derived: bool, d: DirView)
    requires
        ds.contains(d),
        !written.contains(d),
        !(derived && is_first_description(ds, d)),
    ensures
        parse::kept_of(ds, written, derived).contains(d),
    decreases ds.len(),
{
    let before = ds.drop_last();
    let kept = parse::kept_of(before, written, derived);
    let all = parse::kept_of(ds, written, derived);
    assert(before.push(ds.last()) =~= ds);
    lemma_first_last(before, ds.last(), d.section, d.key);
    lemma_has_first(before, d);
    if ds.last() == d {
        assert(parse::is_kept(before, kept, written, derived, d));
        assert(all.last() == d);
    } else {
        let i = choose|i: int| 0 <= i < ds.len() && ds[i] == d;
        assert(before[i] == d);
        assert(parse::is_same_key(before[i], d));
        lemma_kept(before, written, derived, d);
        let k = choose|k: int| 0 <= k < kept.len() && kept[k] == d;
        assert(all[k] == d);
    }
}

/// A directive of a file that is read is held by the file that is written for
/// it.
proof fn lemma_held(lines: Seq<Seq<char>>, file: ScanView, derived: bool, d: DirView)
    requires
        lines.len() > 0,
        file.entries.contains(d),
        is_directive(d),
        !(derived && is_first_description(file.entries, d)),
    ensures
        ({
            let written = parse::scan_of(generate::body_of(lines, seq![])).entries;
            is_held(generate::body_of(lines, parse::free_of(file, written, derived)), d)
        }),
{
    let written = parse::scan_of(generate::body_of(lines, seq![])).entries;
    let free = parse::free_of(file, written, derived);
    if written.contains(d) {
        lemma_written_stays(lines, free, d);
    } else {
        let kept = parse::kept_of(file.entries, written, derived);
        let none = parse::no_leftovers();
        lemma_kept(file.entries, written, derived, d);
        lemma_all_lines(none, kept, true, d);
        let half = parse::left_all(none, kept, true);
        lemma_all_lines(half, kept, false, d);
        let left = parse::left_all(half, kept, false);
        lemma_finish_line(left, file.manual, d);
        lemma_finish_tight(left, file.manual);
        lemma_free_lines(lines, free, line_of(d));
    }
}

/// Free text has nothing white at its end.
proof fn lemma_finish_tight(l: LeftView, existing: Seq<char>)
    ensures
        text::trim_end_of(parse::left_finish(l, existing)) == parse::left_finish(l, existing),
{
    let a = text::trim_end_of(l.text);
    let b = text::trim_end_of(existing);
    let r = parse::left_finish(l, existing);
    text::lemma_trim_trim(l.text);
    text::lemma_trim_trim(existing);
    text::lemma_trim_end(l.text);
    if a.len() > 0 && b.len() > 0 {
        assert(r.last() == a.last());
    }
}

/// Whether the file at position `i` is read for the kind of unit that the
/// first file names.
pub open spec fn is_read_file(files: Seq<FileView>, i: int) -> bool {
    0 <= i < files.len() && (i == 0 || (i == 1 && (".timer"@.is_suffix_of(files[0].name)
        || ".automount"@.is_suffix_of(files[0].name))))
}

/// Whether the description of the file at position `i` is made from the one
/// of the other file: that of a `.timer`, and that of a `.mount` beside an
/// `.automount`.
pub open spec fn is_derived_file(files: Seq<FileView>, i: int) -> bool {
    if ".timer"@.is_suffix_of(files[0].name) {
        i == 0
    } else {
        ".automount"@.is_suffix_of(files[0].name) && i == 1
    }
}

proof fn lemma_timer_held(
    scope: model::Scope,
    stem: Seq<char>,
    timer: ScanView,
    service: ScanView,
    first: bool,
    d: DirView,
)
    requires
        parse::timer_of(scope, stem, timer, service) is Ok,
        is_directive(d),
        first ==> timer.entries.contains(d) && !is_first_description(timer.entries, d),
        !first ==> service.entries.contains(d),
    ensures
        ({
            let u = parse::timer_of(scope, stem, timer, service)->Ok_0;
            is_held(generate::render_of(u)[if first { 0int } else { 1int }].body, d)
        }),
{
    reveal(parse::timer_of);
    let u = parse::timer_of(scope, stem, timer, service)->Ok_0;
    let when = parse::schedule_from(timer.entries)->0;
    let bare = parse::bare_timer(scope, stem, timer, service, when);
    let t = bare.body->Timer_0;
    let s = bare.stem_or_empty();
    let full = u.body->Timer_0;
    assert(u.stem_or_empty() == s);
    if first {
        let lines = generate::timer_lines(bare, t, s);
        assert(generate::timer_lines(u, full, s) =~= lines);
        lemma_held(lines, timer, true, d);
    } else {
        let lines = generate::timer_service_lines(bare, t, s);
        assert(generate::timer_service_lines(u, full, s) =~= lines);
        lemma_held(lines, service, false, d);
    }
}

proof fn lemma_mount_held(
    scope: model::Scope,
    stem: Seq<char>,
    am: ScanView,
    mnt: ScanView,
    automount: bool,
    first: bool,
    d: DirView,
)
    requires
        is_directive(d),
        first && automount ==> am.entries.contains(d),
        !first ==> automount,
        !first || !automount ==> mnt.entries.contains(d),
        !first ==> !is_first_description(mnt.entries, d),
    ensures
        ({
            let u = parse::mount_of(scope, stem, am, mnt, automount);
            is_held(generate::render_of(u)[if first { 0int } else { 1int }].body, d)
        }),
{
    reveal(parse::mount_of);
    let u = parse::mount_of(scope, stem, am, mnt, automount);
    let bare = parse::bare_mount(scope, stem, am, mnt, automount);
    let m = bare.body->Mount_0;
    let full = u.body->Mount_0;
    assert(u.stem_or_empty() == bare.stem_or_empty());
    if first && automount {
        let lines = generate::automount_lines(bare, m);
        assert(generate::automount_lines(u, full) =~= lines);
        lemma_held(lines, am, false, d);
    } else {
        let lines = generate::mount_lines(bare, m);
        assert(generate::mount_lines(u, full) =~= lines);
        lemma_held(lines, mnt, !first, d);
    }
}

proof fn lemma_service_held(scope: model::Scope, stem: Seq<char>, file: ScanView, d: DirView)
    requires
        is_directive(d),
        file.entries.contains(d),
    ensures
        is_held(generate::render_of(parse::service_of(scope, stem, file))[0].body, d),
{
    reveal(parse::service_of);
    let u = parse::service_of(scope, stem, file);
    let bare = parse::bare_service(scope, stem, file);
    let sv = bare.body->Service_0;
    let s = bare.stem_or_empty();
    assert(u.stem_or_empty() == s);
    let lines = generate::standalone_lines(bare, sv, s);
    assert(generate::standalone_lines(u, u.body->Service_0, s) =~= lines);
    lemma_held(lines, file, false, d);
}

/// Which body a unit has, by the file it is read from.
proof fn lemma_read_body(
    scope: model::Scope,
    stem: Seq<char>,
    a: ScanView,
    b: ScanView,
    automount: bool,
)
    ensures
        parse::timer_of(scope, stem, a, b) matches Ok(u) ==> u.body is Timer,
        parse::service_of(scope, stem, a).body is Service,
        parse::mount_of(scope, stem, a, b, automount).body matches BodyView::Mount(m)
            && m.automount == automount,
{
    reveal(parse::timer_of);
    reveal(parse::service_of);
    reveal(parse::mount_of);
}

/// Opening a unit and saving it again drops no directive: every directive of
/// a file that is read stands in the file that is written for it, among the
/// directives or as a line of the free text. The one exception is the
/// description of a file whose description is made from the other file's.
pub proof fn law_no_directive_is_dropped(
    scope: model::Scope,
    files: Seq<FileView>,
    i: int,
    d: DirView,
)
    requires
        parse::parse_of(scope, files) is Ok,
        is_read_file(files, i),
        parse::scan_of(files[i].body).entries.contains(d),
        !(is_derived_file(files, i) && is_first_description(
            parse::scan_of(files[i].body).entries,
            d,
        )),
    ensures
        ({
            let written = generate::render_of(parse::parse_of(scope, files)->Ok_0.0);
            i < written.len() && is_held(written[i].body, d)
        }),
{
    let file = parse::scan_of(files[i].body);
    lemma_file_read(files[i].body);
    let at = choose|k: int| 0 <= k < file.entries.len() && file.entries[k] == d;
    assert(is_directive(file.entries[at]));
    let name = files[0].name;
    let (stem, _) = parts::rsplit_once_of(name, '.')->0;
    let u = parse::parse_of(scope, files)->Ok_0.0;
    assert(parse::scan_at(files, i) == file);
    reveal_strlit(".timer");
    reveal_strlit(".automount");
    assert(".timer"@.is_suffix_of(name) ==> !".automount"@.is_suffix_of(name)) by {
        if ".timer"@.is_suffix_of(name) && ".automount"@.is_suffix_of(name) {
            let a = name.subrange(name.len() - 6, name.len() as int);
            let b = name.subrange(name.len() - 10, name.len() as int);
            assert(a[5] == b[9]);
        }
    }
    let a = parse::scan_at(files, 0);
    let b = parse::scan_at(files, 1);
    let none = parse::scan_nothing();
    if ".timer"@.is_suffix_of(name) {
        lemma_read_body(scope, stem, a, b, true);
        lemma_timer_held(scope, stem, a, b, i == 0, d);
    } else if ".automount"@.is_suffix_of(name) {
        lemma_read_body(scope, stem, a, b, true);
        lemma_mount_held(scope, stem, a, b, true, i == 0, d);
    } else if ".mount"@.is_suffix_of(name) {
        lemma_read_body(scope, stem, none, a, false);
        lemma_mount_held(scope, stem, none, a, false, true, d);
    } else {
        lemma_read_body(scope, stem, a, b, true);
        lemma_service_held(scope, stem, a, d);
    }
}

// ---------------------------------------------------------------------------
// Settling
// ---------------------------------------------------------------------------

/// A setting that is written only where it is not empty.
spec fn opt_settled(v: Option<Seq<char>>) -> Option<Seq<char>> {
    match v {
        Some(s) => if s.len() == 0 {
            None
        } else {
            Some(s)
        },
        None => None,
    }
}

/// Service settings as they are written.
spec fn service_settled(s: ServiceView) -> ServiceView {
    ServiceView {
        exec_start_pre: opt_settled(s.exec_start_pre),
        exec_stop_post: opt_settled(s.exec_stop_post),
        working_directory: opt_settled(s.working_directory),
        run_as: opt_settled(s.run_as),
        group: opt_settled(s.group),
        environment: parts::full_of(s.environment),
        restart_sec: opt_settled(s.restart_sec),
        ..s
    }
}

/// A unit as it is written.
spec fn unit_settled(u: UnitView) -> UnitView {
    match u.body {
        BodyView::Timer(t) => UnitView {
            name: model::unprefixed_of(u.name),
            body: BodyView::Timer(
                TimerView {
                    schedule: match t.schedule {
                        ScheduleView::Calendar(v) => ScheduleView::Calendar(parts::full_of(v)),
                        s => s,
                    },
                    persistent: t.persistent && t.schedule is Calendar,
                    randomized_delay: opt_settled(t.randomized_delay),
                    service: ServiceView {
                        restart: RestartPolicy::No,
                        restart_sec: None,
                        ..service_settled(t.service)
                    },
                    ..t
                },
            ),
            ..u
        },
        BodyView::Service(s) => UnitView {
            name: model::unprefixed_of(u.name),
            body: BodyView::Service(
                StandaloneView { service: service_settled(s.service), ..s },
            ),
            ..u
        },
        BodyView::Mount(m) => UnitView {
            name: u.stem_or_empty(),
            body: BodyView::Mount(
                MountView { timeout_idle: opt_settled(m.timeout_idle), ..m },
            ),
            ..u
        },
    }
}

/// Whether a unit that was read is written so that it can be read again: its
/// file name is one line and does not carry the program's prefix twice, no
/// line of its free text ends in a carriage return, a timer has a schedule
/// that is not blank, and a mount a mount point that names a file.
pub open spec fn is_writable(u: UnitView) -> bool {
    match u.body {
        BodyView::Timer(t) => {
            &&& !model::prefixed_of(u.name).contains('\n')
            &&& !model::PREFIX@.is_prefix_of(model::unprefixed_of(u.name))
            &&& is_free_text(t.timer_manual)
            &&& is_free_text(t.service_manual)
            &&& (t.schedule matches ScheduleView::Calendar(v) ==> parts::full_of(v).len() > 0)
        },
        BodyView::Service(s) => {
            &&& !model::prefixed_of(u.name).contains('\n')
            &&& !model::PREFIX@.is_prefix_of(model::unprefixed_of(u.name))
            &&& is_free_text(s.manual)
        },
        BodyView::Mount(m) => {
            &&& u.stem_of() is Ok
            &&& is_value(m.where_)
            &&& is_free_text(m.manual)
            &&& is_free_text(m.automount_manual)
        },
    }
}

proof fn lemma_first_value(ds: Seq<DirView>, s: Seq<char>, k: Seq<char>)
    requires
        forall|i: int| 0 <= i < ds.len() ==> is_directive(#[trigger] ds[i]),
    ensures
        is_value(parse::first_or_empty(ds, s, k)),
        is_opt_entry(opt_settled(parse::first_of(ds, s, k))),
        parse::first_of(ds, s, k) matches Some(v) ==> is_value(v),
    decreases ds.len(),
{
    text::lemma_trim_tight(Seq::<char>::empty());
    if ds.len() > 0 {
        assert(is_directive(ds[0]));
        let rest = ds.skip(1);
        assert forall|i: int| 0 <= i < rest.len() implies is_directive(#[trigger] rest[i]) by {
            assert(rest[i] == ds[i + 1]);
        }
        lemma_first_value(rest, s, k);
    }
}

proof fn lemma_all_values(ds: Seq<DirView>, s: Seq<char>, k: Seq<char>)
    requires
        forall|i: int| 0 <= i < ds.len() ==> is_directive(#[trigger] ds[i]),
    ensures
        are_entries(parts::full_of(parse::all_of(ds, s, k))),
        forall|key: Seq<char>| #[trigger]
            generate::kv_all_of(key, parts::full_of(parse::all_of(ds, s, k)))
                == generate::kv_all_of(key, parse::all_of(ds, s, k)),
    decreases ds.len(),
{
    if ds.len() > 0 {
        let less = ds.drop_last();
        let d = ds.last();
        assert forall|i: int| 0 <= i < less.len() implies is_directive(#[trigger] less[i]) by {
            assert(less[i] == ds[i]);
        }
        assert(is_directive(ds[ds.len() - 1]));
        lemma_all_values(less, s, k);
        let a = parse::all_of(less, s, k);
        let b = parse::all_of(ds, s, k);
        if d.section == s && d.key == k {
            assert(b.drop_last() =~= a);
            assert(b.last() == d.value);
            let f = parts::full_of(a);
            if d.value.len() > 0 {
                assert(parts::full_of(b) == f.push(d.value));
                assert(f.push(d.value).drop_last() =~= f);
                assert forall|i: int| 0 <= i < f.push(d.value).len() implies is_entry(
                    #[trigger] f.push(d.value)[i],
                ) by {
                    if i < f.len() {
                        assert(f.push(d.value)[i] == f[i]);
                    }
                }
            }
            assert forall|key: Seq<char>| #[trigger]
                generate::kv_all_of(key, parts::full_of(b)) == generate::kv_all_of(key, b) by {
                assert(generate::kv_all_of(key, f) == generate::kv_all_of(key, a));
            }
        }
    }
}

proof fn lemma_kv_settled(key: Seq<char>, v: Option<Seq<char>>)
    ensures
        v matches Some(s) ==> is_value(s) ==> generate::kv_opt_of(key, opt_settled(v))
            == generate::kv_opt_of(key, v),
        v is None ==> generate::kv_opt_of(key, opt_settled(v)) == generate::kv_opt_of(key, v),
{
    text::lemma_trim_tight(Seq::<char>::empty());
    if v is Some && v->0.len() == 0 {
        assert(v->0 =~= seq![]);
    }
}

/// The settings of a service that was read.
proof fn lemma_service_settled(kind: ServiceType, ds: Seq<DirView>)
    requires
        forall|i: int| 0 <= i < ds.len() ==> is_directive(#[trigger] ds[i]),
    ensures
        ({
            let s = parse::service_from(kind, ds);
            let n = service_settled(s);
            &&& is_plain_service(n)
            &&& generate::service_section_of(n) == generate::service_section_of(s)
            &&& generate::kv_opt_of("RestartSec"@, n.restart_sec) == generate::kv_opt_of(
                "RestartSec"@,
                s.restart_sec,
            )
        }),
{
    reveal(parse::service_from);
    let sec = "Service"@;
    let s = parse::service_from(kind, ds);
    lemma_first_value(ds, sec, "ExecStart"@);
    lemma_first_value(ds, sec, "ExecStartPre"@);
    lemma_first_value(ds, sec, "ExecStopPost"@);
    lemma_first_value(ds, sec, "WorkingDirectory"@);
    lemma_first_value(ds, sec, "User"@);
    lemma_first_value(ds, sec, "Group"@);
    lemma_first_value(ds, sec, "RestartSec"@);
    lemma_all_values(ds, sec, "Environment"@);
    lemma_kv_settled("ExecStartPre"@, s.exec_start_pre);
    lemma_kv_settled("ExecStopPost"@, s.exec_stop_post);
    lemma_kv_settled("WorkingDirectory"@, s.working_directory);
    lemma_kv_settled("User"@, s.run_as);
    lemma_kv_settled("Group"@, s.group);
    lemma_kv_settled("RestartSec"@, s.restart_sec);
}

/// The name of a unit as it is written.
proof fn lemma_name_settled(name: Seq<char>)
    requires
        !model::PREFIX@.is_prefix_of(model::unprefixed_of(name)),
    ensures
        model::prefixed_of(model::unprefixed_of(name)) == model::prefixed_of(name),
        model::unprefixed_of(model::unprefixed_of(name)) == model::unprefixed_of(name),
{
    let p = model::PREFIX@;
    if p.is_prefix_of(name) {
        assert(name =~= p + name.skip(p.len() as int)) by {
            assert(name.take(p.len() as int) == p);
            assert forall|i: int| 0 <= i < p.len() implies name[i] == p[i] by {
                assert(name.take(p.len() as int)[i] == p[i]);
            }
        }
    }
}

proof fn lemma_source_value(comments: Seq<Seq<char>>)
    requires
        forall|i: int| 0 <= i < comments.len() ==> is_value(#[trigger] comments[i]),
    ensures
        is_value(parse::source_of(comments)),
    decreases comments.len(),
{
    text::lemma_trim_tight(Seq::<char>::empty());
    if comments.len() > 0 {
        let c = comments[0];
        assert(is_value(c));
        match text::after_prefix(c, "schedule:"@) {
            Some(s) => {
                let n = c.len() - s.len();
                assert forall|i: int| 0 <= i < s.len() implies #[trigger] s[i] != '\n' by {
                    assert(s[i] == c[n + i]);
                    assert(c.contains(c[n + i]));
                }
                lemma_trim_whole(s);
            },
            None => {
                let rest = comments.skip(1);
                assert forall|i: int| 0 <= i < rest.len() implies is_value(#[trigger] rest[i]) by {
                    assert(rest[i] == comments[i + 1]);
                }
                lemma_source_value(rest);
            },
        }
    }
}

proof fn lemma_timer_settles(
    scope: model::Scope,
    stem: Seq<char>,
    timer: ScanView,
    service: ScanView,
)
    requires
        parse::timer_of(scope, stem, timer, service) is Ok,
        is_writable(parse::timer_of(scope, stem, timer, service)->Ok_0),
        forall|i: int| 0 <= i < timer.entries.len() ==> is_directive(#[trigger] timer.entries[i]),
        forall|i: int|
            0 <= i < service.entries.len() ==> is_directive(#[trigger] service.entries[i]),
        forall|i: int|
            0 <= i < service.comments.len() ==> is_value(#[trigger] service.comments[i]),
    ensures
        ({
            let u = parse::timer_of(scope, stem, timer, service)->Ok_0;
            &&& u.scope == scope
            &&& is_plain(unit_settled(u))
            &&& generate::render_of(unit_settled(u)) == generate::render_of(u)
        }),
{
    reveal(parse::timer_of);
    let tm = "Timer"@;
    let u = parse::timer_of(scope, stem, timer, service)->Ok_0;
    let t = u.body->Timer_0;
    let w = unit_settled(u);
    let n = w.body->Timer_0;
    lemma_first_value(service.entries, "Unit"@, "Description"@);
    lemma_first_value(timer.entries, tm, "OnBootSec"@);
    lemma_first_value(timer.entries, tm, "OnUnitActiveSec"@);
    lemma_first_value(timer.entries, tm, "RandomizedDelaySec"@);
    lemma_all_values(timer.entries, tm, "OnCalendar"@);
    lemma_source_value(service.comments);
    lemma_service_settled(ServiceType::Oneshot, service.entries);
    lemma_name_settled(u.name);
    lemma_kv_settled("RandomizedDelaySec"@, t.randomized_delay);
    assert(is_plain_timer(n));
    let s = w.stem_or_empty();
    assert(s == u.stem_or_empty());
    let k = service_settled(t.service);
    assert(generate::service_section_of(n.service) == generate::service_section_of(k));
    assert(generate::schedule_of(n.schedule) == generate::schedule_of(t.schedule));
    assert(generate::persistent_of(n) == generate::persistent_of(t));
    assert(generate::timer_lines(w, n, s) == generate::timer_lines(u, t, s));
    assert(generate::timer_service_lines(w, n, s) == generate::timer_service_lines(u, t, s));
}

proof fn lemma_service_settles(scope: model::Scope, stem: Seq<char>, file: ScanView)
    requires
        is_writable(parse::service_of(scope, stem, file)),
        forall|i: int| 0 <= i < file.entries.len() ==> is_directive(#[trigger] file.entries[i]),
    ensures
        ({
            let u = parse::service_of(scope, stem, file);
            &&& u.scope == scope
            &&& is_plain(unit_settled(u))
            &&& generate::render_of(unit_settled(u)) == generate::render_of(u)
        }),
{
    reveal(parse::service_of);
    let u = parse::service_of(scope, stem, file);
    let sv = u.body->Service_0;
    let w = unit_settled(u);
    let n = w.body->Service_0;
    lemma_first_value(file.entries, "Unit"@, "Description"@);
    lemma_first_value(file.entries, "Install"@, "WantedBy"@);
    lemma_service_settled(ServiceType::Simple, file.entries);
    lemma_name_settled(u.name);
    let s = w.stem_or_empty();
    assert(s == u.stem_or_empty());
    assert(generate::standalone_lines(w, n, s) == generate::standalone_lines(u, sv, s));
}

proof fn lemma_mount_settles(
    scope: model::Scope,
    stem: Seq<char>,
    am: ScanView,
    mnt: ScanView,
    automount: bool,
)
    requires
        is_writable(parse::mount_of(scope, stem, am, mnt, automount)),
        !automount ==> am == parse::scan_nothing(),
        forall|i: int| 0 <= i < am.entries.len() ==> is_directive(#[trigger] am.entries[i]),
        forall|i: int| 0 <= i < mnt.entries.len() ==> is_directive(#[trigger] mnt.entries[i]),
    ensures
        ({
            let u = parse::mount_of(scope, stem, am, mnt, automount);
            &&& u.scope == scope
            &&& is_plain(unit_settled(u))
            &&& generate::render_of(unit_settled(u)) == generate::render_of(u)
        }),
{
    reveal(parse::mount_of);
    let u = parse::mount_of(scope, stem, am, mnt, automount);
    let m = u.body->Mount_0;
    let w = unit_settled(u);
    let n = w.body->Mount_0;
    lemma_first_value(am.entries, "Unit"@, "Description"@);
    lemma_first_value(mnt.entries, "Unit"@, "Description"@);
    lemma_first_value(am.entries, "Automount"@, "TimeoutIdleSec"@);
    lemma_first_value(mnt.entries, "Mount"@, "What"@);
    lemma_first_value(mnt.entries, "Mount"@, "Type"@);
    lemma_first_value(mnt.entries, "Mount"@, "Options"@);
    lemma_kv_settled("TimeoutIdleSec"@, m.timeout_idle);
    if automount {
        let d = parse::description_of(am.entries);
        reveal_strlit(" ");
        let full = " "@ + d;
        assert forall|i: int| 0 <= i < full.len() implies #[trigger] full[i] != '\n' by {
            if i > 0 {
                assert(full[i] == d[i - 1]);
                assert(d.contains(d[i - 1]));
            }
        }
        let cut = text::without_suffix(full, " (automount)"@);
        assert forall|i: int| 0 <= i < cut.len() implies #[trigger] cut[i] != '\n' by {
            assert(cut[i] == full[i]);
        }
        lemma_trim_whole(cut);
    }
    assert(w.stem_of() == u.stem_of());
    assert(is_plain_mount(n));
    assert(generate::mount_lines(w, n) == generate::mount_lines(u, m));
    assert(generate::automount_lines(w, n) == generate::automount_lines(u, m));
}

/// A unit that was read and is written settles after one pass: what is
/// written is recognised as the program's own, and reading and writing it
/// again gives the same bytes.
pub proof fn law_reading_settles(scope: model::Scope, files: Seq<FileView>)
    requires
        parse::parse_of(scope, files) is Ok,
        is_writable(parse::parse_of(scope, files)->Ok_0.0),
    ensures
        ({
            let written = generate::render_of(parse::parse_of(scope, files)->Ok_0.0);
            &&& parse::parse_of(scope, written) matches Ok((v, owned))
            &&& owned
            &&& generate::render_of(v) == written
        }),
{
    let name = files[0].name;
    let (stem, _) = parts::rsplit_once_of(name, '.')->0;
    let u = parse::parse_of(scope, files)->Ok_0.0;
    let a = parse::scan_at(files, 0);
    let b = parse::scan_at(files, 1);
    let none = parse::scan_nothing();
    lemma_file_read(files[0].body);
    if files.len() > 1 {
        lemma_file_read(files[1].body);
    }
    if ".timer"@.is_suffix_of(name) {
        lemma_timer_settles(scope, stem, a, b);
    } else if ".automount"@.is_suffix_of(name) {
        lemma_mount_settles(scope, stem, a, b, true);
    } else if ".mount"@.is_suffix_of(name) {
        lemma_mount_settles(scope, stem, none, a, false);
    } else {
        lemma_service_settles(scope, stem, a);
    }
    law_round_trip(unit_settled(u));
}

// ---------------------------------------------------------------------------
// What systemd is told
// ---------------------------------------------------------------------------

/// The values that a file gives a key of a section, in order.
pub open spec fn told(file: FileView, section: Seq<char>, key: Seq<char>) -> Seq<Seq<char>> {
    parse::all_of(parse::scan_of(file.body).entries, section, key)
}

/// The values of a setting that may be missing.
pub open spec fn given(v: Option<Seq<char>>) -> Seq<Seq<char>> {
    match v {
        Some(s) => seq![s],
        None => seq![],
    }
}

/// Whether a service file tells systemd to run a service as it is set up.
pub open spec fn tells_service(file: FileView, s: ServiceView, stem: Seq<char>) -> bool {
    let sec = "Service"@;
    &&& told(file, sec, "Type"@) == seq![s.service_type.name()]
    &&& told(file, sec, "ExecStartPre"@) == given(s.exec_start_pre)
    &&& told(file, sec, "ExecStart"@) == seq![s.exec_start]
    &&& told(file, sec, "ExecStopPost"@) == given(s.exec_stop_post)
    &&& told(file, sec, "WorkingDirectory"@) == given(s.working_directory)
    &&& told(file, sec, "User"@) == given(s.run_as)
    &&& told(file, sec, "Group"@) == given(s.group)
    &&& told(file, sec, "Environment"@) == s.environment
    &&& told(file, sec, "StandardOutput"@) == seq!["journal"@]
    &&& told(file, sec, "StandardError"@) == seq!["journal"@]
    &&& told(file, sec, "SyslogIdentifier"@) == seq![text::trim_of(stem)]
}

/// The first half of what is found of a key among service settings.
spec fn told_first(s: ServiceView, k: Seq<char>) -> Seq<Seq<char>> {
    let sec = "Service"@;
    hits(sec, "Type"@, seq![s.service_type.name()], sec, k) + hits(
        sec,
        "ExecStartPre"@,
        opt_seq(s.exec_start_pre),
        sec,
        k,
    ) + hits(sec, "ExecStart"@, seq![s.exec_start], sec, k) + hits(
        sec,
        "ExecStopPost"@,
        opt_seq(s.exec_stop_post),
        sec,
        k,
    )
}

/// The second half.
spec fn told_second(s: ServiceView, k: Seq<char>) -> Seq<Seq<char>> {
    let sec = "Service"@;
    hits(sec, "WorkingDirectory"@, opt_seq(s.working_directory), sec, k) + hits(
        sec,
        "User"@,
        opt_seq(s.run_as),
        sec,
        k,
    ) + hits(sec, "Group"@, opt_seq(s.group), sec, k) + hits(
        sec,
        "Environment"@,
        s.environment,
        sec,
        k,
    )
}

/// What is found of it behind them.
spec fn told_output(stem: Seq<char>, k: Seq<char>) -> Seq<Seq<char>> {
    let sec = "Service"@;
    hits(sec, "StandardOutput"@, seq!["journal"@], sec, k) + hits(
        sec,
        "StandardError"@,
        seq!["journal"@],
        sec,
        k,
    ) + hits(sec, "SyslogIdentifier"@, seq![text::trim_of(stem)], sec, k)
}

proof fn lemma_all_append(a: Seq<DirView>, b: Seq<DirView>, s: Seq<char>, k: Seq<char>)
    ensures
        parse::all_of(a + b, s, k) == parse::all_of(a, s, k) + parse::all_of(b, s, k),
    decreases b.len(),
{
    if b.len() == 0 {
        assert(a + b =~= a);
        assert(parse::all_of(a, s, k) + parse::all_of(b, s, k) =~= parse::all_of(a, s, k));
    } else {
        assert((a + b).drop_last() =~= a + b.drop_last());
        assert((a + b).last() == b.last());
        lemma_all_append(a, b.drop_last(), s, k);
        assert(parse::all_of(a + b, s, k) =~= parse::all_of(a, s, k) + parse::all_of(b, s, k));
    }
}

proof fn lemma_all_dirs(
    sec: Seq<char>,
    key: Seq<char>,
    vs: Seq<Seq<char>>,
    s: Seq<char>,
    k: Seq<char>,
)
    ensures
        parse::all_of(dirs(sec, key, vs), s, k) == hits(sec, key, vs, s, k),
{
    let none = Seq::<DirView>::empty();
    lemma_more(none, sec, key, vs, s, k);
    assert(none + dirs(sec, key, vs) =~= dirs(sec, key, vs));
    assert(parse::all_of(none, s, k) =~= seq![]);
    assert(parse::all_of(none, s, k) + hits(sec, key, vs, s, k) =~= hits(sec, key, vs, s, k));
}

proof fn lemma_service_told(s: ServiceView, k: Seq<char>)
    ensures
        parse::all_of(service_entries(s), "Service"@, k) == told_first(s, k) + told_second(s, k),
{
    let sec = "Service"@;
    let d1 = dirs(sec, "Type"@, seq![s.service_type.name()]);
    let d2 = dirs(sec, "ExecStartPre"@, opt_seq(s.exec_start_pre));
    let d3 = dirs(sec, "ExecStart"@, seq![s.exec_start]);
    let d4 = dirs(sec, "ExecStopPost"@, opt_seq(s.exec_stop_post));
    let d5 = dirs(sec, "WorkingDirectory"@, opt_seq(s.working_directory));
    let d6 = dirs(sec, "User"@, opt_seq(s.run_as));
    let d7 = dirs(sec, "Group"@, opt_seq(s.group));
    let d8 = dirs(sec, "Environment"@, s.environment);
    lemma_all_dirs(sec, "Type"@, seq![s.service_type.name()], sec, k);
    lemma_all_dirs(sec, "ExecStartPre"@, opt_seq(s.exec_start_pre), sec, k);
    lemma_all_dirs(sec, "ExecStart"@, seq![s.exec_start], sec, k);
    lemma_all_dirs(sec, "ExecStopPost"@, opt_seq(s.exec_stop_post), sec, k);
    lemma_all_dirs(sec, "WorkingDirectory"@, opt_seq(s.working_directory), sec, k);
    lemma_all_dirs(sec, "User"@, opt_seq(s.run_as), sec, k);
    lemma_all_dirs(sec, "Group"@, opt_seq(s.group), sec, k);
    lemma_all_dirs(sec, "Environment"@, s.environment, sec, k);
    let a = d1 + d2 + d3 + d4;
    let b = d5 + d6 + d7 + d8;
    lemma_all_append(d1, d2, sec, k);
    lemma_all_append(d1 + d2, d3, sec, k);
    lemma_all_append(d1 + d2 + d3, d4, sec, k);
    lemma_all_append(d5, d6, sec, k);
    lemma_all_append(d5 + d6, d7, sec, k);
    lemma_all_append(d5 + d6 + d7, d8, sec, k);
    lemma_all_append(a, b, sec, k);
    assert(service_entries(s) =~= a + b);
}

proof fn lemma_output_told(stem: Seq<char>, k: Seq<char>)
    ensures
        parse::all_of(output_entries(stem), "Service"@, k) == told_output(stem, k),
{
    let sec = "Service"@;
    let journal = seq!["journal"@];
    let d1 = dirs(sec, "StandardOutput"@, journal);
    let d2 = dirs(sec, "StandardError"@, journal);
    let d3 = dirs(sec, "SyslogIdentifier"@, seq![text::trim_of(stem)]);
    lemma_all_dirs(sec, "StandardOutput"@, journal, sec, k);
    lemma_all_dirs(sec, "StandardError"@, journal, sec, k);
    lemma_all_dirs(sec, "SyslogIdentifier"@, seq![text::trim_of(stem)], sec, k);
    lemma_all_append(d1, d2, sec, k);
    lemma_all_append(d1 + d2, d3, sec, k);
}

proof fn lemma_description_told(description: Seq<char>, s: Seq<char>, k: Seq<char>)
    requires
        s != "Unit"@,
    ensures
        parse::all_of(description_dir(description), s, k) == Seq::<Seq<char>>::empty(),
{
    lemma_all_dirs("Unit"@, "Description"@, seq![description], s, k);
    assert(description_dir(description) =~= dirs("Unit"@, "Description"@, seq![description]));
}

proof fn lemma_sections_differ()
    ensures
        "Service"@ != "Unit"@,
        "Timer"@ != "Unit"@,
        "Mount"@ != "Unit"@,
        "Automount"@ != "Unit"@,
        "Install"@ != "Unit"@,
        "Install"@ != "Service"@,
        "Install"@ != "Timer"@,
        "Install"@ != "Mount"@,
        "Install"@ != "Automount"@,
{
    reveal_strlit("Service");
    reveal_strlit("Unit");
    reveal_strlit("Timer");
    reveal_strlit("Mount");
    reveal_strlit("Automount");
    reveal_strlit("Install");
    assert("Service"@.len() == 7 && "Unit"@.len() == 4 && "Timer"@.len() == 5);
    assert("Mount"@.len() == 5 && "Automount"@.len() == 9 && "Install"@.len() == 7);
    assert("Install"@[0] != "Service"@[0]);
}

/// What is found in a service file whose directives are the settings, then
/// something else, then the output.
#[verifier::spinoff_prover]
#[verifier::rlimit(60)]
proof fn lemma_tells_service(
    file: FileView,
    s: ServiceView,
    stem: Seq<char>,
    description: Seq<char>,
    mid: Seq<DirView>,
    tail: Seq<DirView>,
)
    requires
        parse::scan_of(file.body).entries == description_dir(description) + service_entries(s)
            + mid + output_entries(stem) + tail,
        forall|i: int|
            0 <= i < mid.len() ==> (#[trigger] mid[i]).key == "Restart"@ || mid[i].key
                == "RestartSec"@,
        forall|i: int| 0 <= i < tail.len() ==> (#[trigger] tail[i]).section == "Install"@,
    ensures
        tells_service(file, s, stem),
{
    lemma_service_keys_differ();
    lemma_sections_differ();
    let sec = "Service"@;
    let ds = parse::scan_of(file.body).entries;
    assert forall|k: Seq<char>|
        k != "Restart"@ && k != "RestartSec"@ implies #[trigger] parse::all_of(ds, sec, k)
        == told_first(s, k) + told_second(s, k) + told_output(stem, k) by {
        let a = description_dir(description);
        let b = service_entries(s);
        let c = output_entries(stem);
        lemma_description_told(description, sec, k);
        lemma_service_told(s, k);
        lemma_output_told(stem, k);
        lemma_none_told(mid, sec, k);
        lemma_none_told(tail, sec, k);
        lemma_all_append(a, b, sec, k);
        lemma_all_append(a + b, mid, sec, k);
        lemma_all_append(a + b + mid, c, sec, k);
        lemma_all_append(a + b + mid + c, tail, sec, k);
        assert(parse::all_of(ds, sec, k) =~= told_first(s, k) + told_second(s, k) + told_output(
            stem,
            k,
        ));
    }
    assert(told(file, sec, "Type"@) =~= seq![s.service_type.name()]);
    assert(told(file, sec, "ExecStartPre"@) =~= given(s.exec_start_pre));
    assert(told(file, sec, "ExecStart"@) =~= seq![s.exec_start]);
    assert(told(file, sec, "ExecStopPost"@) =~= given(s.exec_stop_post));
    assert(told(file, sec, "WorkingDirectory"@) =~= given(s.working_directory));
    assert(told(file, sec, "User"@) =~= given(s.run_as));
    assert(told(file, sec, "Group"@) =~= given(s.group));
    assert(told(file, sec, "Environment"@) =~= s.environment);
    assert(told(file, sec, "StandardOutput"@) =~= seq!["journal"@]);
    assert(told(file, sec, "StandardError"@) =~= seq!["journal"@]);
    assert(told(file, sec, "SyslogIdentifier"@) =~= seq![text::trim_of(stem)]);
}

proof fn lemma_none_told(ds: Seq<DirView>, s: Seq<char>, k: Seq<char>)
    requires
        forall|i: int| 0 <= i < ds.len() ==> (#[trigger] ds[i]).section != s || ds[i].key != k,
    ensures
        parse::all_of(ds, s, k) == Seq::<Seq<char>>::empty(),
    decreases ds.len(),
{
    if ds.len() > 0 {
        let d = ds.drop_last();
        assert forall|i: int| 0 <= i < d.len() implies (#[trigger] d[i]).section != s || d[i].key
            != k by {
            assert(d[i] == ds[i]);
        }
        lemma_none_told(d, s, k);
        assert(ds[ds.len() - 1] == ds.last());
    }
}

/// What is found in a timer file.
proof fn lemma_timer_told(t: TimerView, stem: Seq<char>, s: Seq<char>, k: Seq<char>)
    ensures
        parse::all_of(timer_entries(t, stem), s, k) == parse::all_of(
            schedule_entries(t.schedule),
            s,
            k,
        ) + hits("Timer"@, "Persistent"@, persistent_seq(t), s, k) + hits(
            "Timer"@,
            "RandomizedDelaySec"@,
            opt_seq(t.randomized_delay),
            s,
            k,
        ) + hits("Timer"@, "AccuracySec"@, seq!["1s"@], s, k) + hits(
            "Timer"@,
            "Unit"@,
            seq![stem + ".service"@],
            s,
            k,
        ) + hits("Install"@, "WantedBy"@, seq!["timers.target"@], s, k),
{
    let tm = "Timer"@;
    let d0 = schedule_entries(t.schedule);
    let d1 = dirs(tm, "Persistent"@, persistent_seq(t));
    let d2 = dirs(tm, "RandomizedDelaySec"@, opt_seq(t.randomized_delay));
    let d3 = dirs(tm, "AccuracySec"@, seq!["1s"@]);
    let d4 = dirs(tm, "Unit"@, seq![stem + ".service"@]);
    let d5 = dirs("Install"@, "WantedBy"@, seq!["timers.target"@]);
    lemma_all_dirs(tm, "Persistent"@, persistent_seq(t), s, k);
    lemma_all_dirs(tm, "RandomizedDelaySec"@, opt_seq(t.randomized_delay), s, k);
    lemma_all_dirs(tm, "AccuracySec"@, seq!["1s"@], s, k);
    lemma_all_dirs(tm, "Unit"@, seq![stem + ".service"@], s, k);
    lemma_all_dirs("Install"@, "WantedBy"@, seq!["timers.target"@], s, k);
    lemma_all_append(d0, d1, s, k);
    lemma_all_append(d0 + d1, d2, s, k);
    lemma_all_append(d0 + d1 + d2, d3, s, k);
    lemma_all_append(d0 + d1 + d2 + d3, d4, s, k);
    lemma_all_append(d0 + d1 + d2 + d3 + d4, d5, s, k);
}

/// What a schedule sets: the calendar specs, the time after boot and the time
/// between runs.
pub open spec fn calendar_values(s: ScheduleView) -> Seq<Seq<char>> {
    match s {
        ScheduleView::Calendar(v) => v,
        _ => seq![],
    }
}

pub open spec fn boot_values(s: ScheduleView) -> Seq<Seq<char>> {
    match s {
        ScheduleView::Calendar(_) => seq![],
        ScheduleView::Every { boot, .. } => seq![boot],
        ScheduleView::Boot { boot } => seq![boot],
    }
}

pub open spec fn every_values(s: ScheduleView) -> Seq<Seq<char>> {
    match s {
        ScheduleView::Every { every, .. } => seq![every],
        _ => seq![],
    }
}

proof fn lemma_schedule_told(sc: ScheduleView, s: Seq<char>, k: Seq<char>)
    ensures
        parse::all_of(schedule_entries(sc), s, k) == hits(
            "Timer"@,
            "OnCalendar"@,
            calendar_values(sc),
            s,
            k,
        ) + hits("Timer"@, "OnBootSec"@, boot_values(sc), s, k) + hits(
            "Timer"@,
            "OnUnitActiveSec"@,
            every_values(sc),
            s,
            k,
        ),
{
    let tm = "Timer"@;
    let a = dirs(tm, "OnCalendar"@, calendar_values(sc));
    let b = dirs(tm, "OnBootSec"@, boot_values(sc));
    let c = dirs(tm, "OnUnitActiveSec"@, every_values(sc));
    lemma_all_dirs(tm, "OnCalendar"@, calendar_values(sc), s, k);
    lemma_all_dirs(tm, "OnBootSec"@, boot_values(sc), s, k);
    lemma_all_dirs(tm, "OnUnitActiveSec"@, every_values(sc), s, k);
    lemma_all_append(a, b, s, k);
    lemma_all_append(a + b, c, s, k);
    assert(schedule_entries(sc) =~= a + b + c);
}

#[verifier::spinoff_prover]
#[verifier::rlimit(60)]
proof fn lemma_tells_timer(file: FileView, t: TimerView, stem: Seq<char>, description: Seq<char>)
    requires
        is_plain_timer(t),
        parse::scan_of(file.body).entries == description_dir(description) + timer_entries(t, stem),
    ensures
        told(file, "Timer"@, "OnCalendar"@) == calendar_values(t.schedule),
        told(file, "Timer"@, "OnBootSec"@) == boot_values(t.schedule),
        told(file, "Timer"@, "OnUnitActiveSec"@) == every_values(t.schedule),
        told(file, "Timer"@, "Persistent"@) == if t.persistent {
            seq!["true"@]
        } else {
            seq![]
        },
        told(file, "Timer"@, "RandomizedDelaySec"@) == given(t.randomized_delay),
        told(file, "Timer"@, "AccuracySec"@) == seq!["1s"@],
        told(file, "Timer"@, "Unit"@) == seq![stem + ".service"@],
        told(file, "Install"@, "WantedBy"@) == seq!["timers.target"@],
{
    lemma_timer_keys_differ();
    lemma_sections_differ();
    let tm = "Timer"@;
    let ins = "Install"@;
    let ds = parse::scan_of(file.body).entries;
    let d = description_dir(description);
    assert forall|s: Seq<char>, k: Seq<char>| s != "Unit"@ implies #[trigger] parse::all_of(
        ds,
        s,
        k,
    ) == parse::all_of(timer_entries(t, stem), s, k) by {
        lemma_description_told(description, s, k);
        lemma_all_append(d, timer_entries(t, stem), s, k);
        assert(parse::all_of(ds, s, k) =~= parse::all_of(timer_entries(t, stem), s, k));
    }
    lemma_timer_told(t, stem, tm, "OnCalendar"@);
    lemma_schedule_told(t.schedule, tm, "OnCalendar"@);
    assert(told(file, tm, "OnCalendar"@) =~= calendar_values(t.schedule));
    lemma_timer_told(t, stem, tm, "OnBootSec"@);
    lemma_schedule_told(t.schedule, tm, "OnBootSec"@);
    assert(told(file, tm, "OnBootSec"@) =~= boot_values(t.schedule));
    lemma_timer_told(t, stem, tm, "OnUnitActiveSec"@);
    lemma_schedule_told(t.schedule, tm, "OnUnitActiveSec"@);
    assert(told(file, tm, "OnUnitActiveSec"@) =~= every_values(t.schedule));
    lemma_timer_told(t, stem, tm, "Persistent"@);
    lemma_schedule_told(t.schedule, tm, "Persistent"@);
    assert(told(file, tm, "Persistent"@) =~= persistent_seq(t));
    lemma_timer_told(t, stem, tm, "RandomizedDelaySec"@);
    lemma_schedule_told(t.schedule, tm, "RandomizedDelaySec"@);
    assert(told(file, tm, "RandomizedDelaySec"@) =~= given(t.randomized_delay));
    lemma_timer_told(t, stem, tm, "AccuracySec"@);
    lemma_schedule_told(t.schedule, tm, "AccuracySec"@);
    assert(told(file, tm, "AccuracySec"@) =~= seq!["1s"@]);
    lemma_timer_told(t, stem, tm, "Unit"@);
    lemma_schedule_told(t.schedule, tm, "Unit"@);
    assert(told(file, tm, "Unit"@) =~= seq![stem + ".service"@]);
    lemma_timer_told(t, stem, ins, "WantedBy"@);
    lemma_schedule_told(t.schedule, ins, "WantedBy"@);
    assert(told(file, ins, "WantedBy"@) =~= seq!["timers.target"@]);
}

/// The two files of a timer tell systemd to start the service that is written
/// beside the timer, on the timer's schedule, and to run it as it is set up.
pub proof fn law_timer_files_tell_systemd(u: UnitView)
    requires
        is_plain(u),
        u.body is Timer,
    ensures
        ({
            let t = u.body->Timer_0;
            let files = generate::render_of(u);
            let stem = model::prefixed_of(u.name);
            &&& files.len() == 2
            &&& files[0].name == stem + ".timer"@
            &&& files[1].name == stem + ".service"@
            &&& told(files[0], "Timer"@, "Unit"@) == seq![files[1].name]
            &&& told(files[0], "Timer"@, "OnCalendar"@) == calendar_values(t.schedule)
            &&& told(files[0], "Timer"@, "OnBootSec"@) == boot_values(t.schedule)
            &&& told(files[0], "Timer"@, "OnUnitActiveSec"@) == every_values(t.schedule)
            &&& told(files[0], "Timer"@, "Persistent"@) == if t.persistent {
                seq!["true"@]
            } else {
                seq![]
            }
            &&& told(files[0], "Timer"@, "RandomizedDelaySec"@) == given(t.randomized_delay)
            &&& told(files[0], "Timer"@, "AccuracySec"@) == seq!["1s"@]
            &&& told(files[0], "Install"@, "WantedBy"@) == seq!["timers.target"@]
            &&& tells_service(files[1], t.service, stem)
        }),
{
    let t = u.body->Timer_0;
    let files = generate::render_of(u);
    let stem = model::prefixed_of(u.name);
    lemma_stem(u.name);
    lemma_timer_file(u, t, stem);
    lemma_timer_service_file(u, t, stem);
    lemma_tells_timer(files[0], t, stem, text::trim_of(u.description + " (timer)"@));
    let none = Seq::<DirView>::empty();
    let a = description_dir(u.description) + service_entries(t.service);
    assert(a + output_entries(stem) =~= a + none + output_entries(stem) + none);
    lemma_tells_service(files[1], t.service, stem, u.description, none, none);
}

#[verifier::spinoff_prover]
proof fn lemma_tells_restart(
    file: FileView,
    s: StandaloneView,
    stem: Seq<char>,
    description: Seq<char>,
)
    requires
        parse::scan_of(file.body).entries == description_dir(description) + (service_entries(
            s.service,
        ) + standalone_entries(s, stem)),
    ensures
        tells_service(file, s.service, stem),
        told(file, "Service"@, "Restart"@) == seq![s.service.restart.name()],
        told(file, "Service"@, "RestartSec"@) == given(s.service.restart_sec),
        told(file, "Install"@, "WantedBy"@) == seq![s.wanted_by],
{
    lemma_service_keys_differ();
    lemma_sections_differ();
    let sec = "Service"@;
    let a = description_dir(description);
    let b = service_entries(s.service);
    let m1 = dirs(sec, "Restart"@, seq![s.service.restart.name()]);
    let m2 = dirs(sec, "RestartSec"@, opt_seq(s.service.restart_sec));
    let c = output_entries(stem);
    let tail = dirs("Install"@, "WantedBy"@, seq![s.wanted_by]);
    let ds = parse::scan_of(file.body).entries;
    assert(ds =~= a + b + (m1 + m2) + c + tail);
    lemma_tells_service(file, s.service, stem, description, m1 + m2, tail);
    assert forall|s1: Seq<char>, k: Seq<char>| s1 != "Unit"@ implies #[trigger] parse::all_of(
        ds,
        s1,
        k,
    ) == parse::all_of(b, s1, k) + (hits(
        sec,
        "Restart"@,
        seq![s.service.restart.name()],
        s1,
        k,
    ) + hits(sec, "RestartSec"@, opt_seq(s.service.restart_sec), s1, k)) + parse::all_of(c, s1, k)
        + hits("Install"@, "WantedBy"@, seq![s.wanted_by], s1, k) by {
        lemma_description_told(description, s1, k);
        lemma_all_dirs(sec, "Restart"@, seq![s.service.restart.name()], s1, k);
        lemma_all_dirs(sec, "RestartSec"@, opt_seq(s.service.restart_sec), s1, k);
        lemma_all_dirs("Install"@, "WantedBy"@, seq![s.wanted_by], s1, k);
        lemma_all_append(m1, m2, s1, k);
        lemma_all_append(a, b, s1, k);
        lemma_all_append(a + b, m1 + m2, s1, k);
        lemma_all_append(a + b + (m1 + m2), c, s1, k);
        lemma_all_append(a + b + (m1 + m2) + c, tail, s1, k);
        let none = Seq::<Seq<char>>::empty();
        assert(none + parse::all_of(b, s1, k) =~= parse::all_of(b, s1, k));
    }
    lemma_service_told(s.service, "Restart"@);
    lemma_output_told(stem, "Restart"@);
    assert(told(file, sec, "Restart"@) =~= seq![s.service.restart.name()]);
    lemma_service_told(s.service, "RestartSec"@);
    lemma_output_told(stem, "RestartSec"@);
    assert(told(file, sec, "RestartSec"@) =~= given(s.service.restart_sec));
    lemma_none_told(b, "Install"@, "WantedBy"@);
    lemma_none_told(c, "Install"@, "WantedBy"@);
    assert(told(file, "Install"@, "WantedBy"@) =~= seq![s.wanted_by]);
}

/// The file of a service tells systemd to run it as it is set up, when to
/// start it again, and what wants it.
pub proof fn law_service_file_tells_systemd(u: UnitView)
    requires
        is_plain(u),
        u.body is Service,
    ensures
        ({
            let s = u.body->Service_0;
            let files = generate::render_of(u);
            let stem = model::prefixed_of(u.name);
            &&& files.len() == 1
            &&& files[0].name == stem + ".service"@
            &&& tells_service(files[0], s.service, stem)
            &&& told(files[0], "Service"@, "Restart"@) == seq![s.service.restart.name()]
            &&& told(files[0], "Service"@, "RestartSec"@) == given(s.service.restart_sec)
            &&& told(files[0], "Install"@, "WantedBy"@) == seq![s.wanted_by]
        }),
{
    let s = u.body->Service_0;
    let files = generate::render_of(u);
    let stem = model::prefixed_of(u.name);
    lemma_standalone_file(u, s, stem);
    lemma_tells_restart(files[0], s, stem, u.description);
}

proof fn lemma_mount_keys_differ()
    ensures
        "What"@ != "Where"@,
        "What"@ != "Type"@,
        "What"@ != "Options"@,
        "Where"@ != "Type"@,
        "Where"@ != "Options"@,
        "Type"@ != "Options"@,
        "Where"@ != "TimeoutIdleSec"@,
{
    reveal_strlit("What");
    reveal_strlit("Where");
    reveal_strlit("Type");
    reveal_strlit("Options");
    reveal_strlit("TimeoutIdleSec");
    assert("What"@[0] != "Type"@[0]);
    assert("What"@.len() == 4 && "Where"@.len() == 5 && "Type"@.len() == 4);
    assert("Options"@.len() == 7 && "TimeoutIdleSec"@.len() == 14);
}

#[verifier::spinoff_prover]
proof fn lemma_tells_mount(file: FileView, m: MountView, description: Seq<char>)
    requires
        parse::scan_of(file.body).entries == description_dir(description) + mount_entries(m),
    ensures
        told(file, "Mount"@, "What"@) == seq![m.what],
        told(file, "Mount"@, "Where"@) == seq![m.where_],
        told(file, "Mount"@, "Type"@) == seq![m.fstype],
        told(file, "Mount"@, "Options"@) == full_seq(m.options),
        told(file, "Install"@, "WantedBy"@) == seq!["multi-user.target"@],
{
    lemma_mount_keys_differ();
    lemma_sections_differ();
    let sec = "Mount"@;
    let ins = "Install"@;
    let target = seq!["multi-user.target"@];
    let d = description_dir(description);
    let d1 = dirs(sec, "What"@, seq![m.what]);
    let d2 = dirs(sec, "Where"@, seq![m.where_]);
    let d3 = dirs(sec, "Type"@, seq![m.fstype]);
    let d4 = dirs(sec, "Options"@, full_seq(m.options));
    let d5 = dirs(ins, "WantedBy"@, target);
    let ds = parse::scan_of(file.body).entries;
    assert(ds =~= d + d1 + d2 + d3 + d4 + d5);
    assert forall|s: Seq<char>, k: Seq<char>| s != "Unit"@ implies #[trigger] parse::all_of(
        ds,
        s,
        k,
    ) == hits(sec, "What"@, seq![m.what], s, k) + hits(sec, "Where"@, seq![m.where_], s, k) + hits(
        sec,
        "Type"@,
        seq![m.fstype],
        s,
        k,
    ) + hits(sec, "Options"@, full_seq(m.options), s, k) + hits(ins, "WantedBy"@, target, s, k) by {
        lemma_description_told(description, s, k);
        lemma_all_dirs(sec, "What"@, seq![m.what], s, k);
        lemma_all_dirs(sec, "Where"@, seq![m.where_], s, k);
        lemma_all_dirs(sec, "Type"@, seq![m.fstype], s, k);
        lemma_all_dirs(sec, "Options"@, full_seq(m.options), s, k);
        lemma_all_dirs(ins, "WantedBy"@, target, s, k);
        lemma_all_append(d, d1, s, k);
        lemma_all_append(d + d1, d2, s, k);
        lemma_all_append(d + d1 + d2, d3, s, k);
        lemma_all_append(d + d1 + d2 + d3, d4, s, k);
        lemma_all_append(d + d1 + d2 + d3 + d4, d5, s, k);
        let none = Seq::<Seq<char>>::empty();
        assert(none + hits(sec, "What"@, seq![m.what], s, k) =~= hits(
            sec,
            "What"@,
            seq![m.what],
            s,
            k,
        ));
    }
    assert(told(file, sec, "What"@) =~= seq![m.what]);
    assert(told(file, sec, "Where"@) =~= seq![m.where_]);
    assert(told(file, sec, "Type"@) =~= seq![m.fstype]);
    assert(told(file, sec, "Options"@) =~= full_seq(m.options));
    assert(told(file, ins, "WantedBy"@) =~= target);
}

#[verifier::spinoff_prover]
proof fn lemma_tells_automount(file: FileView, m: MountView, description: Seq<char>)
    requires
        parse::scan_of(file.body).entries == description_dir(description) + automount_entries(m),
    ensures
        told(file, "Automount"@, "Where"@) == seq![m.where_],
        told(file, "Automount"@, "TimeoutIdleSec"@) == given(m.timeout_idle),
        told(file, "Install"@, "WantedBy"@) == seq!["multi-user.target"@],
{
    lemma_mount_keys_differ();
    lemma_sections_differ();
    let sec = "Automount"@;
    let ins = "Install"@;
    let target = seq!["multi-user.target"@];
    let point = seq![m.where_];
    let idle = opt_seq(m.timeout_idle);
    let d = description_dir(description);
    let d1 = dirs(sec, "Where"@, point);
    let d2 = dirs(sec, "TimeoutIdleSec"@, idle);
    let d3 = dirs(ins, "WantedBy"@, target);
    let ds = parse::scan_of(file.body).entries;
    assert(ds =~= d + d1 + d2 + d3);
    assert forall|s: Seq<char>, k: Seq<char>| s != "Unit"@ implies #[trigger] parse::all_of(
        ds,
        s,
        k,
    ) == hits(sec, "Where"@, point, s, k) + hits(sec, "TimeoutIdleSec"@, idle, s, k) + hits(
        ins,
        "WantedBy"@,
        target,
        s,
        k,
    ) by {
        lemma_description_told(description, s, k);
        lemma_all_dirs(sec, "Where"@, point, s, k);
        lemma_all_dirs(sec, "TimeoutIdleSec"@, idle, s, k);
        lemma_all_dirs(ins, "WantedBy"@, target, s, k);
        lemma_all_append(d, d1, s, k);
        lemma_all_append(d + d1, d2, s, k);
        lemma_all_append(d + d1 + d2, d3, s, k);
        let none = Seq::<Seq<char>>::empty();
        assert(none + hits(sec, "Where"@, point, s, k) =~= hits(sec, "Where"@, point, s, k));
    }
    assert(told(file, sec, "Where"@) =~= point);
    assert(told(file, sec, "TimeoutIdleSec"@) =~= given(m.timeout_idle));
    assert(told(file, ins, "WantedBy"@) =~= target);
}

/// The files of a mount tell systemd to mount its source at its mount point.
/// An automount watches that same mount point, and both files are named after
/// it.
pub proof fn law_mount_files_tell_systemd(u: UnitView)
    requires
        is_plain(u),
        u.body is Mount,
    ensures
        ({
            let m = u.body->Mount_0;
            let files = generate::render_of(u);
            let mount = files.last();
            let stem = crate::unit::escape::escape_path_of(m.where_);
            &&& stem is Ok
            &&& files.len() == if m.automount {
                2
            } else {
                1nat
            }
            &&& mount.name == stem->Ok_0 + ".mount"@
            &&& told(mount, "Mount"@, "What"@) == seq![m.what]
            &&& told(mount, "Mount"@, "Where"@) == seq![m.where_]
            &&& told(mount, "Mount"@, "Type"@) == seq![m.fstype]
            &&& told(mount, "Mount"@, "Options"@) == if m.options.len() == 0 {
                seq![]
            } else {
                seq![m.options]
            }
            &&& told(mount, "Install"@, "WantedBy"@) == seq!["multi-user.target"@]
            &&& m.automount ==> {
                &&& files[0].name == stem->Ok_0 + ".automount"@
                &&& told(files[0], "Automount"@, "Where"@) == told(mount, "Mount"@, "Where"@)
                &&& told(files[0], "Automount"@, "TimeoutIdleSec"@) == given(m.timeout_idle)
                &&& told(files[0], "Install"@, "WantedBy"@) == seq!["multi-user.target"@]
            }
        }),
{
    let m = u.body->Mount_0;
    let files = generate::render_of(u);
    lemma_mount_file(u, m);
    lemma_tells_mount(files.last(), m, u.description);
    if m.automount {
        lemma_automount_file(u, m);
        lemma_tells_automount(files[0], m, text::trim_of(u.description + " (automount)"@));
    }
}

proof fn lemma_first_told(file: FileView, description: Seq<char>, rest: Seq<DirView>)
    requires
        parse::scan_of(file.body).entries == description_dir(description) + rest,
    ensures
        told(file, "Unit"@, "Description"@).len() > 0,
        told(file, "Unit"@, "Description"@)[0] == description,
{
    let u = "Unit"@;
    let k = "Description"@;
    lemma_all_append(description_dir(description), rest, u, k);
    lemma_all_dirs(u, k, seq![description], u, k);
}

/// Every file has the unit's description; that of a timer says so, and that
/// of an automount too.
pub proof fn law_files_carry_the_description(u: UnitView)
    requires
        is_plain(u),
    ensures
        ({
            let files = generate::render_of(u);
            let last = told(files.last(), "Unit"@, "Description"@);
            let first = told(files[0], "Unit"@, "Description"@);
            &&& last.len() > 0 && last[0] == u.description
            &&& u.body is Timer ==> first.len() > 0 && first[0] == text::trim_of(
                u.description + " (timer)"@,
            )
            &&& u.body is Mount && u.body->Mount_0.automount ==> first.len() > 0 && first[0]
                == text::trim_of(u.description + " (automount)"@)
        }),
{
    let files = generate::render_of(u);
    let stem = model::prefixed_of(u.name);
    match u.body {
        BodyView::Timer(t) => {
            lemma_stem(u.name);
            lemma_timer_file(u, t, stem);
            lemma_timer_service_file(u, t, stem);
            let d = description_dir(u.description);
            assert(d + service_entries(t.service) + output_entries(stem) =~= d + (service_entries(
                t.service,
            ) + output_entries(stem)));
            lemma_first_told(
                files[0],
                text::trim_of(u.description + " (timer)"@),
                timer_entries(t, stem),
            );
            lemma_first_told(
                files[1],
                u.description,
                service_entries(t.service) + output_entries(stem),
            );
        },
        BodyView::Service(s) => {
            lemma_standalone_file(u, s, stem);
            lemma_first_told(
                files[0],
                u.description,
                service_entries(s.service) + standalone_entries(s, stem),
            );
        },
        BodyView::Mount(m) => {
            lemma_mount_file(u, m);
            lemma_first_told(files.last(), u.description, mount_entries(m));
            if m.automount {
                lemma_automount_file(u, m);
                lemma_first_told(
                    files[0],
                    text::trim_of(u.description + " (automount)"@),
                    automount_entries(m),
                );
            }
        },
    }
}

// ---------------------------------------------------------------------------
// What is read from any file
// ---------------------------------------------------------------------------

/// The first of some values.
pub open spec fn first_value(v: Seq<Seq<char>>) -> Option<Seq<char>> {
    if v.len() > 0 {
        Some(v[0])
    } else {
        None
    }
}

/// The first of some values, or nothing.
pub open spec fn first_or_nothing(v: Seq<Seq<char>>) -> Seq<char> {
    if v.len() > 0 {
        v[0]
    } else {
        seq![]
    }
}

proof fn lemma_first_is_first(ds: Seq<DirView>, s: Seq<char>, k: Seq<char>)
    ensures
        parse::first_of(ds, s, k) == first_value(parse::all_of(ds, s, k)),
    decreases ds.len(),
{
    if ds.len() > 0 {
        let one = seq![ds[0]];
        let rest = ds.skip(1);
        assert(ds =~= one + rest);
        lemma_all_append(one, rest, s, k);
        assert(one.drop_last() =~= seq![]);
        reveal_with_fuel(parse::all_of, 2);
        lemma_first_is_first(rest, s, k);
    }
}

/// Whether a model of a service holds what its file tells: of each setting
/// the first value, and of the environment all of it.
pub open spec fn holds_service(s: ServiceView, file: FileView) -> bool {
    let sec = "Service"@;
    &&& s.exec_start == first_or_nothing(told(file, sec, "ExecStart"@))
    &&& s.exec_start_pre == first_value(told(file, sec, "ExecStartPre"@))
    &&& s.exec_stop_post == first_value(told(file, sec, "ExecStopPost"@))
    &&& s.working_directory == first_value(told(file, sec, "WorkingDirectory"@))
    &&& s.run_as == first_value(told(file, sec, "User"@))
    &&& s.group == first_value(told(file, sec, "Group"@))
    &&& s.environment == told(file, sec, "Environment"@)
    &&& s.restart_sec == first_value(told(file, sec, "RestartSec"@))
}

proof fn lemma_holds_service(t: model::ServiceType, file: FileView)
    ensures
        holds_service(parse::service_from(t, parse::scan_of(file.body).entries), file),
{
    let ds = parse::scan_of(file.body).entries;
    let sec = "Service"@;
    reveal(parse::service_from);
    lemma_first_is_first(ds, sec, "ExecStart"@);
    lemma_first_is_first(ds, sec, "ExecStartPre"@);
    lemma_first_is_first(ds, sec, "ExecStopPost"@);
    lemma_first_is_first(ds, sec, "WorkingDirectory"@);
    lemma_first_is_first(ds, sec, "User"@);
    lemma_first_is_first(ds, sec, "Group"@);
    lemma_first_is_first(ds, sec, "RestartSec"@);
}

/// A service that is read, whoever wrote it, holds what its file tells.
#[verifier::spinoff_prover]
#[verifier::rlimit(50)]
pub proof fn law_services_are_read(scope: model::Scope, file: FileView, u: UnitView, owned: bool)
    requires
        parse::parse_of(scope, seq![file]) == Ok::<(UnitView, bool), Seq<char>>((u, owned)),
        u.body is Service,
    ensures
        u.scope == scope,
        u.description == first_or_nothing(told(file, "Unit"@, "Description"@)),
        holds_service(u.body->Service_0.service, file),
        u.body->Service_0.wanted_by == first_or_nothing(told(file, "Install"@, "WantedBy"@)),
{
    reveal(parse::timer_of);
    reveal(parse::service_of);
    reveal(parse::mount_of);
    assert(parse::scan_at(seq![file], 0) == parse::scan_of(file.body));
    let ds = parse::scan_of(file.body).entries;
    lemma_holds_service(model::ServiceType::Simple, file);
    lemma_first_is_first(ds, "Unit"@, "Description"@);
    lemma_first_is_first(ds, "Install"@, "WantedBy"@);
}

#[verifier::spinoff_prover]
#[verifier::rlimit(50)]
proof fn lemma_timer_fields(
    scope: model::Scope,
    timer: FileView,
    service: FileView,
    u: UnitView,
    owned: bool,
)
    requires
        parse::parse_of(scope, seq![timer, service]) == Ok::<(UnitView, bool), Seq<char>>(
            (u, owned),
        ),
        u.body is Timer,
    ensures
        ({
            let t = u.body->Timer_0;
            let ds = parse::scan_of(timer.body).entries;
            let es = parse::scan_of(service.body).entries;
            &&& u.scope == scope
            &&& u.description == parse::description_of(es)
            &&& parse::schedule_from(ds) == Some(t.schedule)
            &&& t.persistent == parse::persistent_from(ds)
            &&& t.randomized_delay == parse::first_of(ds, "Timer"@, "RandomizedDelaySec"@)
            &&& t.service == parse::service_from(model::ServiceType::Oneshot, es)
        }),
{
    reveal(parse::timer_of);
    reveal(parse::service_of);
    reveal(parse::mount_of);
    let files = seq![timer, service];
    assert(parse::scan_at(files, 0) == parse::scan_of(timer.body));
    assert(parse::scan_at(files, 1) == parse::scan_of(service.body));
}

/// The schedule of a timer is made of what its file tells.
proof fn lemma_schedule_read(timer: FileView, s: ScheduleView)
    requires
        parse::schedule_from(parse::scan_of(timer.body).entries) == Some(s),
    ensures
        ({
            let on = told(timer, "Timer"@, "OnCalendar"@);
            let boot = told(timer, "Timer"@, "OnBootSec"@);
            let every = told(timer, "Timer"@, "OnUnitActiveSec"@);
            &&& on.len() > 0 ==> s == ScheduleView::Calendar(on)
            &&& on.len() == 0 ==> boot.len() > 0
            &&& on.len() == 0 && every.len() > 0 ==> s == (ScheduleView::Every {
                every: every[0],
                boot: boot[0],
            })
            &&& on.len() == 0 && every.len() == 0 ==> s == (ScheduleView::Boot { boot: boot[0] })
        }),
{
    let ds = parse::scan_of(timer.body).entries;
    lemma_first_is_first(ds, "Timer"@, "OnBootSec"@);
    lemma_first_is_first(ds, "Timer"@, "OnUnitActiveSec"@);
}

proof fn lemma_persistent_read(timer: FileView)
    ensures
        ({
            let v = first_or_nothing(told(timer, "Timer"@, "Persistent"@));
            parse::persistent_from(parse::scan_of(timer.body).entries) <==> v == seq![
                't',
                'r',
                'u',
                'e',
            ] || v == seq!['y', 'e', 's'] || v == seq!['1']
        }),
{
    lemma_first_is_first(parse::scan_of(timer.body).entries, "Timer"@, "Persistent"@);
    reveal_strlit("true");
    reveal_strlit("yes");
    reveal_strlit("1");
    assert("true"@ =~= seq!['t', 'r', 'u', 'e']);
    assert("yes"@ =~= seq!['y', 'e', 's']);
    assert("1"@ =~= seq!['1']);
}

/// A timer that is read, whoever wrote it, fires as its file tells and runs
/// what the service beside it tells.
#[verifier::spinoff_prover]
pub proof fn law_timers_are_read(
    scope: model::Scope,
    timer: FileView,
    service: FileView,
    u: UnitView,
    owned: bool,
)
    requires
        parse::parse_of(scope, seq![timer, service]) == Ok::<(UnitView, bool), Seq<char>>(
            (u, owned),
        ),
        u.body is Timer,
    ensures
        ({
            let t = u.body->Timer_0;
            let sec = "Timer"@;
            let on = told(timer, sec, "OnCalendar"@);
            let boot = told(timer, sec, "OnBootSec"@);
            let every = told(timer, sec, "OnUnitActiveSec"@);
            let persistent = first_or_nothing(told(timer, sec, "Persistent"@));
            &&& u.scope == scope
            &&& u.description == first_or_nothing(told(service, "Unit"@, "Description"@))
            &&& holds_service(t.service, service)
            &&& t.randomized_delay == first_value(told(timer, sec, "RandomizedDelaySec"@))
            &&& t.persistent <==> persistent == seq!['t', 'r', 'u', 'e'] || persistent == seq![
                'y',
                'e',
                's',
            ] || persistent == seq!['1']
            &&& on.len() > 0 ==> t.schedule == ScheduleView::Calendar(on)
            &&& on.len() == 0 ==> boot.len() > 0
            &&& on.len() == 0 && every.len() > 0 ==> t.schedule == (ScheduleView::Every {
                every: every[0],
                boot: boot[0],
            })
            &&& on.len() == 0 && every.len() == 0 ==> t.schedule == (ScheduleView::Boot {
                boot: boot[0],
            })
        }),
{
    lemma_timer_fields(scope, timer, service, u, owned);
    lemma_schedule_read(timer, u.body->Timer_0.schedule);
    lemma_persistent_read(timer);
    lemma_holds_service(model::ServiceType::Oneshot, service);
    lemma_first_is_first(parse::scan_of(service.body).entries, "Unit"@, "Description"@);
    lemma_first_is_first(
        parse::scan_of(timer.body).entries,
        "Timer"@,
        "RandomizedDelaySec"@,
    );
}

/// A mount that is read, whoever wrote it, mounts what its file tells; where
/// the file names no place, its own name does.
#[verifier::spinoff_prover]
#[verifier::rlimit(50)]
pub proof fn law_mounts_are_read(
    scope: model::Scope,
    file: FileView,
    stem: Seq<char>,
    u: UnitView,
    owned: bool,
)
    requires
        parse::parse_of(scope, seq![file]) == Ok::<(UnitView, bool), Seq<char>>((u, owned)),
        u.body is Mount,
        parts::rsplit_once_of(file.name, '.') == Some((stem, "mount"@)),
        ".mount"@.is_suffix_of(file.name),
    ensures
        ({
            let m = u.body->Mount_0;
            let sec = "Mount"@;
            &&& u.scope == scope
            &&& u.description == first_or_nothing(told(file, "Unit"@, "Description"@))
            &&& m.what == first_or_nothing(told(file, sec, "What"@))
            &&& m.fstype == first_or_nothing(told(file, sec, "Type"@))
            &&& m.options == first_or_nothing(told(file, sec, "Options"@))
            &&& m.where_ == match first_value(told(file, sec, "Where"@)) {
                Some(w) => w,
                None => crate::unit::escape::unescape_path_of(stem),
            }
            &&& !m.automount
        }),
{
    reveal(parse::timer_of);
    reveal(parse::service_of);
    reveal(parse::mount_of);
    assert(parse::scan_at(seq![file], 0) == parse::scan_of(file.body));
    let ds = parse::scan_of(file.body).entries;
    let sec = "Mount"@;
    lemma_first_is_first(ds, "Unit"@, "Description"@);
    lemma_first_is_first(ds, sec, "What"@);
    lemma_first_is_first(ds, sec, "Type"@);
    lemma_first_is_first(ds, sec, "Options"@);
    lemma_first_is_first(ds, sec, "Where"@);
    reveal_strlit(".timer");
    reveal_strlit(".automount");
    reveal_strlit(".mount");
    let n = file.name.len() as int;
    assert(file.name[n - 1] == 't' && file.name[n - 6] == '.') by {
        assert(file.name.subrange(n - 6, n) == ".mount"@);
        assert(file.name.subrange(n - 6, n)[5] == ".mount"@[5]);
        assert(file.name.subrange(n - 6, n)[0] == ".mount"@[0]);
    }
    assert(!".timer"@.is_suffix_of(file.name)) by {
        if ".timer"@.is_suffix_of(file.name) {
            assert(file.name.subrange(n - 6, n)[5] == ".timer"@[5]);
        }
    }
    assert(!".automount"@.is_suffix_of(file.name)) by {
        if ".automount"@.is_suffix_of(file.name) {
            assert(file.name.subrange(n - 10, n)[4] == ".automount"@[4]);
        }
    }
}

} // verus!
