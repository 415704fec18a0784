//! The fields behind the rows: paths that can be browsed for, the shell
//! wrapper, suggestions for what is still empty, and completion.

use crate::complete;
use crate::complete::{Completion, CompletionView, Listed};
use crate::templates;
use crate::text;
use crate::ui::builder::rows::Id;
use crate::ui::picker;
use crate::ui::picker::Mode;
use crate::unit::escape;
use crate::unit::model::{Body, BodyView, MountPreset, MountUnit, MountView, Scope, ServiceOpts};
use crate::unit::model::{ServiceView, StandaloneService, StandaloneView, TimerJob, TimerView, Unit};
use crate::unit::model::UnitView;
use crate::validate;
use vstd::prelude::*;

verus! {

broadcast use vstd::string::group_string_axioms;

// ---------------------------------------------------------------------------
// Replacing parts of a unit
// ---------------------------------------------------------------------------

/// The unit with other service settings, where it has any.
pub open spec fn with_service(u: UnitView, s: ServiceView) -> UnitView {
    UnitView {
        body: match u.body {
            BodyView::Timer(t) => BodyView::Timer(TimerView { service: s, ..t }),
            BodyView::Service(x) => BodyView::Service(StandaloneView { service: s, ..x }),
            BodyView::Mount(m) => BodyView::Mount(m),
        },
        ..u
    }
}

/// The unit with another mount.
pub open spec fn with_mount(u: UnitView, m: MountView) -> UnitView {
    UnitView { body: BodyView::Mount(m), ..u }
}

/// The unit with another timer.
pub open spec fn with_timer(u: UnitView, t: TimerView) -> UnitView {
    UnitView { body: BodyView::Timer(t), ..u }
}

/// Replaces the service settings.
pub fn set_service(u: &mut Unit, s: ServiceOpts)
    ensures
        final(u)@ == with_service(old(u)@, s@),
{
    let body = match &u.body {
        Body::Timer(t) => {
            let mut c: TimerJob = (**t).clone();
            c.service = s;
            Body::Timer(Box::new(c))
        },
        Body::Service(x) => {
            let mut c: StandaloneService = (**x).clone();
            c.service = s;
            Body::Service(Box::new(c))
        },
        Body::Mount(m) => {
            let c: MountUnit = (**m).clone();
            Body::Mount(Box::new(c))
        },
    };
    u.body = body;
}

/// A unit's name as its mount point dictates it, or none.
pub open spec fn named_of(u: UnitView) -> UnitView {
    UnitView {
        name: match u.stem_of() {
            Ok(s) => s,
            Err(_) => seq![],
        },
        ..u
    }
}

/// Renames a unit as its mount point dictates.
pub fn rename(u: &mut Unit)
    ensures
        final(u)@ == named_of(old(u)@),
{
    let name = match u.stem() {
        Ok(s) => s,
        Err(_) => {
            let none = String::new();
            assert(none@ =~= seq![]);
            none
        },
    };
    u.name = name;
}

// ---------------------------------------------------------------------------
// Paths
// ---------------------------------------------------------------------------

/// How a picked path lands in the field it was picked for.
#[derive(Debug, Clone, Copy, PartialEq, Eq, Structural)]
pub enum Fill {
    /// Replaces the whole value.
    Whole,
    /// Replaces the program of a command line, keeping its arguments.
    Program,
}

/// What can be browsed for on a row.
pub open spec fn browsable_of(u: UnitView, id: Id) -> Option<(Seq<char>, Mode, Fill)> {
    match id {
        Id::ExecStart => Some(("ExecStart"@, Mode::File, Fill::Program)),
        Id::ExecStartPre => Some(("ExecStartPre"@, Mode::File, Fill::Program)),
        Id::ExecStopPost => Some(("ExecStopPost"@, Mode::File, Fill::Program)),
        Id::WorkDir => Some(("WorkingDirectory"@, Mode::Directory, Fill::Whole)),
        Id::Where => Some(("Where"@, Mode::Directory, Fill::Whole)),
        Id::What => match u.body {
            BodyView::Mount(m) => if m.preset == MountPreset::Block || m.preset
                == MountPreset::Bind {
                Some(("What"@, Mode::Any, Fill::Whole))
            } else {
                None
            },
            _ => None,
        },
        _ => None,
    }
}

/// What `b` browses for on this row, if the row holds a path at all.
///
/// `What=` is only a local path for block devices and bind mounts. For NFS
/// and CIFS it is `server:/export` or `//server/share`, which no picker can
/// produce, so browsing is not offered there at all.
pub fn browsable(u: &Unit, id: Id) -> (r: Option<(&'static str, Mode, Fill)>)
    ensures
        match r {
            Some((l, m, f)) => browsable_of(u@, id) == Some((l@, m, f)),
            None => browsable_of(u@, id) is None,
        },
{
    match id {
        Id::ExecStart => Some(("ExecStart", Mode::File, Fill::Program)),
        Id::ExecStartPre => Some(("ExecStartPre", Mode::File, Fill::Program)),
        Id::ExecStopPost => Some(("ExecStopPost", Mode::File, Fill::Program)),
        Id::WorkDir => Some(("WorkingDirectory", Mode::Directory, Fill::Whole)),
        Id::Where => Some(("Where", Mode::Directory, Fill::Whole)),
        Id::What => match &u.body {
            Body::Mount(m) => if m.preset.what_is_path() {
                Some(("What", Mode::Any, Fill::Whole))
            } else {
                None
            },
            _ => None,
        },
        _ => None,
    }
}

/// A value that may be unset, or nothing.
pub open spec fn or_empty(v: Option<Seq<char>>) -> Seq<char> {
    match v {
        Some(s) => s,
        None => seq![],
    }
}

/// A value that may be unset, or nothing.
pub fn opt_or_empty(v: &Option<String>) -> (r: String)
    ensures
        r@ == or_empty(text::opt_text(*v)),
{
    match v {
        Some(s) => s.clone(),
        None => {
            let none = String::new();
            assert(none@ =~= seq![]);
            none
        },
    }
}

/// The current value of a browsable field.
pub open spec fn path_field_of(u: UnitView, id: Id) -> Seq<char> {
    match u.body {
        BodyView::Mount(m) => match id {
            Id::What => m.what,
            Id::Where => m.where_,
            _ => seq![],
        },
        _ => {
            let s = validate::service_of(u).unwrap();
            match id {
                Id::ExecStart => s.exec_start,
                Id::ExecStartPre => or_empty(s.exec_start_pre),
                Id::ExecStopPost => or_empty(s.exec_stop_post),
                Id::WorkDir => or_empty(s.working_directory),
                _ => seq![],
            }
        },
    }
}

fn service_path(s: &ServiceOpts, id: Id) -> (r: String)
    ensures
        r@ == (match id {
            Id::ExecStart => s@.exec_start,
            Id::ExecStartPre => or_empty(s@.exec_start_pre),
            Id::ExecStopPost => or_empty(s@.exec_stop_post),
            Id::WorkDir => or_empty(s@.working_directory),
            _ => seq![],
        }),
{
    match id {
        Id::ExecStart => s.exec_start.clone(),
        Id::ExecStartPre => opt_or_empty(&s.exec_start_pre),
        Id::ExecStopPost => opt_or_empty(&s.exec_stop_post),
        Id::WorkDir => opt_or_empty(&s.working_directory),
        _ => opt_or_empty(&None),
    }
}

/// The current value of a browsable field.
pub fn path_field(u: &Unit, id: Id) -> (r: String)
    ensures
        r@ == path_field_of(u@, id),
{
    match &u.body {
        Body::Timer(t) => service_path(&t.service, id),
        Body::Service(s) => service_path(&s.service, id),
        Body::Mount(m) => match id {
            Id::What => m.what.clone(),
            Id::Where => m.where_.clone(),
            _ => opt_or_empty(&None),
        },
    }
}

/// Whether a row writes service settings that can be browsed for.
pub open spec fn is_service_path(id: Id) -> bool {
    id == Id::ExecStart || id == Id::ExecStartPre || id == Id::ExecStopPost || id == Id::WorkDir
}

/// The unit with another path in a field. The name of a mount follows its
/// mount point.
pub open spec fn set_path_of(u: UnitView, id: Id, v: Seq<char>) -> UnitView {
    match u.body {
        BodyView::Mount(m) => match id {
            Id::What => with_mount(u, MountView { what: v, ..m }),
            Id::Where => named_of(with_mount(u, MountView { where_: v, ..m })),
            _ => u,
        },
        _ => {
            let s = validate::service_of(u).unwrap();
            match id {
                Id::ExecStart => with_service(u, ServiceView { exec_start: v, ..s }),
                Id::ExecStartPre => with_service(u, ServiceView { exec_start_pre: Some(v), ..s }),
                Id::ExecStopPost => with_service(u, ServiceView { exec_stop_post: Some(v), ..s }),
                Id::WorkDir => with_service(u, ServiceView { working_directory: Some(v), ..s }),
                _ => u,
            }
        },
    }
}

/// Puts a path into a field.
pub fn set_path_field(u: &mut Unit, id: Id, v: String)
    requires
        is_service_path(id) ==> !(old(u)@.body is Mount),
    ensures
        final(u)@ == set_path_of(old(u)@, id, v@),
{
    let mount = match &u.body {
        Body::Mount(m) => {
            let c: MountUnit = (**m).clone();
            Some(c)
        },
        _ => None,
    };
    match mount {
        Some(m) => {
            let mut m = m;
            match id {
                Id::What => {
                    m.what = v;
                    u.body = Body::Mount(Box::new(m));
                },
                Id::Where => {
                    m.where_ = v;
                    u.body = Body::Mount(Box::new(m));
                    rename(u);
                },
                _ => {},
            }
        },
        None => {
            let s = match validate::service(u) {
                Some(s) => s.clone(),
                None => {
                    return;
                },
            };
            let mut s = s;
            match id {
                Id::ExecStart => {
                    s.exec_start = v;
                },
                Id::ExecStartPre => {
                    s.exec_start_pre = Some(v);
                },
                Id::ExecStopPost => {
                    s.exec_stop_post = Some(v);
                },
                Id::WorkDir => {
                    s.working_directory = Some(v);
                },
                _ => {
                    return;
                },
            }
            set_service(u, s);
        },
    }
}

/// What was put into a field is what it holds.
pub proof fn law_path_fields_round_trip(u: UnitView, id: Id, v: Seq<char>)
    requires
        is_service_path(id) ==> !(u.body is Mount),
        id == Id::What || id == Id::Where ==> u.body is Mount,
        is_service_path(id) || id == Id::What || id == Id::Where,
    ensures
        path_field_of(set_path_of(u, id, v), id) == v,
{
}

/// A picked path applied to the value a field already held.
pub open spec fn fill_of(fill: Fill, current: Seq<char>, picked: Seq<char>) -> Seq<char> {
    match fill {
        Fill::Whole => picked,
        Fill::Program => picker::join_command_of(picked, picker::split_command_of(current).1),
    }
}

/// Apply a picked path to the value a field already held.
pub fn fill_value(fill: Fill, current: &str, picked: &str) -> (r: String)
    ensures
        r@ == fill_of(fill, current@, picked@),
{
    match fill {
        Fill::Whole => picked.to_owned(),
        Fill::Program => {
            let (_, rest) = picker::split_command(current);
            picker::join_command(picked, rest.as_str())
        },
    }
}

/// Where browsing starts for a field: at its program or at its path.
pub fn browse_seed(fill: Fill, current: &str) -> (r: String)
    ensures
        r@ == (match fill {
            Fill::Program => picker::split_command_of(current@).0,
            Fill::Whole => current@,
        }),
{
    match fill {
        Fill::Program => {
            let (program, _) = picker::split_command(current);
            program
        },
        Fill::Whole => current.to_owned(),
    }
}

// ---------------------------------------------------------------------------
// Free text
// ---------------------------------------------------------------------------

/// The free text of a unit's file.
pub open spec fn manual_of(u: UnitView, id: Id) -> Seq<char> {
    match u.body {
        BodyView::Timer(t) => if id == Id::ManualPrimary {
            t.service_manual
        } else {
            t.timer_manual
        },
        BodyView::Service(s) => s.manual,
        BodyView::Mount(m) => if id == Id::ManualPrimary {
            m.manual
        } else {
            m.automount_manual
        },
    }
}

/// The free text of a unit's file.
pub fn manual_field(u: &Unit, id: Id) -> (r: &str)
    ensures
        r@ == manual_of(u@, id),
{
    match &u.body {
        Body::Timer(t) => if id == Id::ManualPrimary {
            t.service_manual.as_str()
        } else {
            t.timer_manual.as_str()
        },
        Body::Service(s) => s.manual.as_str(),
        Body::Mount(m) => if id == Id::ManualPrimary {
            m.manual.as_str()
        } else {
            m.automount_manual.as_str()
        },
    }
}

/// The unit with other free text.
pub open spec fn with_manual(u: UnitView, id: Id, v: Seq<char>) -> UnitView {
    UnitView {
        body: match u.body {
            BodyView::Timer(t) => BodyView::Timer(
                if id == Id::ManualPrimary {
                    TimerView { service_manual: v, ..t }
                } else {
                    TimerView { timer_manual: v, ..t }
                },
            ),
            BodyView::Service(s) => BodyView::Service(StandaloneView { manual: v, ..s }),
            BodyView::Mount(m) => BodyView::Mount(
                if id == Id::ManualPrimary {
                    MountView { manual: v, ..m }
                } else {
                    MountView { automount_manual: v, ..m }
                },
            ),
        },
        ..u
    }
}

/// Replaces the free text of a unit's file.
pub fn set_manual(u: &mut Unit, id: Id, v: String)
    ensures
        final(u)@ == with_manual(old(u)@, id, v@),
{
    let body = match &u.body {
        Body::Timer(t) => {
            let mut c: TimerJob = (**t).clone();
            if id == Id::ManualPrimary {
                c.service_manual = v;
            } else {
                c.timer_manual = v;
            }
            Body::Timer(Box::new(c))
        },
        Body::Service(s) => {
            let mut c: StandaloneService = (**s).clone();
            c.manual = v;
            Body::Service(Box::new(c))
        },
        Body::Mount(m) => {
            let mut c: MountUnit = (**m).clone();
            if id == Id::ManualPrimary {
                c.manual = v;
            } else {
                c.automount_manual = v;
            }
            Body::Mount(Box::new(c))
        },
    };
    u.body = body;
}

// ---------------------------------------------------------------------------
// The shell wrapper
// ---------------------------------------------------------------------------

/// The start of a wrapped command line.
pub open spec fn shell() -> Seq<char> {
    "/bin/sh -c "@
}

/// A text without a prefix, however often it stands there.
pub open spec fn strip_all(s: Seq<char>, p: Seq<char>) -> Seq<char>
    decreases s.len(),
{
    if p.len() > 0 && p.is_prefix_of(s) {
        strip_all(s.skip(p.len() as int), p)
    } else {
        s
    }
}

/// A quoted text without its backslashes, each of which stands for the
/// character behind it.
pub open spec fn unslashed(s: Seq<char>) -> Seq<char>
    decreases s.len(),
{
    if s.len() == 0 {
        seq![]
    } else if s[0] == '\\' {
        if s.len() == 1 {
            seq![]
        } else {
            seq![s[1]] + unslashed(s.skip(2))
        }
    } else {
        seq![s[0]] + unslashed(s.skip(1))
    }
}

/// A wrapped command line without its wrapper.
pub open spec fn unwrapped_of(exec: Seq<char>) -> Seq<char> {
    let rest = text::trim_of(strip_all(exec, shell()));
    if rest.len() >= 2 && rest[0] == '"' && rest.last() == '"' {
        unslashed(rest.subrange(1, rest.len() - 1))
    } else {
        rest
    }
}

/// A command line run through a shell.
pub open spec fn wrapped_of(cmd: Seq<char>) -> Seq<char> {
    shell() + escape::exec_quote_of(cmd)
}

fn strip_shell(s: &str) -> (r: &str)
    ensures
        r@ == strip_all(s@, shell()),
{
    let n: usize = s.unicode_len();
    let mut at: usize = 0;
    proof {
        reveal_strlit("/bin/sh -c ");
    }
    assert(s@.skip(0) =~= s@);
    let mut cur = s;
    while text::starts_with(cur, "/bin/sh -c ")
        invariant
            n == s@.len(),
            at <= n,
            cur@ == s@.skip(at as int),
            shell().len() == 11,
            strip_all(s@, shell()) == strip_all(cur@, shell()),
        decreases n - at,
    {
        assert(cur@.len() >= 11);
        assert(cur@.skip(11) =~= s@.skip(at + 11));
        at += 11;
        assert(s@.subrange(at as int, n as int) =~= s@.skip(at as int));
        cur = s.substring_char(at, n);
    }
    cur
}

/// Turn `/bin/sh -c "cmd"` back into `cmd`.
pub fn unwrap_shell(exec: &str) -> (r: String)
    ensures
        r@ == unwrapped_of(exec@),
{
    let rest = text::trim(strip_shell(exec));
    let n: usize = rest.unicode_len();
    if n < 2 || rest.get_char(0) != '"' || rest.get_char(n - 1) != '"' {
        return rest.to_owned();
    }
    let inner = rest.substring_char(1, n - 1);
    let v = text::chars_of(inner);
    let mut out = String::new();
    let mut i: usize = 0;
    assert(v@.skip(0) =~= v@);
    assert(out@ + unslashed(v@) =~= unslashed(v@));
    while i < v.len()
        invariant
            i <= v@.len(),
            out@ + unslashed(v@.skip(i as int)) == unslashed(v@),
        decreases v@.len() - i,
    {
        let ghost before = out@;
        let ghost left = v@.skip(i as int);
        assert(left[0] == v@[i as int]);
        if v[i] == '\\' {
            if i + 1 < v.len() {
                assert(left[1] == v@[i + 1]);
                out.push(v[i + 1]);
                assert(left.skip(2) =~= v@.skip(i + 2));
                assert(before + (seq![left[1]] + unslashed(left.skip(2))) =~= out@ + unslashed(
                    left.skip(2),
                ));
                i += 2;
            } else {
                i += 1;
                assert(v@.skip(i as int).len() == 0);
            }
        } else {
            out.push(v[i]);
            assert(left.skip(1) =~= v@.skip(i + 1));
            assert(before + (seq![left[0]] + unslashed(left.skip(1))) =~= out@ + unslashed(
                left.skip(1),
            ));
            i += 1;
        }
    }
    assert(v@.skip(i as int).len() == 0);
    assert(out@ + seq![] =~= out@);
    out
}

proof fn lemma_unslashed_append(a: Seq<char>, b: Seq<char>, done: Seq<char>)
    requires
        a == escape::backslashed(done),
    ensures
        unslashed(a + b) == done + unslashed(b),
    decreases done.len(),
{
    if done.len() == 0 {
        assert(a + b =~= b);
        assert(done + unslashed(b) =~= unslashed(b));
    } else {
        let p = escape::backslashed(done.drop_last());
        let c = done.last();
        if c == '"' || c == '\\' {
            let tail = seq!['\\', c] + b;
            assert(a + b =~= p + tail);
            lemma_unslashed_append(p, tail, done.drop_last());
            assert(tail[0] == '\\' && tail[1] == c);
            assert(tail.skip(2) =~= b);
            assert(done.drop_last() + (seq![c] + unslashed(b)) =~= done + unslashed(b));
        } else {
            let tail = seq![c] + b;
            assert(a + b =~= p + tail);
            lemma_unslashed_append(p, tail, done.drop_last());
            assert(tail.skip(1) =~= b);
            assert(done.drop_last() + (seq![c] + unslashed(b)) =~= done + unslashed(b));
        }
    }
}

/// Wrapping a command and unwrapping it again gives the command back.
pub proof fn law_shell_round_trip(cmd: Seq<char>)
    ensures
        unwrapped_of(wrapped_of(cmd)) == cmd,
{
    reveal_strlit("/bin/sh -c ");
    let q = escape::exec_quote_of(cmd);
    let all = wrapped_of(cmd);
    let p = shell();
    assert(p.len() == 11);
    assert(p.is_prefix_of(all));
    assert(all.skip(11) =~= q);
    assert(p[7] == ' ' && p[0] == '/');
    assert(text::is_white(' '));
    assert forall|c: char| #[trigger] escape::is_bare(c) implies !text::is_white(c) by {}
    if cmd.len() > 0 && escape::all_bare(cmd) {
        if p.is_prefix_of(q) {
            assert(q[7] == p[7]);
            assert(escape::is_bare(q[7]));
        }
        assert(strip_all(q, p) == q);
        assert(escape::is_bare(q[0]) && escape::is_bare(q[q.len() - 1]));
        text::lemma_trim_tight(q);
        assert(q[0] != '"');
    } else {
        assert(q[0] == '"');
        assert(q.last() == '"');
        if p.is_prefix_of(q) {
            assert(q[0] == p[0]);
        }
        assert(strip_all(q, p) == q);
        assert(!text::is_white('"'));
        text::lemma_trim_tight(q);
        let inner = q.subrange(1, q.len() - 1);
        assert(inner =~= escape::backslashed(cmd));
        lemma_unslashed_append(inner, seq![], cmd);
        assert(inner + seq![] =~= inner);
        assert(cmd + unslashed(seq![]) =~= cmd);
    }
}

// ---------------------------------------------------------------------------
// Suggestions
// ---------------------------------------------------------------------------

/// A unit name derived from a command line, where there is none yet.
pub open spec fn suggested_name_of(current: Seq<char>, exec: Seq<char>) -> Option<Seq<char>> {
    if !text::is_blank(current) || templates::name_of(exec).len() == 0 {
        None
    } else {
        Some(templates::name_of(exec))
    }
}

/// A unit name derived from a command line, or `None` when the unit already
/// has one: something the user typed is never replaced.
pub fn suggested_name(current: &str, exec: &str) -> (r: Option<String>)
    ensures
        text::opt_text(r) == suggested_name_of(current@, exec@),
{
    if !text::blank(current) {
        return None;
    }
    let name = templates::suggest_name(exec);
    if name.as_str().unicode_len() == 0 {
        None
    } else {
        Some(name)
    }
}

/// A mount point derived from `What=`, where there is none yet.
pub open spec fn suggested_where_of(current: Seq<char>, what: Seq<char>) -> Option<Seq<char>> {
    if !text::is_blank(current) {
        None
    } else {
        templates::where_of(what)
    }
}

/// A mount point derived from `What=`, or `None` when one is already set.
pub fn suggested_where(current: &str, what: &str) -> (r: Option<String>)
    ensures
        text::opt_text(r) == suggested_where_of(current@, what@),
{
    if !text::blank(current) {
        return None;
    }
    templates::suggest_where(what)
}

// ---------------------------------------------------------------------------
// Completion
// ---------------------------------------------------------------------------

/// Where the last word of a text starts: behind its last white space.
pub open spec fn tail_start(s: Seq<char>) -> int
    decreases s.len(),
{
    if s.len() == 0 || text::is_white(s.last()) {
        s.len() as int
    } else {
        tail_start(s.drop_last())
    }
}

/// A completion with a text put before everything in it.
pub open spec fn headed(head: Seq<char>, c: CompletionView) -> CompletionView {
    CompletionView {
        candidates: Seq::new(c.candidates.len(), |i: int| head + c.candidates[i]),
        common: head + c.common,
    }
}

proof fn lemma_tail_start(s: Seq<char>)
    ensures
        0 <= tail_start(s) <= s.len(),
    decreases s.len(),
{
    if s.len() > 0 && !text::is_white(s.last()) {
        lemma_tail_start(s.drop_last());
    }
}

/// A text before and from its last word on.
pub fn split_tail(value: &str) -> (r: (String, String))
    ensures
        r.0@ == value@.take(tail_start(value@)),
        r.1@ == value@.skip(tail_start(value@)),
{
    let n: usize = value.unicode_len();
    let mut at: usize = n;
    assert(value@.take(n as int) =~= value@);
    while at > 0 && !text::white(value.get_char(at - 1))
        invariant
            at <= n == value@.len(),
            tail_start(value@) == tail_start(value@.take(at as int)),
        decreases at,
    {
        assert(value@.take(at as int).drop_last() =~= value@.take(at - 1));
        at -= 1;
    }
    assert(value@.subrange(0, at as int) =~= value@.take(at as int));
    assert(value@.subrange(at as int, n as int) =~= value@.skip(at as int));
    (value.substring_char(0, at).to_owned(), value.substring_char(at, n).to_owned())
}

/// Puts the untouched head of a field back on every candidate: a completion's
/// parts are full replacements for the field text.
pub fn complete_tail(head: &str, c: &Completion) -> (r: Completion)
    ensures
        r@ == headed(head@, c@),
{
    let ghost all = c@.candidates;
    let mut out: Vec<String> = Vec::new();
    let mut i: usize = 0;
    while i < c.candidates.len()
        invariant
            i <= c.candidates@.len(),
            all == text::texts(c.candidates@),
            out@.len() == i,
            forall|k: int| 0 <= k < i ==> (#[trigger] out@[k])@ == head@ + all[k],
        decreases c.candidates@.len() - i,
    {
        out.push(text::cat2(head, c.candidates[i].as_str()));
        i += 1;
    }
    assert(text::texts(out@) =~= headed(head@, c@).candidates);
    Completion { candidates: out, common: text::cat2(head, c.common.as_str()) }
}

/// Whether a text has white space in it.
pub open spec fn has_white(s: Seq<char>) -> bool {
    exists|i: int| 0 <= i < s.len() && text::is_white(#[trigger] s[i])
}

fn any_white(s: &str) -> (r: bool)
    ensures
        r == has_white(s@),
{
    let v = text::chars_of(s);
    let mut i: usize = 0;
    while i < v.len()
        invariant
            i <= v@.len(),
            v@ == s@,
            forall|k: int| 0 <= k < i ==> !text::is_white(#[trigger] s@[k]),
        decreases v@.len() - i,
    {
        if text::white(v[i]) {
            return true;
        }
        i += 1;
    }
    false
}

/// What completing an `Exec*=` line matches.
pub open spec fn exec_matches(value: Seq<char>, listing: Option<Vec<Listed>>) -> Seq<Seq<char>> {
    complete::listed_matches(
        value.skip(tail_start(value)),
        listing,
        false,
        !has_white(value),
    )
}

/// Completion for an `Exec*=` line, from what the directory of its last word
/// holds: the program must be executable, but an argument is just as likely
/// to be a path, so only the first word is filtered by the executable bit.
pub fn complete_exec(value: &str, listing: &Option<Vec<Listed>>) -> (r: Completion)
    ensures
        exists|c: CompletionView|
            #[trigger] complete::is_completion(
                c,
                exec_matches(value@, *listing),
                value@.skip(tail_start(value@)),
            ) && r@ == headed(value@.take(tail_start(value@)), c),
{
    let (head, tail) = split_tail(value);
    let c = if any_white(value) {
        complete::complete_path(tail.as_str(), false, listing)
    } else {
        complete::complete_executable(tail.as_str(), listing)
    };
    assert(complete::is_completion(
        c@,
        exec_matches(value@, *listing),
        value@.skip(tail_start(value@)),
    ));
    complete_tail(head.as_str(), &c)
}

/// Completing the last word leaves what stands before it alone.
pub proof fn law_completion_keeps_the_head(value: Seq<char>, c: CompletionView, i: int)
    requires
        0 <= i < c.candidates.len(),
    ensures
        value.take(tail_start(value)).is_prefix_of(
            headed(value.take(tail_start(value)), c).candidates[i],
        ),
        value.take(tail_start(value)).is_prefix_of(headed(value.take(tail_start(value)), c).common),
{
    lemma_tail_start(value);
}

// ---------------------------------------------------------------------------
// Install target
// ---------------------------------------------------------------------------

/// The `WantedBy=` a unit currently carries; nothing for bodies without one.
pub open spec fn wanted_by_of(u: UnitView) -> Seq<char> {
    match u.body {
        BodyView::Service(s) => s.wanted_by,
        _ => seq![],
    }
}

/// The `WantedBy=` a unit currently carries; empty for bodies that have none.
pub fn current_wanted_by(u: &Unit) -> (r: String)
    ensures
        r@ == wanted_by_of(u@),
{
    match &u.body {
        Body::Service(s) => s.wanted_by.clone(),
        _ => opt_or_empty(&None),
    }
}

/// Value and label for every target offered in a scope.
pub open spec fn choices_of(scope: Scope, current: Seq<char>) -> Seq<(Seq<char>, Seq<char>)> {
    Seq::new(scope.targets().len(), |i: int| (scope.targets()[i], scope.targets()[i])) + (
    if current.len() > 0 && !scope.targets().contains(current) {
        seq![(current, current + "   (no such target in "@ + scope.name() + " scope)"@)]
    } else {
        seq![]
    })
}

/// `(value, label)` for every target offerable in `scope`.
///
/// A target the unit already names but this scope does not provide is kept at
/// the end and flagged, rather than dropped: it is what the file on disk says
/// and hiding it would make the picker lie about the current value.
pub fn wanted_by_choices(scope: Scope, current: &str) -> (r: Vec<(String, String)>)
    ensures
        Seq::new(r@.len(), |i: int| (r@[i].0@, r@[i].1@)) == choices_of(scope, current@),
{
    let targets = scope.install_targets();
    let mut out: Vec<(String, String)> = Vec::new();
    let mut i: usize = 0;
    while i < targets.len()
        invariant
            i <= targets@.len() == scope.targets().len(),
            forall|k: int|
                0 <= k < targets@.len() ==> (#[trigger] targets@[k])@ == scope.targets()[k],
            out@.len() == i,
            forall|k: int|
                0 <= k < i ==> (#[trigger] out@[k]).0@ == scope.targets()[k] && out@[k].1@
                    == scope.targets()[k],
        decreases targets@.len() - i,
    {
        out.push((targets[i].to_owned(), targets[i].to_owned()));
        i += 1;
    }
    if current.unicode_len() > 0 && !scope.has_install_target(current) {
        let label = text::cat5(
            current,
            "   (no such target in ",
            scope.as_str(),
            " scope)",
            "",
        );
        proof {
            reveal_strlit("");
            assert(label@ =~= current@ + "   (no such target in "@ + scope.name() + " scope)"@);
        }
        out.push((current.to_owned(), label));
    }
    assert(Seq::new(out@.len(), |i: int| (out@[i].0@, out@[i].1@)) =~= choices_of(
        scope,
        current@,
    ));
    out
}

/// Every target offered before the flagged one is a target the manager has,
/// and the present value is always among those offered.
pub proof fn law_choices_hold_the_current(scope: Scope, current: Seq<char>)
    requires
        current.len() > 0,
    ensures
        exists|i: int|
            0 <= i < choices_of(scope, current).len() && (#[trigger] choices_of(
                scope,
                current,
            )[i]).0 == current,
        forall|i: int|
            0 <= i < scope.targets().len() ==> scope.targets().contains(
                (#[trigger] choices_of(scope, current)[i]).0,
            ),
{
    let all = choices_of(scope, current);
    if scope.targets().contains(current) {
        let i = choose|i: int| 0 <= i < scope.targets().len() && scope.targets()[i] == current;
        assert(all[i].0 == current);
    } else {
        assert(all[scope.targets().len() as int].0 == current);
    }
}

} // verus!
