//! What is asked of systemd and what its answers mean: unit directories,
//! command lines, the reading of `systemctl`, `journalctl` and
//! `systemd-analyze` output, and the grouping of unit files into entries.
//!
//! Running the commands and touching files is the caller's; every function
//! here works on what came back.

use crate::number;
use crate::order;
use crate::parts;
use crate::paths;
use crate::text;
use crate::trash::{StashRequest, TrashEntry};
use crate::unit::generate;
use crate::unit::generate::FileView;
use crate::unit::model::{Body, BodyView, ScheduleView, Scope, Unit, UnitView, MARKER};
use crate::unit::parse;
use crate::unit::parse::SourceFile;
use crate::unit::roundtrip;
use vstd::prelude::*;

verus! {

broadcast use vstd::string::group_string_axioms;

// ---------------------------------------------------------------------------
// Directories and command lines
// ---------------------------------------------------------------------------

/// Where units of a given scope live.
pub open spec fn unit_dir_of(scope: Scope, xdg: Option<Seq<char>>, home: Option<Seq<char>>) -> Seq<
    char,
> {
    match scope {
        Scope::System => "/etc/systemd/system"@,
        Scope::User => if xdg is Some && xdg->0.len() > 0 {
            paths::join_of(xdg->0, "systemd/user"@)
        } else {
            paths::join_of(
                match home {
                    Some(h) => h,
                    None => "."@,
                },
                ".config/systemd/user"@,
            )
        },
    }
}

/// Where units of a given scope live, with `$XDG_CONFIG_HOME` and `$HOME`.
pub fn unit_dir(scope: Scope, xdg: &Option<String>, home: &Option<String>) -> (r: String)
    ensures
        r@ == unit_dir_of(scope, text::opt_text(*xdg), text::opt_text(*home)),
{
    match scope {
        Scope::System => "/etc/systemd/system".to_owned(),
        Scope::User => {
            if let Some(x) = xdg {
                if !x.as_str().is_empty() {
                    return paths::join(x.as_str(), "systemd/user");
                }
            }
            match home {
                Some(h) => paths::join(h.as_str(), ".config/systemd/user"),
                None => paths::join(".", ".config/systemd/user"),
            }
        },
    }
}

/// Whether writes in a scope need elevation: only system scope does, and only
/// when not already root.
pub fn need_sudo(scope: Scope, root: bool) -> (r: bool)
    ensures
        r == (scope == Scope::System && !root),
{
    matches!(scope, Scope::System) && !root
}

/// What a command left behind.
#[derive(Debug)]
pub struct Outcome {
    pub success: bool,
    pub stdout: String,
    pub stderr: String,
}

/// The output of a command with its error output behind it, on a line of its
/// own.
pub open spec fn combined_of(stdout: Seq<char>, stderr: Seq<char>) -> Seq<char> {
    if text::is_blank(stderr) {
        stdout
    } else if stdout.len() > 0 && stdout.last() != '\n' {
        stdout.push('\n') + stderr
    } else {
        stdout + stderr
    }
}

/// Combined stdout and stderr of a command, regardless of exit status.
pub fn combined(out: &Outcome) -> (r: String)
    ensures
        r@ == combined_of(out.stdout@, out.stderr@),
{
    let mut s = out.stdout.clone();
    if !text::blank(out.stderr.as_str()) {
        let n: usize = s.as_str().unicode_len();
        if n > 0 && s.as_str().get_char(n - 1) != '\n' {
            s.push('\n');
        }
        s.push_str(out.stderr.as_str());
    }
    s
}

/// The command line that runs `program` in a scope.
pub open spec fn elevated(program: Seq<char>, sudo: bool) -> Seq<Seq<char>> {
    if sudo {
        seq!["sudo"@, "-n"@, program]
    } else {
        seq![program]
    }
}

fn push_all(out: &mut Vec<String>, args: &[String])
    ensures
        text::texts(final(out)@) == text::texts(old(out)@) + text::texts(args@),
{
    let ghost before = text::texts(out@);
    let ghost all = text::texts(args@);
    let mut i: usize = 0;
    assert(before + all.take(0) =~= before);
    while i < args.len()
        invariant
            i <= args@.len(),
            all == text::texts(args@),
            text::texts(out@) == before + all.take(i as int),
        decreases args@.len() - i,
    {
        let ghost now = text::texts(out@);
        out.push(args[i].clone());
        assert(text::texts(out@) =~= now.push(all[i as int]));
        assert(now.push(all[i as int]) =~= before + all.take(i + 1));
        i += 1;
    }
    assert(all.take(args@.len() as int) =~= all);
}

fn start_command(program: &str, sudo: bool) -> (r: Vec<String>)
    ensures
        text::texts(r@) == elevated(program@, sudo),
{
    let mut out: Vec<String> = Vec::new();
    if sudo {
        out.push("sudo".to_owned());
        out.push("-n".to_owned());
    }
    out.push(program.to_owned());
    assert(text::texts(out@) =~= elevated(program@, sudo));
    out
}

/// The command line of a `systemctl` call.
pub fn systemctl_command(scope: Scope, root: bool, args: &[String]) -> (r: Vec<String>)
    ensures
        text::texts(r@) == elevated("systemctl"@, scope == Scope::System && !root).push(
            match scope {
                Scope::User => "--user"@,
                Scope::System => "--system"@,
            },
        ) + text::texts(args@),
{
    let mut out = start_command("systemctl", need_sudo(scope, root));
    let ghost before = text::texts(out@);
    out.push(scope.flag().to_owned());
    assert(text::texts(out@) =~= before.push(
        match scope {
            Scope::User => "--user"@,
            Scope::System => "--system"@,
        },
    ));
    push_all(&mut out, args);
    out
}

/// What a `systemctl` call came to: the combined output, as an error where
/// the command failed.
pub fn systemctl(args: &[String], out: &Outcome) -> (r: Result<String, String>)
    ensures
        match r {
            Ok(s) => out.success && s@ == combined_of(out.stdout@, out.stderr@),
            Err(e) => !out.success && e@ == if text::is_blank(
                combined_of(out.stdout@, out.stderr@),
            ) {
                "systemctl "@ + parts::join_of(text::texts(args@), " "@) + " failed"@
            } else {
                combined_of(out.stdout@, out.stderr@)
            },
        },
{
    let all = combined(out);
    if out.success {
        Ok(all)
    } else if text::blank(all.as_str()) {
        let line = parts::join(args, " ");
        Err(text::cat3("systemctl ", line.as_str(), " failed"))
    } else {
        Err(all)
    }
}

/// Like [`systemctl`] but tolerates failure, returning the output either way.
/// Used for `status`, which exits non-zero for inactive units by design.
pub fn systemctl_lossy(args: &[String], out: &Outcome) -> (r: String)
    ensures
        r@ == if !out.success && text::is_blank(combined_of(out.stdout@, out.stderr@)) {
            "systemctl "@ + parts::join_of(text::texts(args@), " "@) + " failed"@
        } else {
            combined_of(out.stdout@, out.stderr@)
        },
{
    match systemctl(args, out) {
        Ok(s) => s,
        Err(s) => s,
    }
}

/// Whether a unit is enabled, by the word `is-enabled` printed. It exits
/// non-zero for every state that is not "enabled", so the exit status is not
/// the answer. `enabled-runtime` counts, since the unit really is wired up.
pub fn is_enabled(printed: &str) -> (r: bool)
    ensures
        r == (text::trim_of(printed@) == "enabled"@ || text::trim_of(printed@)
            == "enabled-runtime"@),
{
    let t = text::trim(printed);
    text::same(t, "enabled") || text::same(t, "enabled-runtime")
}

/// Whether a unit is currently running, by the word `is-active` printed.
pub fn is_active(printed: &str) -> (r: bool)
    ensures
        r == (text::trim_of(printed@) == "active"@ || text::trim_of(printed@) == "activating"@
            || text::trim_of(printed@) == "reloading"@),
{
    let t = text::trim(printed);
    text::same(t, "active") || text::same(t, "activating") || text::same(t, "reloading")
}

/// The arguments that pick a unit's journal. Only the user flag is passed:
/// the system journal is the default.
pub open spec fn journal_args_of(scope: Scope, unit: Seq<char>, lines: nat) -> Seq<Seq<char>> {
    let tail = seq!["--no-pager"@, "-n"@, number::decimal(lines), "-u"@, unit];
    if scope == Scope::User {
        seq!["--user"@] + tail
    } else {
        tail
    }
}

/// The command line that prints a unit's recent journal entries.
pub fn journal_command(scope: Scope, root: bool, unit: &str, lines: usize) -> (r: Vec<String>)
    ensures
        text::texts(r@) == elevated("journalctl"@, scope == Scope::System && !root)
            + journal_args_of(scope, unit@, lines as nat),
{
    let mut out = start_command("journalctl", need_sudo(scope, root));
    let ghost before = text::texts(out@);
    if let Scope::User = scope {
        out.push("--user".to_owned());
    }
    out.push("--no-pager".to_owned());
    out.push("-n".to_owned());
    out.push(number::usize_decimal(lines));
    out.push("-u".to_owned());
    out.push(unit.to_owned());
    assert(text::texts(out@) =~= before + journal_args_of(scope, unit@, lines as nat));
    out
}

/// Recent journal entries, from what the command left or why it could not be
/// run.
pub fn journal(ran: &Result<Outcome, String>) -> (r: String)
    ensures
        r@ == match *ran {
            Ok(out) => if text::is_blank(combined_of(out.stdout@, out.stderr@)) {
                "(no journal entries)"@
            } else {
                combined_of(out.stdout@, out.stderr@)
            },
            Err(e) => e@,
        },
{
    match ran {
        Ok(out) => {
            let all = combined(out);
            if text::blank(all.as_str()) {
                "(no journal entries)".to_owned()
            } else {
                all
            }
        },
        Err(e) => e.clone(),
    }
}

/// Why systemd refused a spec: its own words, or a sentence of ours.
pub open spec fn refusal_of(spec: Seq<char>, stdout: Seq<char>, stderr: Seq<char>) -> Seq<char> {
    let all = combined_of(stdout, stderr);
    if text::is_blank(all) {
        "systemd rejected the calendar spec '"@ + spec + "'"@
    } else {
        text::trim_of(all)
    }
}

fn refusal(spec: &str, out: &Outcome) -> (r: String)
    ensures
        r@ == refusal_of(spec@, out.stdout@, out.stderr@),
{
    let all = combined(out);
    if text::blank(all.as_str()) {
        text::cat3("systemd rejected the calendar spec '", spec, "'")
    } else {
        text::trim(all.as_str()).to_owned()
    }
}

/// What the first line that gives the next elapse says.
pub open spec fn next_elapse_of(lines: Seq<Seq<char>>) -> Option<Seq<char>>
    decreases lines.len(),
{
    if lines.len() == 0 {
        None
    } else {
        match text::after_prefix(text::trim_of(lines[0]), "Next elapse:"@) {
            Some(s) => Some(text::trim_of(s)),
            None => next_elapse_of(lines.skip(1)),
        }
    }
}

/// Validate an `OnCalendar=` spec by what `systemd-analyze calendar` left.
/// On success returns the next elapse, if systemd reported one. Without
/// `systemd-analyze` (`None`) the spec is accepted.
pub fn check_calendar(spec: &str, out: &Option<Outcome>) -> (r: Result<Option<String>, String>)
    ensures
        match *out {
            None => r == Ok::<Option<String>, String>(None),
            Some(o) => if o.success {
                r is Ok && text::opt_text(r->Ok_0) == next_elapse_of(parts::lines_of(o.stdout@))
            } else {
                r is Err && r->Err_0@ == refusal_of(spec@, o.stdout@, o.stderr@)
            },
        },
{
    match out {
        None => Ok(None),
        Some(o) => {
            if !o.success {
                return Err(refusal(spec, o));
            }
            let lines = parts::lines(o.stdout.as_str());
            let ghost all = text::texts(lines@);
            let mut i: usize = 0;
            assert(all.skip(0) =~= all);
            while i < lines.len()
                invariant
                    i <= lines@.len(),
                    all == text::texts(lines@),
                    all == parts::lines_of(o.stdout@),
                    o.success,
                    *out == Some(*o),
                    next_elapse_of(all) == next_elapse_of(all.skip(i as int)),
                decreases lines@.len() - i,
            {
                assert(all.skip(i as int)[0] == lines@[i as int]@);
                if let Some(s) = text::strip_prefix(text::trim(lines[i].as_str()), "Next elapse:") {
                    return Ok(Some(text::trim(s).to_owned()));
                }
                assert(all.skip(i as int).skip(1) =~= all.skip(i + 1));
                i += 1;
            }
            Ok(None)
        },
    }
}

/// Validate a time span such as `15min` or `90s` by what
/// `systemd-analyze timespan` left; without it the span is accepted.
pub fn check_timespan(spec: &str, out: &Option<Outcome>) -> (r: Result<(), String>)
    ensures
        match r {
            Ok(_) => *out is None || out->0.success,
            Err(e) => *out is Some && !out->0.success && e@ == "'"@ + spec@
                + "' is not a valid time span"@,
        },
{
    match out {
        None => Ok(()),
        Some(o) => if o.success {
            Ok(())
        } else {
            Err(text::cat3("'", spec, "' is not a valid time span"))
        },
    }
}

// ---------------------------------------------------------------------------
// Next-run preview
// ---------------------------------------------------------------------------

/// One future firing of a calendar spec, as reported by `systemd-analyze`.
#[derive(Debug, PartialEq, Eq)]
pub struct NextRun {
    /// The elapse in the local timezone, e.g. `Mon 2026-08-17 03:00:00 CEST`.
    pub local: String,
    /// The same instant in UTC, e.g. `Mon 2026-08-17 01:00:00 UTC`. Empty if
    /// systemd did not print it (it omits the line when TZ is already UTC).
    pub utc: String,
    /// Relative form, e.g. `1 day 23h left`. Empty if not reported.
    pub from_now: String,
}

/// The contents of a [`NextRun`].
#[verifier::ext_equal]
pub struct RunView {
    pub local: Seq<char>,
    pub utc: Seq<char>,
    pub from_now: Seq<char>,
}

impl View for NextRun {
    type V = RunView;

    open spec fn view(&self) -> RunView {
        RunView { local: self.local@, utc: self.utc@, from_now: self.from_now@ }
    }
}

impl Clone for NextRun {
    fn clone(&self) -> (r: NextRun)
        ensures
            r@ == self@,
    {
        NextRun {
            local: self.local.clone(),
            utc: self.utc.clone(),
            from_now: self.from_now.clone(),
        }
    }
}

/// The contents of a list of firings.
pub open spec fn run_views(v: Seq<NextRun>) -> Seq<RunView> {
    Seq::new(v.len(), |i: int| v[i]@)
}

impl RunView {
    /// The part of the elapse that orders firings: what stands between its
    /// first and its last blank.
    pub open spec fn key(self) -> Seq<char> {
        let src = if self.utc.len() == 0 {
            self.local
        } else {
            self.utc
        };
        let rest = match parts::split_once_of(src, ' ') {
            Some((_, r)) => r,
            None => src,
        };
        match parts::rsplit_once_of(rest, ' ') {
            Some((l, _)) => l,
            None => rest,
        }
    }

    /// Whether a firing comes before another one.
    pub open spec fn is_before(self, other: RunView) -> bool {
        text::less_of(self.key(), other.key()) || (self.key() == other.key() && text::less_of(
            self.local,
            other.local,
        ))
    }
}

impl NextRun {
    /// A lexicographically sortable `YYYY-MM-DD HH:MM:SS` key.
    ///
    /// Derived from the UTC line so that specs in different timezones (and
    /// firings either side of a DST change) still order correctly; falls back
    /// to the local line when systemd printed no UTC form.
    pub fn sort_key(&self) -> (r: &str)
        ensures
            r@ == self@.key(),
    {
        let src = if self.utc.as_str().is_empty() {
            self.local.as_str()
        } else {
            self.utc.as_str()
        };
        let rest = match parts::split_once(src, ' ') {
            Some((_, r)) => r,
            None => src,
        };
        match parts::rsplit_once(rest, ' ') {
            Some((l, _)) => l,
            None => rest,
        }
    }

    fn comes_before(&self, other: &NextRun) -> (r: bool)
        ensures
            r == self@.is_before(other@),
    {
        text::less(self.sort_key(), other.sort_key()) || (text::same(
            self.sort_key(),
            other.sort_key(),
        ) && text::less(self.local.as_str(), other.local.as_str()))
    }
}

/// Why a next-run preview could not be produced.
#[derive(Debug, PartialEq, Eq)]
pub enum PreviewError {
    /// `systemd-analyze` is not installed or could not be executed. The
    /// caller should degrade gracefully rather than treat this as a mistake
    /// by the user.
    Unavailable,
    /// systemd rejected the spec; the string is its own message.
    Invalid(String),
}

impl PreviewError {
    pub fn to_string(&self) -> (r: String)
        ensures
            r@ == match *self {
                PreviewError::Unavailable => "systemd-analyze is not available"@,
                PreviewError::Invalid(m) => m@,
            },
    {
        match self {
            PreviewError::Unavailable => "systemd-analyze is not available".to_owned(),
            PreviewError::Invalid(m) => m.clone(),
        }
    }
}

impl Clone for PreviewError {
    fn clone(&self) -> (r: PreviewError)
        ensures
            match (*self, r) {
                (PreviewError::Unavailable, PreviewError::Unavailable) => true,
                (PreviewError::Invalid(a), PreviewError::Invalid(b)) => a@ == b@,
                _ => false,
            },
    {
        match self {
            PreviewError::Unavailable => PreviewError::Unavailable,
            PreviewError::Invalid(m) => PreviewError::Invalid(m.clone()),
        }
    }
}

/// The firings known after one more line.
pub open spec fn after_line(runs: Seq<RunView>, line: Seq<char>) -> Seq<RunView> {
    match parts::split_once_of(text::trim_of(line), ':') {
        None => runs,
        Some((k, v)) => {
            let key = text::trim_of(k);
            let value = text::trim_of(v);
            if key == "Next elapse"@ || "Iteration #"@.is_prefix_of(key) {
                if value.len() == 0 || text::lower_text(value) == "never"@ {
                    runs
                } else {
                    runs.push(RunView { local: value, utc: seq![], from_now: seq![] })
                }
            } else if key == "(in UTC)"@ && runs.len() > 0 {
                runs.update(runs.len() - 1, RunView { utc: value, ..runs.last() })
            } else if key == "From now"@ && runs.len() > 0 {
                runs.update(runs.len() - 1, RunView { from_now: value, ..runs.last() })
            } else {
                runs
            }
        },
    }
}

/// The firings that some lines give.
pub open spec fn iterations_of(lines: Seq<Seq<char>>) -> Seq<RunView>
    decreases lines.len(),
{
    if lines.len() == 0 {
        seq![]
    } else {
        after_line(iterations_of(lines.drop_last()), lines.last())
    }
}

fn read_line(runs: &mut Vec<NextRun>, line: &str)
    ensures
        run_views(final(runs)@) == after_line(run_views(old(runs)@), line@),
{
    let ghost before = run_views(runs@);
    let n: usize = runs.len();
    let (k, v) = match parts::split_once(text::trim(line), ':') {
        Some(p) => p,
        None => {
            return ;
        },
    };
    let key = text::trim(k);
    let value = text::trim(v);
    if text::same(key, "Next elapse") || text::starts_with(key, "Iteration #") {
        let low = text::to_lower(value);
        if value.is_empty() || text::same(low.as_str(), "never") {
            return ;
        }
        let run = NextRun {
            local: value.to_owned(),
            utc: String::new(),
            from_now: String::new(),
        };
        runs.push(run);
        assert(run_views(runs@) =~= before.push(
            RunView { local: value@, utc: seq![], from_now: seq![] },
        ));
    } else if text::same(key, "(in UTC)") && n > 0 {
        let mut last = runs[n - 1].clone();
        last.utc = value.to_owned();
        let ghost want = RunView { utc: value@, ..before.last() };
        assert(last@ == want);
        runs.set(n - 1, last);
        assert(run_views(runs@) =~= before.update(n - 1, want));
    } else if text::same(key, "From now") && n > 0 {
        let mut last = runs[n - 1].clone();
        last.from_now = value.to_owned();
        let ghost want = RunView { from_now: value@, ..before.last() };
        assert(last@ == want);
        runs.set(n - 1, last);
        assert(run_views(runs@) =~= before.update(n - 1, want));
    }
}

/// Pull the elapse list out of `systemd-analyze calendar --iterations=N`
/// output.
///
/// The shape read is:
///
/// ```text
/// Normalized form: Mon *-*-* 03:00:00
///     Next elapse: Mon 2026-08-17 03:00:00 CEST
///        (in UTC): Mon 2026-08-17 01:00:00 UTC
///        From now: 1 day 23h left
///    Iteration #2: Mon 2026-08-24 03:00:00 CEST
///        ...
/// ```
///
/// `Next elapse: never` (a spec that can no longer fire) yields no entries.
pub fn parse_iterations(output: &str) -> (r: Vec<NextRun>)
    ensures
        run_views(r@) == iterations_of(parts::lines_of(output@)),
{
    let lines = parts::lines(output);
    let ghost all = text::texts(lines@);
    let mut runs: Vec<NextRun> = Vec::new();
    let mut i: usize = 0;
    assert(all.take(0) =~= seq![]);
    assert(run_views(runs@) =~= seq![]);
    while i < lines.len()
        invariant
            i <= lines@.len(),
            all == text::texts(lines@),
            run_views(runs@) == iterations_of(all.take(i as int)),
        decreases lines@.len() - i,
    {
        proof {
            assert(all.take(i + 1).drop_last() =~= all.take(i as int));
            assert(all.take(i + 1).last() == lines@[i as int]@);
        }
        read_line(&mut runs, lines[i].as_str());
        i += 1;
    }
    assert(all.take(lines@.len() as int) =~= all);
    runs
}

/// The number of firings to ask for: at least one.
pub open spec fn at_least_one(count: usize) -> nat {
    if count == 0 {
        1
    } else {
        count as nat
    }
}

/// The command line that asks for the next firings of a spec.
pub fn next_runs_command(spec: &str, count: usize) -> (r: Vec<String>)
    ensures
        text::texts(r@) == seq![
            "systemd-analyze"@,
            "calendar"@,
            "--iterations="@ + number::decimal(at_least_one(count)),
            spec@,
        ],
{
    let n: usize = if count == 0 {
        1
    } else {
        count
    };
    let digits = number::usize_decimal(n);
    let r = vec![
        "systemd-analyze".to_owned(),
        "calendar".to_owned(),
        text::cat2("--iterations=", digits.as_str()),
        spec.to_owned(),
    ];
    assert(text::texts(r@) =~= seq![
        "systemd-analyze"@,
        "calendar"@,
        "--iterations="@ + number::decimal(at_least_one(count)),
        spec@,
    ]);
    r
}

/// The next firings of a single `OnCalendar=` spec, from what the command
/// left; `None` where it could not be run.
pub fn next_runs(spec: &str, out: &Option<Outcome>) -> (r: Result<Vec<NextRun>, PreviewError>)
    ensures
        match *out {
            None => r is Err && r->Err_0 is Unavailable,
            Some(o) => if o.success {
                r is Ok && run_views(r->Ok_0@) == iterations_of(parts::lines_of(o.stdout@))
            } else {
                &&& r is Err
                &&& r->Err_0 matches PreviewError::Invalid(m)
                &&& m@ == refusal_of(spec@, o.stdout@, o.stderr@)
            },
        },
{
    match out {
        None => Err(PreviewError::Unavailable),
        Some(o) => if o.success {
            Ok(parse_iterations(o.stdout.as_str()))
        } else {
            Err(PreviewError::Invalid(refusal(spec, o)))
        },
    }
}

/// The specs that are not blank.
pub open spec fn live_of(specs: Seq<Seq<char>>) -> Seq<Seq<char>>
    decreases specs.len(),
{
    if specs.len() == 0 {
        seq![]
    } else if text::is_blank(specs.last()) {
        live_of(specs.drop_last())
    } else {
        live_of(specs.drop_last()).push(specs.last())
    }
}

/// The specs that a preview asks about: those that are not blank.
pub fn live_specs(specs: &[String]) -> (r: Vec<String>)
    ensures
        text::texts(r@) == live_of(text::texts(specs@)),
{
    let ghost all = text::texts(specs@);
    let mut out: Vec<String> = Vec::new();
    let mut i: usize = 0;
    assert(all.take(0) =~= seq![]);
    assert(text::texts(out@) =~= seq![]);
    while i < specs.len()
        invariant
            i <= specs@.len(),
            all == text::texts(specs@),
            text::texts(out@) == live_of(all.take(i as int)),
        decreases specs@.len() - i,
    {
        proof {
            assert(all.take(i + 1).drop_last() =~= all.take(i as int));
            assert(all.take(i + 1).last() == specs@[i as int]@);
        }
        if !text::blank(specs[i].as_str()) {
            let ghost before = text::texts(out@);
            out.push(specs[i].clone());
            assert(text::texts(out@) =~= before.push(specs@[i as int]@));
        }
        i += 1;
    }
    assert(all.take(specs@.len() as int) =~= all);
    out
}

/// `s` with `x` put before the first firing that it comes before.
pub open spec fn insert_run_of(s: Seq<RunView>, x: RunView) -> Seq<RunView>
    decreases s.len(),
{
    if s.len() == 0 {
        seq![x]
    } else if x.is_before(s[0]) {
        seq![x] + s
    } else {
        seq![s[0]] + insert_run_of(s.skip(1), x)
    }
}

/// The firings in order; those of one instant keep their order.
pub open spec fn sorted_runs_of(s: Seq<RunView>) -> Seq<RunView>
    decreases s.len(),
{
    if s.len() == 0 {
        seq![]
    } else {
        insert_run_of(sorted_runs_of(s.drop_last()), s.last())
    }
}

/// The firings without those whose local time is that of the one before.
pub open spec fn distinct_runs_of(s: Seq<RunView>) -> Seq<RunView>
    decreases s.len(),
{
    if s.len() == 0 {
        seq![]
    } else {
        let d = distinct_runs_of(s.drop_last());
        if d.len() > 0 && d.last().local == s.last().local {
            d
        } else {
            d.push(s.last())
        }
    }
}

/// The first `count` firings of the union of some specs' firings.
pub open spec fn merged_of(all: Seq<RunView>, count: usize) -> Seq<RunView> {
    let d = distinct_runs_of(sorted_runs_of(all));
    if d.len() > at_least_one(count) {
        d.take(at_least_one(count) as int)
    } else {
        d
    }
}

proof fn lemma_insert_run_at(s: Seq<RunView>, x: RunView, i: int)
    requires
        0 <= i <= s.len(),
        forall|j: int| 0 <= j < i ==> !x.is_before(#[trigger] s[j]),
        i < s.len() ==> x.is_before(s[i]),
    ensures
        insert_run_of(s, x) == s.insert(i, x),
    decreases i,
{
    if i == 0 {
        if s.len() > 0 {
            assert(seq![x] + s =~= s.insert(0, x));
        } else {
            assert(seq![x] =~= s.insert(0, x));
        }
    } else {
        let t = s.skip(1);
        assert forall|j: int| 0 <= j < i - 1 implies !x.is_before(#[trigger] t[j]) by {
            assert(t[j] == s[j + 1]);
        }
        lemma_insert_run_at(t, x, i - 1);
        assert(seq![s[0]] + t.insert(i - 1, x) =~= s.insert(i, x));
    }
}

fn insert_run(v: &mut Vec<NextRun>, x: NextRun)
    ensures
        run_views(final(v)@) == insert_run_of(run_views(old(v)@), x@),
{
    let ghost all = run_views(v@);
    let n: usize = v.len();
    let mut i: usize = 0;
    while i < n && !x.comes_before(&v[i])
        invariant
            n == v@.len(),
            i <= n,
            all == run_views(v@),
            forall|j: int| 0 <= j < i ==> !x@.is_before(#[trigger] all[j]),
        decreases n - i,
    {
        assert(all[i as int] == v@[i as int]@);
        i += 1;
    }
    proof {
        if i < n {
            assert(all[i as int] == v@[i as int]@);
        }
        lemma_insert_run_at(all, x@, i as int);
    }
    let ghost want = all.insert(i as int, x@);
    v.insert(i, x);
    assert(run_views(v@) =~= want);
}

/// The first `count` firings of the union: in order, each local time once.
fn merge_runs(all: &[NextRun], count: usize) -> (r: Vec<NextRun>)
    ensures
        run_views(r@) == merged_of(run_views(all@), count),
{
    let ghost views = run_views(all@);
    let mut sorted: Vec<NextRun> = Vec::new();
    let mut i: usize = 0;
    assert(views.take(0) =~= seq![]);
    assert(run_views(sorted@) =~= seq![]);
    while i < all.len()
        invariant
            i <= all@.len(),
            views == run_views(all@),
            run_views(sorted@) == sorted_runs_of(views.take(i as int)),
        decreases all@.len() - i,
    {
        proof {
            assert(views.take(i + 1).drop_last() =~= views.take(i as int));
            assert(views.take(i + 1).last() == all@[i as int]@);
        }
        insert_run(&mut sorted, all[i].clone());
        i += 1;
    }
    assert(views.take(all@.len() as int) =~= views);
    let ghost ordered = run_views(sorted@);
    let mut out: Vec<NextRun> = Vec::new();
    let mut k: usize = 0;
    assert(ordered.take(0) =~= seq![]);
    assert(run_views(out@) =~= seq![]);
    while k < sorted.len()
        invariant
            k <= sorted@.len(),
            ordered == run_views(sorted@),
            run_views(out@) == distinct_runs_of(ordered.take(k as int)),
        decreases sorted@.len() - k,
    {
        proof {
            assert(ordered.take(k + 1).drop_last() =~= ordered.take(k as int));
            assert(ordered.take(k + 1).last() == sorted@[k as int]@);
        }
        let n: usize = out.len();
        let repeated = n > 0 && text::same(out[n - 1].local.as_str(), sorted[k].local.as_str());
        assert(n > 0 ==> run_views(out@).last() == out@[n - 1]@);
        if !repeated {
            let ghost before = run_views(out@);
            out.push(sorted[k].clone());
            assert(run_views(out@) =~= before.push(sorted@[k as int]@));
        }
        k += 1;
    }
    assert(ordered.take(sorted@.len() as int) =~= ordered);
    let limit: usize = if count == 0 {
        1
    } else {
        count
    };
    if out.len() > limit {
        let ghost before = run_views(out@);
        out.truncate(limit);
        assert(run_views(out@) =~= before.take(limit as int));
    }
    out
}

/// The firings of some specs one after the other, up to the first spec
/// without any.
pub open spec fn union_of(found: Seq<Result<Vec<NextRun>, PreviewError>>) -> Seq<RunView>
    decreases found.len(),
{
    if found.len() == 0 {
        seq![]
    } else {
        union_of(found.drop_last()) + run_views(found.last()->Ok_0@)
    }
}

/// Whether `e` is the error of the first spec that was refused.
pub open spec fn is_first_refusal(
    found: Seq<Result<Vec<NextRun>, PreviewError>>,
    e: PreviewError,
) -> bool {
    exists|i: int|
        0 <= i < found.len() && (forall|j: int| 0 <= j < i ==> (#[trigger] found[j]) is Ok)
            && #[trigger] found[i] is Err && same_error(found[i]->Err_0, e)
}

/// Whether two errors say the same.
pub open spec fn same_error(a: PreviewError, b: PreviewError) -> bool {
    match (a, b) {
        (PreviewError::Unavailable, PreviewError::Unavailable) => true,
        (PreviewError::Invalid(x), PreviewError::Invalid(y)) => x@ == y@,
        _ => false,
    }
}

/// The next `count` firings of a whole schedule, from what was found for each
/// of its specs.
///
/// A timer may carry several `OnCalendar=` lines and systemd fires on their
/// **union**, so the per-spec results are merged, sorted by absolute time,
/// deduplicated (two specs can name the same instant) and truncated back to
/// `count` -- which is what the timer will actually do.
///
/// Any single invalid spec fails the whole preview, since that is what
/// systemd will complain about at load time too.
pub fn next_runs_multi(found: &[Result<Vec<NextRun>, PreviewError>], count: usize) -> (r: Result<
    Vec<NextRun>,
    PreviewError,
>)
    ensures
        match r {
            Ok(v) => (forall|i: int| 0 <= i < found@.len() ==> (#[trigger] found@[i]) is Ok)
                && run_views(v@) == merged_of(union_of(found@), count),
            Err(e) => is_first_refusal(found@, e),
        },
{
    let mut all: Vec<NextRun> = Vec::new();
    let mut i: usize = 0;
    assert(found@.take(0) =~= seq![]);
    assert(run_views(all@) =~= seq![]);
    while i < found.len()
        invariant
            i <= found@.len(),
            forall|j: int| 0 <= j < i ==> (#[trigger] found@[j]) is Ok,
            run_views(all@) == union_of(found@.take(i as int)),
        decreases found@.len() - i,
    {
        proof {
            assert(found@.take(i + 1).drop_last() =~= found@.take(i as int));
            assert(found@.take(i + 1).last() == found@[i as int]);
        }
        match &found[i] {
            Err(e) => {
                assert(found@[i as int] is Err);
                let e = e.clone();
                assert(is_first_refusal(found@, e));
                return Err(e);
            },
            Ok(runs) => {
                let ghost before = run_views(all@);
                let ghost more = run_views(runs@);
                let mut k: usize = 0;
                assert(before + more.take(0) =~= before);
                while k < runs.len()
                    invariant
                        k <= runs@.len(),
                        more == run_views(runs@),
                        run_views(all@) == before + more.take(k as int),
                    decreases runs@.len() - k,
                {
                    let ghost now = run_views(all@);
                    all.push(runs[k].clone());
                    assert(run_views(all@) =~= now.push(more[k as int]));
                    assert(now.push(more[k as int]) =~= before + more.take(k + 1));
                    k += 1;
                }
                assert(more.take(runs@.len() as int) =~= more);
            },
        }
        i += 1;
    }
    assert(found@.take(found@.len() as int) =~= found@);
    Ok(merge_runs(&all, count))
}

// ---------------------------------------------------------------------------
// What a preview promises
// ---------------------------------------------------------------------------

/// Whether no firing comes before one that stands in front of it.
pub open spec fn in_order(s: Seq<RunView>) -> bool {
    forall|i: int, j: int|
        0 <= i < j < s.len() ==> !(#[trigger] s[j]).is_before(#[trigger] s[i])
}

proof fn lemma_before_transitive(a: RunView, b: RunView, c: RunView)
    requires
        !b.is_before(a),
        !c.is_before(b),
    ensures
        !c.is_before(a),
{
    text::lemma_less_total(a.key(), b.key());
    text::lemma_less_total(b.key(), c.key());
    text::lemma_less_total(c.key(), a.key());
    text::lemma_less_total(a.local, b.local);
    text::lemma_less_total(b.local, c.local);
    text::lemma_less_total(c.local, a.local);
    if c.is_before(a) {
        if text::less_of(a.key(), b.key()) && text::less_of(b.key(), c.key()) {
            text::lemma_less_transitive(a.key(), b.key(), c.key());
        }
        if text::less_of(a.local, b.local) && text::less_of(b.local, c.local) {
            text::lemma_less_transitive(a.local, b.local, c.local);
        }
    }
}

proof fn lemma_insert_in_order(s: Seq<RunView>, x: RunView)
    requires
        in_order(s),
    ensures
        in_order(insert_run_of(s, x)),
        insert_run_of(s, x).to_multiset() == s.to_multiset().insert(x),
        forall|i: int|
            0 <= i < insert_run_of(s, x).len() ==> #[trigger] insert_run_of(s, x)[i] == x
                || s.contains(insert_run_of(s, x)[i]),
    decreases s.len(),
{
    broadcast use vstd::seq_lib::group_to_multiset_ensures;

    let r = insert_run_of(s, x);
    if s.len() == 0 {
        assert(r =~= s.push(x));
    } else if x.is_before(s[0]) {
        text::lemma_less_total(x.key(), s[0].key());
        text::lemma_less_total(x.local, s[0].local);
        assert(r =~= s.insert(0, x));
        assert forall|i: int, j: int| 0 <= i < j < r.len() implies !(#[trigger] r[j]).is_before(
            #[trigger] r[i],
        ) by {
            assert(r[j] == s[j - 1]);
            if i == 0 {
                if j > 1 {
                    lemma_before_transitive(x, s[0], s[j - 1]);
                }
            } else {
                assert(r[i] == s[i - 1]);
            }
        }
        assert forall|i: int| 0 <= i < r.len() implies #[trigger] r[i] == x || s.contains(r[i]) by {
            if i > 0 {
                assert(r[i] == s[i - 1]);
            }
        }
        vstd::seq_lib::to_multiset_insert(s, 0, x);
    } else {
        let t = s.skip(1);
        assert forall|i: int, j: int| 0 <= i < j < t.len() implies !(#[trigger] t[j]).is_before(
            #[trigger] t[i],
        ) by {
            assert(t[i] == s[i + 1] && t[j] == s[j + 1]);
        }
        lemma_insert_in_order(t, x);
        let u = insert_run_of(t, x);
        assert forall|i: int| 0 <= i < u.len() implies !(#[trigger] u[i]).is_before(s[0]) by {
            if u[i] != x {
                let k = choose|k: int| 0 <= k < t.len() && t[k] == u[i];
                assert(t[k] == s[k + 1]);
            }
        }
        assert forall|i: int, j: int| 0 <= i < j < r.len() implies !(#[trigger] r[j]).is_before(
            #[trigger] r[i],
        ) by {
            assert(r[j] == u[j - 1]);
            if i > 0 {
                assert(r[i] == u[i - 1]);
            }
        }
        assert forall|i: int| 0 <= i < r.len() implies #[trigger] r[i] == x || s.contains(r[i]) by {
            if i > 0 {
                assert(r[i] == u[i - 1]);
                if u[i - 1] != x {
                    let k = choose|k: int| 0 <= k < t.len() && t[k] == u[i - 1];
                    assert(s[k + 1] == r[i]);
                }
            } else {
                assert(s[0] == r[0]);
            }
        }
        assert(s =~= t.insert(0, s[0]));
        assert(r =~= u.insert(0, s[0]));
        vstd::seq_lib::to_multiset_insert(t, 0, s[0]);
        vstd::seq_lib::to_multiset_insert(u, 0, s[0]);
        assert(r.to_multiset() =~= s.to_multiset().insert(x));
    }
}

/// Sorting keeps every firing and puts none before an earlier one.
pub proof fn law_sorted_runs(s: Seq<RunView>)
    ensures
        in_order(sorted_runs_of(s)),
        sorted_runs_of(s).to_multiset() == s.to_multiset(),
    decreases s.len(),
{
    broadcast use vstd::seq_lib::group_to_multiset_ensures;

    if s.len() > 0 {
        law_sorted_runs(s.drop_last());
        lemma_insert_in_order(sorted_runs_of(s.drop_last()), s.last());
        assert(s =~= s.drop_last().push(s.last()));
    } else {
        assert(sorted_runs_of(s) =~= s);
    }
}

proof fn lemma_distinct(s: Seq<RunView>)
    requires
        in_order(s),
    ensures
        in_order(distinct_runs_of(s)),
        distinct_runs_of(s).len() <= s.len(),
        s.len() > 0 ==> distinct_runs_of(s).len() > 0 && distinct_runs_of(s).last().local
            == s.last().local,
        forall|i: int|
            0 <= i < distinct_runs_of(s).len() - 1 ==> (#[trigger] distinct_runs_of(s)[i]).local
                != distinct_runs_of(s)[i + 1].local,
        forall|i: int|
            0 <= i < distinct_runs_of(s).len() ==> s.contains(#[trigger] distinct_runs_of(s)[i]),
    decreases s.len(),
{
    if s.len() > 0 {
        let p = s.drop_last();
        assert forall|i: int, j: int| 0 <= i < j < p.len() implies !(#[trigger] p[j]).is_before(
            #[trigger] p[i],
        ) by {
            assert(p[i] == s[i] && p[j] == s[j]);
        }
        lemma_distinct(p);
        let d = distinct_runs_of(p);
        let r = distinct_runs_of(s);
        assert forall|i: int| 0 <= i < d.len() implies s.contains(#[trigger] d[i]) by {
            let k = choose|k: int| 0 <= k < p.len() && p[k] == d[i];
            assert(s[k] == d[i]);
        }
        assert(s.contains(s.last())) by {
            assert(s[s.len() - 1] == s.last());
        }
        assert forall|i: int| 0 <= i < r.len() implies s.contains(#[trigger] r[i]) by {
            if i < d.len() {
                assert(r[i] == d[i]);
            }
        }
        assert forall|i: int, j: int| 0 <= i < j < r.len() implies !(#[trigger] r[j]).is_before(
            #[trigger] r[i],
        ) by {
            if j < d.len() {
                assert(r[i] == d[i] && r[j] == d[j]);
            } else {
                let k = choose|k: int| 0 <= k < p.len() && p[k] == d[i];
                assert(r[i] == s[k]);
                assert(r[j] == s[s.len() - 1]);
            }
        }
        assert forall|i: int| 0 <= i < r.len() - 1 implies (#[trigger] r[i]).local != r[i
            + 1].local by {
            assert(r[i] == d[i]);
            if i + 1 < d.len() {
                assert(r[i + 1] == d[i + 1]);
            }
        }
    }
}

/// A preview holds no more firings than were asked for, in order, none of
/// them twice in a row, and each of them a firing of one of the specs.
pub proof fn law_merged(all: Seq<RunView>, count: usize)
    ensures
        merged_of(all, count).len() <= at_least_one(count),
        all.len() > 0 ==> merged_of(all, count).len() > 0,
        in_order(merged_of(all, count)),
        forall|i: int|
            0 <= i < merged_of(all, count).len() - 1 ==> (#[trigger] merged_of(all, count)[i]).local
                != merged_of(all, count)[i + 1].local,
        forall|i: int|
            0 <= i < merged_of(all, count).len() ==> all.contains(
                #[trigger] merged_of(all, count)[i],
            ),
{
    broadcast use vstd::seq_lib::group_to_multiset_ensures;

    let s = sorted_runs_of(all);
    let d = distinct_runs_of(s);
    let m = merged_of(all, count);
    law_sorted_runs(all);
    lemma_distinct(s);
    s.to_multiset_ensures();
    all.to_multiset_ensures();
    assert(s.len() == all.len());
    assert forall|i: int| 0 <= i < m.len() implies all.contains(#[trigger] m[i]) by {
        assert(m[i] == d[i]);
        assert(s.contains(d[i]));
        assert(s.to_multiset().count(d[i]) > 0);
        assert(all.to_multiset().count(d[i]) > 0);
    }
    assert forall|i: int, j: int| 0 <= i < j < m.len() implies !(#[trigger] m[j]).is_before(
        #[trigger] m[i],
    ) by {
        assert(m[i] == d[i] && m[j] == d[j]);
    }
    assert forall|i: int| 0 <= i < m.len() - 1 implies (#[trigger] m[i]).local != m[i + 1].local by {
        assert(m[i] == d[i] && m[i + 1] == d[i + 1]);
    }
}

// ---------------------------------------------------------------------------
// Installing and removing
// ---------------------------------------------------------------------------

/// The files of a unit under a directory, as they are to be written.
pub open spec fn placed_of(files: Seq<FileView>, dir: Seq<char>) -> Seq<FileView> {
    Seq::new(
        files.len(),
        |i: int| FileView { name: paths::join_of(dir, files[i].name), body: files[i].body },
    )
}

/// The files an installation writes, each under its path in `dir`; or why the
/// unit cannot be installed.
pub fn install_files(u: &Unit, dir: &str) -> (r: Result<Vec<generate::RenderedFile>, String>)
    ensures
        match r {
            Ok(files) => u@.error_of() is None && generate::file_views(files@) == placed_of(
                generate::render_of(u@),
                dir@,
            ),
            Err(e) => u@.error_of() == Some(e@),
        },
{
    match u.validate() {
        Ok(_) => {},
        Err(e) => {
            return Err(e);
        },
    }
    let files = generate::render(u);
    let ghost want = placed_of(generate::render_of(u@), dir@);
    let mut out: Vec<generate::RenderedFile> = Vec::new();
    let mut i: usize = 0;
    while i < files.len()
        invariant
            i <= files@.len(),
            generate::file_views(files@) == generate::render_of(u@),
            want == placed_of(generate::render_of(u@), dir@),
            generate::file_views(out@) == want.take(i as int),
        decreases files@.len() - i,
    {
        assert(generate::file_views(files@)[i as int] == files@[i as int]@);
        let f = generate::RenderedFile {
            name: paths::join(dir, files[i].name.as_str()),
            body: files[i].body.clone(),
        };
        let ghost before = generate::file_views(out@);
        out.push(f);
        assert(generate::file_views(out@) =~= before.push(f@));
        assert(before.push(f@) =~= want.take(i + 1));
        i += 1;
    }
    assert(generate::file_views(out@) =~= want);
    Ok(out)
}

/// What happened during an install, for reporting back to the user.
#[derive(Debug)]
pub struct InstallReport {
    pub written: Vec<String>,
    /// Non-fatal problems, e.g. `enable` failing on a unit with no `[Install]`.
    pub warnings: Vec<String>,
}

/// What is said of a step that failed.
pub open spec fn step_warning(verb: Seq<char>, unit: Seq<char>, error: Option<Seq<char>>) -> Seq<
    Seq<char>,
> {
    match error {
        Some(e) => seq![verb + " "@ + unit + ": "@ + text::trim_of(e)],
        None => seq![],
    }
}

fn warn(out: &mut Vec<String>, verb: &str, unit: &str, error: &Option<String>)
    ensures
        text::texts(final(out)@) == text::texts(old(out)@) + step_warning(
            verb@,
            unit@,
            text::opt_text(*error),
        ),
{
    let ghost before = text::texts(out@);
    if let Some(e) = error {
        out.push(text::cat5(verb, " ", unit, ": ", text::trim(e.as_str())));
    }
    assert(text::texts(out@) =~= before + step_warning(verb@, unit@, text::opt_text(*error)));
}

/// The report of an installation whose files are written: a failed `enable`
/// or `start` is a warning, not a failure.
pub fn installed(
    written: Vec<String>,
    primary: &str,
    enable_error: &Option<String>,
    start_error: &Option<String>,
) -> (r: InstallReport)
    ensures
        r.written == written,
        text::texts(r.warnings@) == step_warning(
            "enable"@,
            primary@,
            text::opt_text(*enable_error),
        ) + step_warning("start"@, primary@, text::opt_text(*start_error)),
{
    let mut warnings: Vec<String> = Vec::new();
    assert(text::texts(warnings@) =~= seq![]);
    warn(&mut warnings, "enable", primary, enable_error);
    warn(&mut warnings, "start", primary, start_error);
    assert(text::texts(warnings@) =~= step_warning(
        "enable"@,
        primary@,
        text::opt_text(*enable_error),
    ) + step_warning("start"@, primary@, text::opt_text(*start_error)));
    InstallReport { written, warnings }
}

/// The unit that `systemctl` acts on: the first file, or nothing.
pub open spec fn first_name(files: Seq<Seq<char>>) -> Seq<char> {
    if files.len() > 0 {
        files[0]
    } else {
        seq![]
    }
}

fn first_file(files: &[String]) -> (r: String)
    ensures
        r@ == first_name(text::texts(files@)),
{
    if files.len() > 0 {
        files[0].clone()
    } else {
        String::new()
    }
}

/// The paths, under `dir`, of those files that exist.
pub open spec fn present_of(dir: Seq<char>, files: Seq<Seq<char>>, exists_now: Seq<bool>) -> Seq<
    Seq<char>,
>
    decreases files.len(),
{
    if files.len() == 0 {
        seq![]
    } else {
        let rest = present_of(dir, files.drop_last(), exists_now);
        if exists_now[files.len() - 1] {
            rest.push(paths::join_of(dir, files.last()))
        } else {
            rest
        }
    }
}

/// What a removal stashes: the files that are there, so that there is nothing
/// to stash where none is.
pub fn stash_request(
    scope: Scope,
    dir: &str,
    files: &[String],
    exists_now: &[bool],
    was_enabled: bool,
    was_active: bool,
) -> (r: Option<StashRequest>)
    requires
        files@.len() == exists_now@.len(),
    ensures
        ({
            let present = present_of(dir@, text::texts(files@), exists_now@);
            match r {
                Some(req) => {
                    &&& present.len() > 0
                    &&& req.scope == scope
                    &&& req.unit@ == first_name(text::texts(files@))
                    &&& text::texts(req.files@) == present
                    &&& req.was_enabled == was_enabled
                    &&& req.was_active == was_active
                },
                None => present.len() == 0,
            }
        }),
{
    let ghost all = text::texts(files@);
    let mut present: Vec<String> = Vec::new();
    let mut i: usize = 0;
    assert(all.take(0) =~= seq![]);
    assert(text::texts(present@) =~= seq![]);
    while i < files.len()
        invariant
            i <= files@.len(),
            files@.len() == exists_now@.len(),
            all == text::texts(files@),
            text::texts(present@) == present_of(dir@, all.take(i as int), exists_now@),
        decreases files@.len() - i,
    {
        proof {
            assert(all.take(i + 1).drop_last() =~= all.take(i as int));
            assert(all.take(i + 1).last() == files@[i as int]@);
        }
        if exists_now[i] {
            let ghost before = text::texts(present@);
            let path = paths::join(dir, files[i].as_str());
            present.push(path);
            assert(text::texts(present@) =~= before.push(path@));
        }
        i += 1;
    }
    assert(all.take(files@.len() as int) =~= all);
    if present.len() == 0 {
        return None;
    }
    Some(StashRequest { scope, unit: first_file(files), files: present, was_enabled, was_active })
}

/// What a removal did, beyond succeeding.
#[derive(Debug)]
pub struct RemoveReport {
    /// The trash entry the unit's files were stashed into, so the caller can
    /// offer an undo. `None` only when there was nothing on disk to stash.
    pub trashed: Option<TrashEntry>,
    /// Non-fatal problems, e.g. the retention prune failing. The removal
    /// itself happened.
    pub warnings: Vec<String>,
}

/// Why a removal stops when its files cannot be stashed.
pub open spec fn abort_message(files: Seq<Seq<char>>, root: Seq<char>, why: Seq<char>) -> Seq<
    char,
> {
    (if files.len() > 0 {
        files[0]
    } else {
        "the unit"@
    })
        + " was stopped and disabled but NOT deleted: its files could not be moved to the trash at "@
        + root + ", and notcron will not delete what it cannot undo.\n\n"@ + why
}

/// Whether a removal may go on to delete, and what it will report.
///
/// Files are never deleted outright: they are moved into the trash first. If
/// they could not be stashed the unit is **not** deleted and an error is
/// returned. Refusing to delete what could not be backed up is the only
/// choice that cannot lose a user's work; deleting anyway with a warning
/// turns a full disk or a missing `sudo` rule into silent data loss. A failed
/// prune is cosmetic: the removal already succeeded.
pub fn remove_reporting(
    files: &[String],
    root: &str,
    stash: Option<Result<TrashEntry, String>>,
    prune_error: &Option<String>,
) -> (r: Result<RemoveReport, String>)
    ensures
        match r {
            Err(e) => stash matches Some(Err(why)) && e@ == abort_message(
                text::texts(files@),
                root@,
                why@,
            ),
            Ok(report) => {
                &&& report.trashed == match stash {
                    Some(Ok(entry)) => Some(entry),
                    _ => None,
                }
                &&& !(stash matches Some(Err(_)))
                &&& text::texts(report.warnings@) == match (stash, *prune_error) {
                    (Some(Ok(_)), Some(e)) => seq!["pruning the trash: "@ + e@],
                    _ => seq![],
                }
            },
        },
{
    let mut warnings: Vec<String> = Vec::new();
    assert(text::texts(warnings@) =~= seq![]);
    match stash {
        None => Ok(RemoveReport { trashed: None, warnings }),
        Some(Err(why)) => {
            let mut m = if files.len() > 0 {
                files[0].clone()
            } else {
                "the unit".to_owned()
            };
            m.push_str(
                " was stopped and disabled but NOT deleted: its files could not be moved to the trash at ",
            );
            m.push_str(root);
            m.push_str(", and notcron will not delete what it cannot undo.\n\n");
            m.push_str(why.as_str());
            Err(m)
        },
        Some(Ok(entry)) => {
            if let Some(e) = prune_error {
                warnings.push(text::cat2("pruning the trash: ", e.as_str()));
                assert(text::texts(warnings@) =~= seq!["pruning the trash: "@ + e@]);
            }
            Ok(RemoveReport { trashed: Some(entry), warnings })
        },
    }
}

// ---------------------------------------------------------------------------
// Listing
// ---------------------------------------------------------------------------

/// One row in the unit list.
#[derive(Debug)]
pub struct Entry {
    /// The unit systemctl acts on, e.g. `notcron-backup.timer`.
    pub primary: String,
    /// Every file the entry owns, primary first.
    pub files: Vec<String>,
    pub scope: Scope,
    /// True when the notcron marker is present: only these may be edited.
    pub owned: bool,
    pub description: String,
    pub kind: &'static str,
    pub schedule: String,
    /// `None` when the files could not be modelled; the row is read-only.
    pub unit: Option<Unit>,
    pub active: String,
    pub enabled: String,
}

/// The contents of an [`Entry`].
#[verifier::ext_equal]
pub struct EntryView {
    pub primary: Seq<char>,
    pub files: Seq<Seq<char>>,
    pub scope: Scope,
    pub owned: bool,
    pub description: Seq<char>,
    pub kind: Seq<char>,
    pub schedule: Seq<char>,
    pub unit: Option<UnitView>,
    pub active: Seq<char>,
    pub enabled: Seq<char>,
}

impl View for Entry {
    type V = EntryView;

    open spec fn view(&self) -> EntryView {
        EntryView {
            primary: self.primary@,
            files: text::texts(self.files@),
            scope: self.scope,
            owned: self.owned,
            description: self.description@,
            kind: self.kind@,
            schedule: self.schedule@,
            unit: match self.unit {
                Some(u) => Some(u@),
                None => None,
            },
            active: self.active@,
            enabled: self.enabled@,
        }
    }
}

impl Clone for Entry {
    fn clone(&self) -> (r: Entry)
        ensures
            r@ == self@,
    {
        let unit = match &self.unit {
            Some(u) => Some(u.clone()),
            None => None,
        };
        Entry {
            primary: self.primary.clone(),
            files: text::clone_strings(&self.files),
            scope: self.scope,
            owned: self.owned,
            description: self.description.clone(),
            kind: self.kind,
            schedule: self.schedule.clone(),
            unit,
            active: self.active.clone(),
            enabled: self.enabled.clone(),
        }
    }
}

/// The contents of a list of entries.
pub open spec fn entry_views(v: Seq<Entry>) -> Seq<EntryView> {
    Seq::new(v.len(), |i: int| v[i]@)
}

/// The place of a suffix when files are grouped: a timer outranks its
/// service, and an automount its mount.
pub open spec fn rank_of(suffix: Seq<char>) -> int {
    if suffix == "timer"@ {
        0
    } else if suffix == "automount"@ {
        1
    } else if suffix == "service"@ {
        2
    } else if suffix == "mount"@ {
        3
    } else {
        9
    }
}

/// Suffix -> priority, so a timer outranks its service when grouping.
pub fn primary_rank(suffix: &str) -> (r: u8)
    ensures
        r == rank_of(suffix@),
{
    if text::same(suffix, "timer") {
        0
    } else if text::same(suffix, "automount") {
        1
    } else if text::same(suffix, "service") {
        2
    } else if text::same(suffix, "mount") {
        3
    } else {
        9
    }
}

/// The stem of a file name whose suffix is that of a unit file.
pub open spec fn unit_stem_of(name: Seq<char>) -> Option<Seq<char>> {
    match parts::rsplit_once_of(name, '.') {
        Some((stem, suffix)) => if rank_of(suffix) < 9 {
            Some(stem)
        } else {
            None
        },
        None => None,
    }
}

/// The stems of the unit files among some files.
pub open spec fn stems_of(files: Seq<FileView>) -> Seq<Seq<char>>
    decreases files.len(),
{
    if files.len() == 0 {
        seq![]
    } else {
        let rest = stems_of(files.drop_last());
        match unit_stem_of(files.last().name) {
            Some(stem) => rest.push(stem),
            None => rest,
        }
    }
}

/// The contents of the file of that name; of the last one, were there more.
pub open spec fn body_named(files: Seq<FileView>, name: Seq<char>) -> Option<Seq<char>>
    decreases files.len(),
{
    if files.len() == 0 {
        None
    } else if files.last().name == name {
        Some(files.last().body)
    } else {
        body_named(files.drop_last(), name)
    }
}

/// The file of a stem with a suffix, where there is one.
pub open spec fn source_of(files: Seq<FileView>, stem: Seq<char>, suffix: Seq<char>) -> Seq<
    FileView,
> {
    let name = stem + "."@ + suffix;
    match body_named(files, name) {
        Some(body) => seq![FileView { name, body }],
        None => seq![],
    }
}

/// The files of one stem, by rank.
pub open spec fn sources_of(files: Seq<FileView>, stem: Seq<char>) -> Seq<FileView> {
    source_of(files, stem, "timer"@) + source_of(files, stem, "automount"@) + source_of(
        files,
        stem,
        "service"@,
    ) + source_of(files, stem, "mount"@)
}

/// Whether a line of some text is the ownership marker.
pub open spec fn has_marker(body: Seq<char>) -> bool {
    exists|i: int|
        0 <= i < parts::lines_of(body).len() && text::trim_of(
            #[trigger] parts::lines_of(body)[i],
        ) == MARKER@
}

/// Whether one of the files holds the ownership marker.
pub open spec fn any_marker(files: Seq<FileView>) -> bool {
    exists|i: int| 0 <= i < files.len() && has_marker((#[trigger] files[i]).body)
}

/// The names of some files.
pub open spec fn names_of(files: Seq<FileView>) -> Seq<Seq<char>> {
    Seq::new(files.len(), |i: int| files[i].name)
}

/// What is shown as the schedule of a unit.
pub open spec fn shown_schedule(u: UnitView) -> Seq<char> {
    match u.body {
        BodyView::Timer(t) => t.schedule.summary_of(),
        BodyView::Mount(m) => m.what,
        BodyView::Service(_) => seq![],
    }
}

/// The row that some files of one stem make. Files that cannot be modelled
/// make a row of their own, owned where one of them holds the marker.
pub open spec fn entry_of(scope: Scope, sources: Seq<FileView>) -> EntryView {
    let bare = EntryView {
        primary: sources[0].name,
        files: names_of(sources),
        scope,
        owned: any_marker(sources),
        description: seq![],
        kind: "unknown"@,
        schedule: seq![],
        unit: None,
        active: seq![],
        enabled: seq![],
    };
    match parse::parse_of(scope, sources) {
        Ok((u, owned)) => EntryView {
            owned,
            description: u.description,
            kind: u.body.kind_of(),
            schedule: shown_schedule(u),
            unit: Some(u),
            ..bare
        },
        Err(_) => bare,
    }
}

/// The rows for some stems.
pub open spec fn rows_of(
    scope: Scope,
    files: Seq<FileView>,
    stems: Seq<Seq<char>>,
    foreign: bool,
) -> Seq<EntryView>
    decreases stems.len(),
{
    if stems.len() == 0 {
        seq![]
    } else {
        let rest = rows_of(scope, files, stems.drop_last(), foreign);
        let e = entry_of(scope, sources_of(files, stems.last()));
        if e.owned || foreign {
            rest.push(e)
        } else {
            rest
        }
    }
}

/// The rows for the files of a unit directory: one for each stem, in the
/// order of the stems.
pub open spec fn list_of(scope: Scope, files: Seq<FileView>, foreign: bool) -> Seq<EntryView> {
    rows_of(scope, files, order::sorted_of(stems_of(files)), foreign)
}

fn unit_stem(name: &str) -> (r: Option<&str>)
    ensures
        match r {
            Some(s) => unit_stem_of(name@) == Some(s@),
            None => unit_stem_of(name@) is None,
        },
{
    match parts::rsplit_once(name, '.') {
        Some((stem, suffix)) => if primary_rank(suffix) < 9 {
            Some(stem)
        } else {
            None
        },
        None => None,
    }
}

fn stems(files: &[SourceFile]) -> (r: Vec<String>)
    ensures
        text::texts(r@) == stems_of(parse::source_views(files@)),
{
    let ghost all = parse::source_views(files@);
    let mut out: Vec<String> = Vec::new();
    let mut i: usize = 0;
    assert(all.take(0) =~= seq![]);
    assert(text::texts(out@) =~= seq![]);
    while i < files.len()
        invariant
            i <= files@.len(),
            all == parse::source_views(files@),
            text::texts(out@) == stems_of(all.take(i as int)),
        decreases files@.len() - i,
    {
        proof {
            assert(all.take(i + 1).drop_last() =~= all.take(i as int));
            assert(all.take(i + 1).last() == files@[i as int]@);
        }
        if let Some(stem) = unit_stem(files[i].name.as_str()) {
            let ghost before = text::texts(out@);
            out.push(stem.to_owned());
            assert(text::texts(out@) =~= before.push(stem@));
        }
        i += 1;
    }
    assert(all.take(files@.len() as int) =~= all);
    out
}

fn add_source(out: &mut Vec<SourceFile>, files: &[SourceFile], stem: &str, suffix: &str)
    ensures
        parse::source_views(final(out)@) == parse::source_views(old(out)@) + source_of(
            parse::source_views(files@),
            stem@,
            suffix@,
        ),
{
    let ghost all = parse::source_views(files@);
    let ghost before = parse::source_views(out@);
    let name = text::cat3(stem, ".", suffix);
    let mut i: usize = files.len();
    assert(all.take(i as int) =~= all);
    while i > 0
        invariant
            i <= files@.len(),
            all == parse::source_views(files@),
            before == parse::source_views(out@),
            before == parse::source_views(old(out)@),
            name@ == stem@ + "."@ + suffix@,
            body_named(all, name@) == body_named(all.take(i as int), name@),
        decreases i,
    {
        proof {
            assert(all.take(i as int).drop_last() =~= all.take(i - 1));
            assert(all.take(i as int).last() == files@[i - 1]@);
        }
        if text::same(files[i - 1].name.as_str(), name.as_str()) {
            let f = SourceFile { name, body: files[i - 1].body.clone() };
            out.push(f);
            assert(parse::source_views(out@) =~= before + seq![f@]);
            return ;
        }
        i -= 1;
    }
    assert(before + seq![] =~= before);
}

fn marked(body: &str) -> (r: bool)
    ensures
        r == has_marker(body@),
{
    let lines = parts::lines(body);
    let ghost all = text::texts(lines@);
    let mut i: usize = 0;
    while i < lines.len()
        invariant
            i <= lines@.len(),
            all == text::texts(lines@),
            all == parts::lines_of(body@),
            forall|k: int| 0 <= k < i ==> text::trim_of(#[trigger] all[k]) != MARKER@,
        decreases lines@.len() - i,
    {
        assert(all[i as int] == lines@[i as int]@);
        if text::same(text::trim(lines[i].as_str()), MARKER) {
            return true;
        }
        i += 1;
    }
    false
}

fn entry(scope: Scope, sources: &[SourceFile]) -> (r: Entry)
    requires
        sources@.len() > 0,
    ensures
        r@ == entry_of(scope, parse::source_views(sources@)),
{
    let ghost views = parse::source_views(sources@);
    let mut names: Vec<String> = Vec::new();
    let mut any = false;
    let mut i: usize = 0;
    while i < sources.len()
        invariant
            i <= sources@.len(),
            views == parse::source_views(sources@),
            text::texts(names@) == names_of(views).take(i as int),
            any == exists|k: int| 0 <= k < i && has_marker((#[trigger] views[k]).body),
        decreases sources@.len() - i,
    {
        assert(views[i as int] == sources@[i as int]@);
        let ghost before = text::texts(names@);
        names.push(sources[i].name.clone());
        assert(text::texts(names@) =~= before.push(views[i as int].name));
        assert(before.push(views[i as int].name) =~= names_of(views).take(i + 1));
        if marked(sources[i].body.as_str()) {
            any = true;
        }
        i += 1;
    }
    assert(text::texts(names@) =~= names_of(views));
    assert(any == any_marker(views));
    assert(views[0] == sources@[0]@);
    let primary = sources[0].name.clone();
    match parse::parse(scope, sources) {
        Ok((u, owned)) => {
            let schedule = match &u.body {
                Body::Timer(t) => t.schedule.summary(),
                Body::Mount(m) => m.what.clone(),
                Body::Service(_) => String::new(),
            };
            Entry {
                primary,
                files: names,
                scope,
                owned,
                description: u.description.clone(),
                kind: u.body.kind_label(),
                schedule,
                unit: Some(u),
                active: String::new(),
                enabled: String::new(),
            }
        },
        Err(_) => Entry {
            primary,
            files: names,
            scope,
            owned: any,
            description: String::new(),
            kind: "unknown",
            schedule: String::new(),
            unit: None,
            active: String::new(),
            enabled: String::new(),
        },
    }
}

/// Every unit found among the readable files of a scope's directory.
///
/// A `.service` next to a `.timer`, or a `.mount` next to an `.automount`, is
/// a companion; the group is one entry either way. `include_foreign` also
/// returns units without the marker; they come back with `owned == false` and
/// must be treated as read-only.
pub fn list(scope: Scope, files: &[SourceFile], include_foreign: bool) -> (r: Vec<Entry>)
    ensures
        entry_views(r@) == list_of(scope, parse::source_views(files@), include_foreign),
{
    let ghost views = parse::source_views(files@);
    let found = stems(files);
    let names = order::sorted(&found);
    let ghost all = text::texts(names@);
    let mut out: Vec<Entry> = Vec::new();
    let mut i: usize = 0;
    assert(all.take(0) =~= seq![]);
    assert(entry_views(out@) =~= seq![]);
    while i < names.len()
        invariant
            i <= names@.len(),
            views == parse::source_views(files@),
            all == text::texts(names@),
            all == order::sorted_of(stems_of(views)),
            entry_views(out@) == rows_of(scope, views, all.take(i as int), include_foreign),
        decreases names@.len() - i,
    {
        proof {
            assert(all.take(i + 1).drop_last() =~= all.take(i as int));
            assert(all.take(i + 1).last() == names@[i as int]@);
            order::law_sorted(stems_of(views));
            assert(all.contains(all[i as int]));
            lemma_sources_present(views, all[i as int]);
        }
        let stem = names[i].as_str();
        let mut sources: Vec<SourceFile> = Vec::new();
        assert(parse::source_views(sources@) =~= seq![]);
        add_source(&mut sources, files, stem, "timer");
        add_source(&mut sources, files, stem, "automount");
        add_source(&mut sources, files, stem, "service");
        add_source(&mut sources, files, stem, "mount");
        assert(parse::source_views(sources@) =~= sources_of(views, stem@));
        let e = entry(scope, &sources);
        if e.owned || include_foreign {
            let ghost before = entry_views(out@);
            out.push(e);
            assert(entry_views(out@) =~= before.push(e@));
        }
        i += 1;
    }
    assert(all.take(names@.len() as int) =~= all);
    out
}

/// A stem that was found has a file.
proof fn lemma_sources_present(files: Seq<FileView>, stem: Seq<char>)
    requires
        stems_of(files).contains(stem),
    ensures
        sources_of(files, stem).len() > 0,
    decreases files.len(),
{
    let rest = files.drop_last();
    let last = files.last();
    let s = stems_of(files);
    let k = choose|k: int| 0 <= k < s.len() && s[k] == stem;
    if unit_stem_of(last.name) == Some(stem) {
        let (a, suffix) = parts::rsplit_once_of(last.name, '.')->0;
        text::lemma_last_index(last.name, '.');
        reveal_strlit(".");
        assert(last.name =~= a + "."@ + suffix);
        assert(body_named(files, last.name) == Some(last.body));
    } else {
        assert(stems_of(rest).contains(stem)) by {
            if k < stems_of(rest).len() {
                assert(stems_of(rest)[k] == stem);
            }
        }
        lemma_sources_present(rest, stem);
        lemma_source_grows(files, stem, "timer"@);
        lemma_source_grows(files, stem, "automount"@);
        lemma_source_grows(files, stem, "service"@);
        lemma_source_grows(files, stem, "mount"@);
    }
}

proof fn lemma_source_grows(files: Seq<FileView>, stem: Seq<char>, suffix: Seq<char>)
    requires
        files.len() > 0,
    ensures
        source_of(files.drop_last(), stem, suffix).len() <= source_of(files, stem, suffix).len(),
{
}

// ---------------------------------------------------------------------------
// States
// ---------------------------------------------------------------------------

/// What one block of `systemctl show` says: the unit it speaks of, and its
/// active and its enabled state.
#[verifier::ext_equal]
pub struct StateView {
    pub id: Option<Seq<char>>,
    pub active: Seq<char>,
    pub enabled: Seq<char>,
}

/// What a block says with one more line.
pub open spec fn state_line(st: StateView, line: Seq<char>) -> StateView {
    match parts::split_once_of(line, '=') {
        Some((k, v)) => if k == "Id"@ {
            StateView { id: Some(v), ..st }
        } else if k == "ActiveState"@ {
            StateView { active: v, ..st }
        } else if k == "UnitFileState"@ {
            StateView { enabled: v, ..st }
        } else {
            st
        },
        None => st,
    }
}

/// What a block of lines says.
pub open spec fn state_of(lines: Seq<Seq<char>>) -> StateView
    decreases lines.len(),
{
    if lines.len() == 0 {
        StateView { id: None, active: seq![], enabled: seq![] }
    } else {
        state_line(state_of(lines.drop_last()), lines.last())
    }
}

/// The last block that speaks of a unit.
pub open spec fn state_for(blocks: Seq<Seq<char>>, id: Seq<char>) -> Option<StateView>
    decreases blocks.len(),
{
    if blocks.len() == 0 {
        None
    } else {
        let st = state_of(parts::lines_of(blocks.last()));
        if st.id == Some(id) {
            Some(st)
        } else {
            state_for(blocks.drop_last(), id)
        }
    }
}

/// A row with the states that were found for it.
pub open spec fn with_state(e: EntryView, blocks: Seq<Seq<char>>) -> EntryView {
    match state_for(blocks, e.primary) {
        Some(st) => EntryView { active: st.active, enabled: st.enabled, ..e },
        None => e,
    }
}

/// One block of `systemctl show`, read.
struct State {
    id: Option<String>,
    active: String,
    enabled: String,
}

impl View for State {
    type V = StateView;

    closed spec fn view(&self) -> StateView {
        StateView {
            id: text::opt_text(self.id),
            active: self.active@,
            enabled: self.enabled@,
        }
    }
}

fn read_state(block: &str) -> (r: State)
    ensures
        r@ == state_of(parts::lines_of(block@)),
{
    let lines = parts::lines(block);
    let ghost all = text::texts(lines@);
    let mut st = State { id: None, active: String::new(), enabled: String::new() };
    let mut i: usize = 0;
    assert(all.take(0) =~= seq![]);
    assert(st@ =~= state_of(seq![]));
    while i < lines.len()
        invariant
            i <= lines@.len(),
            all == text::texts(lines@),
            st@ == state_of(all.take(i as int)),
        decreases lines@.len() - i,
    {
        proof {
            assert(all.take(i + 1).drop_last() =~= all.take(i as int));
            assert(all.take(i + 1).last() == lines@[i as int]@);
        }
        if let Some((k, v)) = parts::split_once(lines[i].as_str(), '=') {
            if text::same(k, "Id") {
                st.id = Some(v.to_owned());
            } else if text::same(k, "ActiveState") {
                st.active = v.to_owned();
            } else if text::same(k, "UnitFileState") {
                st.enabled = v.to_owned();
            }
        }
        i += 1;
    }
    assert(all.take(lines@.len() as int) =~= all);
    st
}

/// The arguments that ask for the states of some rows.
pub fn state_args(entries: &[Entry]) -> (r: Vec<String>)
    ensures
        text::texts(r@) == seq!["show"@, "--property=Id,ActiveState,UnitFileState"@] + Seq::new(
            entries@.len(),
            |i: int| entries@[i]@.primary,
        ),
{
    let mut out: Vec<String> = Vec::new();
    out.push("show".to_owned());
    out.push("--property=Id,ActiveState,UnitFileState".to_owned());
    let ghost head = seq!["show"@, "--property=Id,ActiveState,UnitFileState"@];
    let ghost names = Seq::new(entries@.len(), |i: int| entries@[i]@.primary);
    let mut i: usize = 0;
    assert(text::texts(out@) =~= head + names.take(0));
    while i < entries.len()
        invariant
            i <= entries@.len(),
            names == Seq::new(entries@.len(), |i: int| entries@[i]@.primary),
            text::texts(out@) == head + names.take(i as int),
        decreases entries@.len() - i,
    {
        let ghost before = text::texts(out@);
        out.push(entries[i].primary.clone());
        assert(text::texts(out@) =~= before.push(names[i as int]));
        assert(before.push(names[i as int]) =~= head + names.take(i + 1));
        i += 1;
    }
    assert(names.take(entries@.len() as int) =~= names);
    out
}

/// The rows with the ActiveState and UnitFileState that one `systemctl show`
/// printed for them all.
pub fn fill_states(entries: &[Entry], printed: &str) -> (r: Vec<Entry>)
    ensures
        entry_views(r@) == Seq::new(
            entries@.len(),
            |i: int| with_state(entries@[i]@, parts::split_str_of(printed@, "\n\n"@)),
        ),
{
    proof {
        reveal_strlit("\n\n");
    }
    let blocks = parts::split_str(printed, "\n\n");
    let ghost all = text::texts(blocks@);
    let ghost want = Seq::new(
        entries@.len(),
        |i: int| with_state(entries@[i]@, parts::split_str_of(printed@, "\n\n"@)),
    );
    let mut out: Vec<Entry> = Vec::new();
    let mut i: usize = 0;
    while i < entries.len()
        invariant
            i <= entries@.len(),
            all == text::texts(blocks@),
            all == parts::split_str_of(printed@, "\n\n"@),
            want == Seq::new(
                entries@.len(),
                |i: int| with_state(entries@[i]@, parts::split_str_of(printed@, "\n\n"@)),
            ),
            entry_views(out@) == want.take(i as int),
        decreases entries@.len() - i,
    {
        let mut e = entries[i].clone();
        let mut k: usize = blocks.len();
        let mut found = false;
        assert(all.take(k as int) =~= all);
        while k > 0 && !found
            invariant
                i < entries@.len(),
                k <= blocks@.len(),
                all == text::texts(blocks@),
                found ==> e@ == with_state(entries@[i as int]@, all),
                !found ==> e@ == entries@[i as int]@ && state_for(all, e@.primary) == state_for(
                    all.take(k as int),
                    e@.primary,
                ),
            decreases k,
        {
            proof {
                assert(all.take(k as int).drop_last() =~= all.take(k - 1));
                assert(all.take(k as int).last() == blocks@[k - 1]@);
            }
            let st = read_state(blocks[k - 1].as_str());
            if let Some(id) = &st.id {
                if text::same(id.as_str(), e.primary.as_str()) {
                    e.active = st.active.clone();
                    e.enabled = st.enabled.clone();
                    found = true;
                }
            }
            k -= 1;
        }
        let ghost before = entry_views(out@);
        out.push(e);
        assert(entry_views(out@) =~= before.push(e@));
        assert(before.push(e@) =~= want.take(i + 1));
        i += 1;
    }
    assert(entry_views(out@) =~= want);
    out
}

// ---------------------------------------------------------------------------
// What the listing shows
// ---------------------------------------------------------------------------

/// Whether an entry shows a unit: its description, its kind, and its schedule
/// in words, which for a calendar timer are its specs and for a mount is what
/// is mounted.
pub open spec fn shows_unit(e: EntryView, u: UnitView) -> bool {
    &&& e.unit == Some(u)
    &&& e.description == u.description
    &&& match u.body {
        BodyView::Timer(t) => {
            &&& e.kind == "timer"@
            &&& match t.schedule {
                ScheduleView::Calendar(specs) => e.schedule == parts::join_of(specs, ", "@),
                ScheduleView::Every { every, boot } => {
                    &&& e.schedule.len() > every.len() + boot.len()
                    &&& holds_text(e.schedule, every)
                    &&& holds_text(e.schedule, boot)
                },
                ScheduleView::Boot { boot } => e.schedule.len() > boot.len()
                    && boot.is_suffix_of(e.schedule),
            }
        },
        BodyView::Service(_) => e.kind == "service"@ && e.schedule.len() == 0,
        BodyView::Mount(m) => e.schedule == m.what && e.kind == if m.automount {
            "automount"@
        } else {
            "mount"@
        },
    }
}

/// Whether a text stands somewhere in another.
pub open spec fn holds_text(s: Seq<char>, x: Seq<char>) -> bool {
    exists|k: int| 0 <= k <= k + x.len() <= s.len() && #[trigger] s.subrange(k, k + x.len()) == x
}

proof fn lemma_holds(a: Seq<char>, x: Seq<char>, b: Seq<char>)
    ensures
        holds_text(a + x + b, x),
{
    let s = a + x + b;
    let k = a.len() as int;
    assert(s.subrange(k, k + x.len()) =~= x);
}

/// The row of files that can be modelled shows their unit, under the first
/// file's name, and lists every file.
pub proof fn law_row_shows_its_unit(scope: Scope, sources: Seq<FileView>)
    requires
        sources.len() > 0,
        parse::parse_of(scope, sources) is Ok,
    ensures
        ({
            let e = entry_of(scope, sources);
            let (u, owned) = parse::parse_of(scope, sources)->Ok_0;
            &&& shows_unit(e, u)
            &&& e.owned == owned
            &&& e.scope == scope
            &&& e.primary == sources[0].name
            &&& e.files.len() == sources.len()
            &&& forall|i: int| 0 <= i < sources.len() ==> #[trigger] e.files[i] == sources[i].name
        }),
{
    let e = entry_of(scope, sources);
    let (u, owned) = parse::parse_of(scope, sources)->Ok_0;
    if let BodyView::Timer(t) = u.body {
        match t.schedule {
            ScheduleView::Calendar(_) => {},
            ScheduleView::Every { every, boot } => {
                reveal_strlit("every ");
                reveal_strlit(" (boot + ");
                reveal_strlit(")");
                lemma_holds("every "@, every, " (boot + "@ + boot + ")"@);
                lemma_holds("every "@ + every + " (boot + "@, boot, ")"@);
                assert(e.schedule =~= "every "@ + every + (" (boot + "@ + boot + ")"@));
                assert(e.schedule =~= "every "@ + every + " (boot + "@ + boot + ")"@);
            },
            ScheduleView::Boot { boot } => {
                reveal_strlit("boot + ");
                let n = e.schedule.len() as int;
                assert(e.schedule.subrange(n - boot.len(), n) =~= boot);
            },
        }
    }
}

/// The row of files that cannot be modelled is owned exactly where a line of
/// one of them is the marker, and says nothing of a unit.
pub proof fn law_row_of_unknown_files(scope: Scope, sources: Seq<FileView>)
    requires
        sources.len() > 0,
        parse::parse_of(scope, sources) is Err,
    ensures
        ({
            let e = entry_of(scope, sources);
            &&& e.unit is None
            &&& e.kind == "unknown"@
            &&& e.description.len() == 0 && e.schedule.len() == 0
            &&& e.primary == sources[0].name
            &&& e.owned <==> exists|i: int, k: int|
                #![trigger parts::lines_of(sources[i].body)[k]]
                0 <= i < sources.len() && 0 <= k < parts::lines_of(sources[i].body).len()
                    && text::trim_of(parts::lines_of(sources[i].body)[k]) == MARKER@
        }),
{
    let e = entry_of(scope, sources);
    if e.owned {
        let i = choose|i: int| 0 <= i < sources.len() && has_marker((#[trigger] sources[i]).body);
        let k = choose|k: int|
            0 <= k < parts::lines_of(sources[i].body).len() && text::trim_of(
                #[trigger] parts::lines_of(sources[i].body)[k],
            ) == MARKER@;
        assert(text::trim_of(parts::lines_of(sources[i].body)[k]) == MARKER@);
    }
    if exists|i: int, k: int|
        #![trigger parts::lines_of(sources[i].body)[k]]
        0 <= i < sources.len() && 0 <= k < parts::lines_of(sources[i].body).len() && text::trim_of(
            parts::lines_of(sources[i].body)[k],
        ) == MARKER@ {
        let (i, k) = choose|i: int, k: int|
            #![trigger parts::lines_of(sources[i].body)[k]]
            0 <= i < sources.len() && 0 <= k < parts::lines_of(sources[i].body).len()
                && text::trim_of(parts::lines_of(sources[i].body)[k]) == MARKER@;
        assert(has_marker(sources[i].body));
    }
}

proof fn lemma_rows(
    scope: Scope,
    files: Seq<FileView>,
    stems: Seq<Seq<char>>,
    foreign: bool,
    stem: Seq<char>,
)
    requires
        stems.contains(stem),
        entry_of(scope, sources_of(files, stem)).owned || foreign,
    ensures
        rows_of(scope, files, stems, foreign).contains(entry_of(scope, sources_of(files, stem))),
    decreases stems.len(),
{
    let rest = stems.drop_last();
    let rows = rows_of(scope, files, stems, foreign);
    let less = rows_of(scope, files, rest, foreign);
    let e = entry_of(scope, sources_of(files, stem));
    if stems.last() == stem {
        assert(rows[rows.len() - 1] == e);
    } else {
        let i = choose|i: int| 0 <= i < stems.len() && stems[i] == stem;
        assert(rest[i] == stem);
        lemma_rows(scope, files, rest, foreign, stem);
        let k = choose|k: int| 0 <= k < less.len() && less[k] == e;
        assert(rows[k] == e);
    }
}

proof fn lemma_rows_owned(
    scope: Scope,
    files: Seq<FileView>,
    stems: Seq<Seq<char>>,
    foreign: bool,
    i: int,
)
    requires
        0 <= i < rows_of(scope, files, stems, foreign).len(),
    ensures
        rows_of(scope, files, stems, foreign)[i].owned || foreign,
    decreases stems.len(),
{
    let less = rows_of(scope, files, stems.drop_last(), foreign);
    let rows = rows_of(scope, files, stems, foreign);
    if i < less.len() {
        assert(rows[i] == less[i]);
        lemma_rows_owned(scope, files, stems.drop_last(), foreign, i);
    }
}

/// Every group of unit files has its row, where it is owned or foreign ones
/// are asked for; and where they are not, every row is owned.
pub proof fn law_every_unit_is_listed(
    scope: Scope,
    files: Seq<FileView>,
    foreign: bool,
    stem: Seq<char>,
)
    requires
        stems_of(files).contains(stem),
    ensures
        entry_of(scope, sources_of(files, stem)).owned || foreign ==> list_of(
            scope,
            files,
            foreign,
        ).contains(entry_of(scope, sources_of(files, stem))),
        forall|i: int|
            0 <= i < list_of(scope, files, foreign).len() ==> foreign || (#[trigger] list_of(
                scope,
                files,
                foreign,
            )[i]).owned,
{
    let stems = order::sorted_of(stems_of(files));
    order::law_sorted(stems_of(files));
    assert(stems.contains(stem));
    if entry_of(scope, sources_of(files, stem)).owned || foreign {
        lemma_rows(scope, files, stems, foreign, stem);
    }
    assert forall|i: int| 0 <= i < list_of(scope, files, foreign).len() implies foreign || (
    #[trigger] list_of(scope, files, foreign)[i]).owned by {
        lemma_rows_owned(scope, files, stems, foreign, i);
    }
}

/// The stem of a name is what stands before its suffix.
proof fn lemma_unit_stem(stem: Seq<char>, suffix: Seq<char>)
    requires
        suffix == "timer"@ || suffix == "automount"@ || suffix == "service"@ || suffix == "mount"@,
    ensures
        unit_stem_of(stem + "."@ + suffix) == Some(stem),
{
    reveal_strlit(".");
    reveal_strlit("timer");
    reveal_strlit("automount");
    reveal_strlit("service");
    reveal_strlit("mount");
    let name = stem + "."@ + suffix;
    let k = stem.len() as int;
    assert(name[k] == '.');
    assert forall|i: int| k < i < name.len() implies #[trigger] name[i] != '.' by {
        assert(name[i] == suffix[i - k - 1]);
    }
    text::lemma_last_index_at(name, '.', k);
    assert(name.take(k) =~= stem);
    assert(name.skip(k + 1) =~= suffix);
}

proof fn lemma_suffixes_differ()
    ensures
        "timer"@ != "automount"@,
        "timer"@ != "service"@,
        "timer"@ != "mount"@,
        "automount"@ != "service"@,
        "automount"@ != "mount"@,
        "service"@ != "mount"@,
{
    reveal_strlit("timer");
    reveal_strlit("automount");
    reveal_strlit("service");
    reveal_strlit("mount");
    assert("timer"@[0] != "mount"@[0]);
    assert("timer"@.len() == 5 && "automount"@.len() == 9);
    assert("service"@.len() == 7 && "mount"@.len() == 5);
}

proof fn lemma_names_differ(stem: Seq<char>, a: Seq<char>, b: Seq<char>)
    requires
        a != b,
    ensures
        stem + "."@ + a != stem + "."@ + b,
{
    let x = stem + "."@ + a;
    let y = stem + "."@ + b;
    reveal_strlit(".");
    let k = stem.len() + 1;
    assert(x.skip(k as int) =~= a);
    assert(y.skip(k as int) =~= b);
}

/// The one row of one or two files of a stem.
proof fn lemma_one_group(
    scope: Scope,
    files: Seq<FileView>,
    foreign: bool,
    stem: Seq<char>,
    a: Seq<char>,
    b: Seq<char>,
)
    requires
        (a == "timer"@ && b == "service"@) || (a == "automount"@ && b == "mount"@) || (a == b && (a
            == "service"@ || a == "mount"@)),
        files.len() == if a == b {
            1
        } else {
            2nat
        },
        files[0].name == stem + "."@ + a,
        files.last().name == stem + "."@ + b,
        entry_of(scope, files).owned,
    ensures
        list_of(scope, files, foreign) == seq![entry_of(scope, files)],
{
    lemma_suffixes_differ();
    lemma_unit_stem(stem, a);
    lemma_unit_stem(stem, b);
    lemma_names_differ(stem, "timer"@, "automount"@);
    lemma_names_differ(stem, "timer"@, "service"@);
    lemma_names_differ(stem, "timer"@, "mount"@);
    lemma_names_differ(stem, "automount"@, "service"@);
    lemma_names_differ(stem, "automount"@, "mount"@);
    lemma_names_differ(stem, "service"@, "mount"@);
    let none = Seq::<FileView>::empty();
    let first = seq![files[0]];
    reveal_with_fuel(body_named, 3);
    reveal_with_fuel(stems_of, 3);
    reveal_with_fuel(order::sorted_of, 3);
    reveal_with_fuel(order::insert_of, 2);
    if files.len() == 2 {
        assert(files.drop_last() =~= first);
        assert(files.drop_last().drop_last() =~= none);
        assert(stems_of(files) =~= seq![stem, stem]);
        assert(seq![stem, stem].drop_last() =~= seq![stem]);
        assert(seq![stem].drop_last() =~= seq![]);
        assert(sources_of(files, stem) =~= files);
        assert(order::sorted_of(seq![stem]) =~= seq![stem]);
        assert(order::sorted_of(stems_of(files)) =~= seq![stem]);
    } else {
        assert(files.drop_last() =~= none);
        assert(stems_of(files) =~= seq![stem]);
        assert(seq![stem].drop_last() =~= seq![]);
        assert(sources_of(files, stem) =~= files);
        assert(order::sorted_of(stems_of(files)) =~= seq![stem]);
    }
    reveal_with_fuel(rows_of, 2);
    let stems = seq![stem];
    assert(stems.drop_last() =~= seq![]);
    assert(rows_of(scope, files, stems, foreign) =~= seq![entry_of(scope, files)]);
}

/// The files that a unit is written as are listed as one row: owned, under
/// the primary file's name, and showing that unit. A timer's row names its
/// schedule: for a calendar timer, the specs that its file gives systemd.
pub proof fn law_written_unit_is_listed(u: UnitView, foreign: bool)
    requires
        roundtrip::is_plain(u),
    ensures
        ({
            let files = generate::render_of(u);
            let rows = list_of(u.scope, files, foreign);
            &&& rows.len() == 1
            &&& rows[0].owned
            &&& rows[0].scope == u.scope
            &&& rows[0].primary == files[0].name
            &&& rows[0].files.len() == files.len()
            &&& shows_unit(rows[0], u)
            &&& u.body matches BodyView::Timer(t) ==> {
                &&& rows[0].schedule.len() > 0
                &&& t.schedule is Calendar ==> rows[0].schedule == parts::join_of(
                    roundtrip::told(files[0], "Timer"@, "OnCalendar"@),
                    ", "@,
                )
            }
        }),
{
    let files = generate::render_of(u);
    lemma_written_group(u, foreign);
    roundtrip::law_round_trip(u);
    law_row_shows_its_unit(u.scope, files);
    if let BodyView::Timer(t) = u.body {
        roundtrip::law_timer_files_tell_systemd(u);
        if let ScheduleView::Calendar(specs) = t.schedule {
            assert(roundtrip::is_entry(specs[0]));
            lemma_join_longer(specs, ", "@);
        }
    }
}

proof fn lemma_suffixed(stem: Seq<char>)
    ensures
        stem + ".timer"@ == stem + "."@ + "timer"@,
        stem + ".service"@ == stem + "."@ + "service"@,
        stem + ".mount"@ == stem + "."@ + "mount"@,
        stem + ".automount"@ == stem + "."@ + "automount"@,
{
    reveal_strlit(".");
    reveal_strlit("timer");
    reveal_strlit(".timer");
    reveal_strlit("service");
    reveal_strlit(".service");
    reveal_strlit("mount");
    reveal_strlit(".mount");
    reveal_strlit("automount");
    reveal_strlit(".automount");
    assert(stem + ".timer"@ =~= stem + "."@ + "timer"@);
    assert(stem + ".service"@ =~= stem + "."@ + "service"@);
    assert(stem + ".mount"@ =~= stem + "."@ + "mount"@);
    assert(stem + ".automount"@ =~= stem + "."@ + "automount"@);
}

#[verifier::spinoff_prover]
proof fn lemma_written_group(u: UnitView, foreign: bool)
    requires
        roundtrip::is_plain(u),
    ensures
        generate::render_of(u).len() > 0,
        list_of(u.scope, generate::render_of(u), foreign) == seq![
            entry_of(u.scope, generate::render_of(u)),
        ],
{
    let files = generate::render_of(u);
    let stem = u.stem_or_empty();
    roundtrip::law_round_trip(u);
    assert(entry_of(u.scope, files).owned);
    lemma_suffixed(stem);
    lemma_suffixes_differ();
    match u.body {
        BodyView::Timer(_) => {
            lemma_one_group(u.scope, files, foreign, stem, "timer"@, "service"@);
        },
        BodyView::Service(_) => {
            lemma_one_group(u.scope, files, foreign, stem, "service"@, "service"@);
        },
        BodyView::Mount(m) => {
            if m.automount {
                lemma_one_group(u.scope, files, foreign, stem, "automount"@, "mount"@);
            } else {
                lemma_one_group(u.scope, files, foreign, stem, "mount"@, "mount"@);
            }
        },
    }
}

proof fn lemma_join_longer(p: Seq<Seq<char>>, sep: Seq<char>)
    requires
        p.len() > 0,
    ensures
        parts::join_of(p, sep).len() >= p[0].len(),
    decreases p.len(),
{
    if p.len() > 1 {
        lemma_join_longer(p.drop_last(), sep);
    }
}

// ---------------------------------------------------------------------------
// What removing takes
// ---------------------------------------------------------------------------

/// Removing a unit takes exactly those of its files that are there.
pub proof fn law_what_exists_is_removed(
    dir: Seq<char>,
    files: Seq<Seq<char>>,
    exists_now: Seq<bool>,
    path: Seq<char>,
)
    requires
        files.len() <= exists_now.len(),
    ensures
        present_of(dir, files, exists_now).contains(path) <==> exists|i: int|
            0 <= i < files.len() && exists_now[i] && #[trigger] paths::join_of(dir, files[i])
                == path,
    decreases files.len(),
{
    let all = present_of(dir, files, exists_now);
    if files.len() > 0 {
        let less = files.drop_last();
        let rest = present_of(dir, less, exists_now);
        let n = files.len() - 1;
        law_what_exists_is_removed(dir, less, exists_now, path);
        if all.contains(path) {
            let k = choose|k: int| 0 <= k < all.len() && all[k] == path;
            if k < rest.len() {
                assert(rest[k] == path);
                let i = choose|i: int|
                    0 <= i < less.len() && exists_now[i] && #[trigger] paths::join_of(dir, less[i])
                        == path;
                assert(paths::join_of(dir, files[i]) == path);
            } else {
                assert(paths::join_of(dir, files[n]) == path);
            }
        }
        if exists|i: int|
            0 <= i < files.len() && exists_now[i] && #[trigger] paths::join_of(dir, files[i])
                == path {
            let i = choose|i: int|
                0 <= i < files.len() && exists_now[i] && #[trigger] paths::join_of(dir, files[i])
                    == path;
            if i < n {
                assert(paths::join_of(dir, less[i]) == path);
                let k = choose|k: int| 0 <= k < rest.len() && rest[k] == path;
                assert(all[k] == path);
            } else {
                assert(all[rest.len() as int] == path);
            }
        }
    }
}

/// An installed file lies below the unit directory under its own name, and
/// holds what was rendered for it.
pub proof fn law_files_are_placed_by_name(files: Seq<FileView>, dir: Seq<char>, i: int)
    requires
        0 <= i < files.len(),
        dir.len() > 0,
        dir.last() != '/',
        files[i].name.len() > 0,
        !files[i].name.contains('/'),
    ensures
        placed_of(files, dir).len() == files.len(),
        placed_of(files, dir)[i].body == files[i].body,
        parts::rsplit_once_of(placed_of(files, dir)[i].name, '/') == Some((dir, files[i].name)),
{
    let name = files[i].name;
    reveal_strlit("/");
    assert(name.contains(name[0]));
    let p = dir + "/"@ + name;
    let k = dir.len() as int;
    assert(p[k] == '/');
    assert forall|j: int| k < j < p.len() implies #[trigger] p[j] != '/' by {
        assert(p[j] == name[j - k - 1]);
        assert(name.contains(name[j - k - 1]));
    }
    text::lemma_last_index_at(p, '/', k);
    assert(p.take(k) =~= dir);
    assert(p.skip(k + 1) =~= name);
}

// ---------------------------------------------------------------------------
// Places and answers
// ---------------------------------------------------------------------------

/// The system's units have one place, whatever the environment says; a
/// user's follow `$XDG_CONFIG_HOME` where it is set, and the home directory
/// otherwise.
pub proof fn law_units_have_their_place(
    x: Seq<char>,
    home: Seq<char>,
    xdg: Option<Seq<char>>,
    h: Option<Seq<char>>,
)
    requires
        x.len() > 0,
        x.last() != '/',
        home.len() > 0,
        home.last() != '/',
    ensures
        unit_dir_of(Scope::System, xdg, h) == "/etc/systemd/system"@,
        unit_dir_of(Scope::User, Some(x), h) == x + "/systemd/user"@,
        unit_dir_of(Scope::User, None, Some(home)) == home + "/.config/systemd/user"@,
        unit_dir_of(Scope::User, Some(seq![]), Some(home)) == unit_dir_of(
            Scope::User,
            None,
            Some(home),
        ),
{
    reveal_strlit("/");
    reveal_strlit("systemd/user");
    reveal_strlit("/systemd/user");
    reveal_strlit(".config/systemd/user");
    reveal_strlit("/.config/systemd/user");
    assert(unit_dir_of(Scope::User, Some(x), h) =~= x + "/systemd/user"@);
    assert(unit_dir_of(Scope::User, None, Some(home)) =~= home + "/.config/systemd/user"@);
}

/// What a command printed is shown in full: its output first, then what it
/// complained about, on a line of its own.
pub proof fn law_both_outputs_are_shown(stdout: Seq<char>, stderr: Seq<char>)
    ensures
        stdout.is_prefix_of(combined_of(stdout, stderr)),
        !text::is_blank(stderr) ==> stderr.is_suffix_of(combined_of(stdout, stderr)),
        text::is_blank(stderr) ==> combined_of(stdout, stderr) == stdout,
        ({
            let n = combined_of(stdout, stderr).len() - stderr.len();
            !text::is_blank(stderr) && n > 0 ==> combined_of(stdout, stderr)[n - 1] == '\n'
        }),
{
    let c = combined_of(stdout, stderr);
    assert(c.take(stdout.len() as int) =~= stdout);
    if !text::is_blank(stderr) {
        assert(c.skip(c.len() - stderr.len()) =~= stderr);
    }
}

/// The specs that are asked about are those that say something.
pub proof fn law_blank_specs_are_left_out(specs: Seq<Seq<char>>, s: Seq<char>)
    ensures
        live_of(specs).contains(s) == (specs.contains(s) && !text::is_blank(s)),
    decreases specs.len(),
{
    let all = live_of(specs);
    if specs.len() > 0 {
        let less = specs.drop_last();
        let rest = live_of(less);
        law_blank_specs_are_left_out(less, s);
        if specs.contains(s) {
            let k = choose|k: int| 0 <= k < specs.len() && specs[k] == s;
            if k < less.len() {
                assert(less[k] == s);
            }
        }
        if less.contains(s) {
            let k = choose|k: int| 0 <= k < less.len() && less[k] == s;
            assert(specs[k] == s);
        }
        if all.contains(s) {
            let k = choose|k: int| 0 <= k < all.len() && all[k] == s;
            if k < rest.len() {
                assert(rest[k] == s);
            } else {
                assert(specs[specs.len() - 1] == s);
            }
        }
        if rest.contains(s) {
            let k = choose|k: int| 0 <= k < rest.len() && rest[k] == s;
            assert(all[k] == s);
        }
        if specs.last() == s && !text::is_blank(s) {
            assert(all[rest.len() as int] == s);
        }
    }
}

} // verus!
