//! Canned units and the smart defaults the builder offers.
//!
//! A template is a fully populated [`Unit`], not a skeleton: the schedule,
//! description and `[Service]` knobs are all set to something that would
//! actually be right for that kind of job, so the user edits paths rather
//! than inventing a whole unit. The `ExecStart=` lines are deliberately
//! obvious placeholders -- real paths, real flags, clearly meant to be
//! replaced.

use crate::calendar;
use crate::cli;
use crate::number;
use crate::parts;
use crate::text;
use crate::unit::escape;
use crate::unit::model;
use crate::unit::model::{
    Body, BodyView, MountPreset, MountUnit, MountView, Schedule, ScheduleView, Scope, ServiceType,
    ServiceView, TimerJob, TimerView, Unit, UnitView,
};
use crate::validate;
use vstd::prelude::*;

verus! {

broadcast use vstd::string::group_string_axioms;

// ---------------------------------------------------------------------------
// Templates
// ---------------------------------------------------------------------------

/// Identifies a template. Stable strings, so a caller can persist a choice.
#[derive(Debug, Clone, Copy, PartialEq, Eq, Structural)]
pub enum TemplateId {
    Backup,
    Sync,
    CacheWarmer,
}

impl TemplateId {
    /// The key of a template.
    pub open spec fn key_of(self) -> Seq<char> {
        match self {
            TemplateId::Backup => "backup"@,
            TemplateId::Sync => "sync"@,
            TemplateId::CacheWarmer => "cache-warmer"@,
        }
    }

    /// The template with that key.
    pub open spec fn keyed(key: Seq<char>) -> Option<TemplateId> {
        if key == "backup"@ {
            Some(TemplateId::Backup)
        } else if key == "sync"@ {
            Some(TemplateId::Sync)
        } else if key == "cache-warmer"@ {
            Some(TemplateId::CacheWarmer)
        } else {
            None
        }
    }

    /// The menu label of a template.
    pub open spec fn label_of(self) -> Seq<char> {
        match self {
            TemplateId::Backup => "Nightly backup"@,
            TemplateId::Sync => "Periodic sync"@,
            TemplateId::CacheWarmer => "Cache warmer"@,
        }
    }

    /// What a template sets up, in one line.
    pub open spec fn detail_of(self) -> Seq<char> {
        match self {
            TemplateId::Backup => "rsync to a backup target at 02:30, catching up after downtime"@,
            TemplateId::Sync => "rsync to a remote every 15 minutes, jittered"@,
            TemplateId::CacheWarmer => "hit an endpoint every 5 minutes to keep a cache hot"@,
        }
    }

    /// All templates, in the order they are offered.
    pub open spec fn all_of() -> Seq<TemplateId> {
        seq![TemplateId::Backup, TemplateId::Sync, TemplateId::CacheWarmer]
    }

    /// All templates, in the order they are offered.
    pub fn all() -> (r: Vec<TemplateId>)
        ensures
            r@ == TemplateId::all_of(),
    {
        vec![TemplateId::Backup, TemplateId::Sync, TemplateId::CacheWarmer]
    }

    /// Stable machine-readable id.
    pub fn key(self) -> (r: &'static str)
        ensures
            r@ == self.key_of(),
    {
        match self {
            TemplateId::Backup => "backup",
            TemplateId::Sync => "sync",
            TemplateId::CacheWarmer => "cache-warmer",
        }
    }

    /// Menu label.
    pub fn label(self) -> (r: &'static str)
        ensures
            r@ == self.label_of(),
    {
        match self {
            TemplateId::Backup => "Nightly backup",
            TemplateId::Sync => "Periodic sync",
            TemplateId::CacheWarmer => "Cache warmer",
        }
    }

    /// One-line explanation of what the template sets up.
    pub fn detail(self) -> (r: &'static str)
        ensures
            r@ == self.detail_of(),
    {
        match self {
            TemplateId::Backup => "rsync to a backup target at 02:30, catching up after downtime",
            TemplateId::Sync => "rsync to a remote every 15 minutes, jittered",
            TemplateId::CacheWarmer => "hit an endpoint every 5 minutes to keep a cache hot",
        }
    }

    pub fn parse(key: &str) -> (r: Option<TemplateId>)
        ensures
            r == TemplateId::keyed(key@),
    {
        if text::same(key, "backup") {
            Some(TemplateId::Backup)
        } else if text::same(key, "sync") {
            Some(TemplateId::Sync)
        } else if text::same(key, "cache-warmer") {
            Some(TemplateId::CacheWarmer)
        } else {
            None
        }
    }

    /// The unit of a template.
    pub open spec fn unit_of(self, scope: Scope) -> UnitView {
        match self {
            TemplateId::Backup => backup_of(scope),
            TemplateId::Sync => sync_of(scope),
            TemplateId::CacheWarmer => warmer_of(scope),
        }
    }

    /// Build the unit for this template.
    pub fn build(self, scope: Scope) -> (r: Unit)
        ensures
            r@ == self.unit_of(scope),
    {
        match self {
            TemplateId::Backup => backup_job(scope),
            TemplateId::Sync => sync_job(scope),
            TemplateId::CacheWarmer => cache_warmer(scope),
        }
    }
}

/// A template is found again by its key.
pub proof fn law_template_keys(t: TemplateId)
    ensures
        TemplateId::keyed(t.key_of()) == Some(t),
{
    reveal_strlit("backup");
    reveal_strlit("sync");
    reveal_strlit("cache-warmer");
    assert("backup"@.len() == 6 && "sync"@.len() == 4 && "cache-warmer"@.len() == 12);
}

/// A timer built from a blank one.
pub open spec fn template_of(
    scope: Scope,
    name: Seq<char>,
    description: Seq<char>,
    body: TimerView,
) -> UnitView {
    UnitView { name, description, scope, body: BodyView::Timer(body) }
}

/// The nightly backup.
pub open spec fn backup_of(scope: Scope) -> UnitView {
    template_of(
        scope,
        "backup"@,
        "Nightly backup"@,
        TimerView {
            schedule: ScheduleView::Calendar(seq!["*-*-* 02:30:00"@]),
            source: "nightly at 02:30"@,
            persistent: true,
            randomized_delay: Some("15min"@),
            service: ServiceView {
                exec_start: "/usr/bin/rsync -aHAX --delete /home/ /srv/backup/home/"@,
                ..model::blank_service(ServiceType::Oneshot)
            },
            service_manual:
                "# Refuse to run if the backup target is not mounted.\nExecStartPre=/usr/bin/mountpoint -q /srv/backup\nNice=10\nIOSchedulingClass=idle\n"@,
            timer_manual: seq![],
        },
    )
}

/// The periodic sync.
pub open spec fn sync_of(scope: Scope) -> UnitView {
    template_of(
        scope,
        "sync"@,
        "Periodic sync to remote"@,
        TimerView {
            schedule: ScheduleView::Every { every: "15min"@, boot: "5min"@ },
            source: "every 15 minutes"@,
            persistent: false,
            randomized_delay: Some("2min"@),
            service: ServiceView {
                exec_start: "/usr/bin/rsync -az --delete /srv/data/ user@remote:/srv/data/"@,
                ..model::blank_service(ServiceType::Oneshot)
            },
            service_manual:
                "# Do not let a stalled transfer overlap the next run.\nTimeoutStartSec=10min\n"@,
            timer_manual: seq![],
        },
    )
}

/// The cache warmer.
pub open spec fn warmer_of(scope: Scope) -> UnitView {
    template_of(
        scope,
        "cache-warmer"@,
        "Keep the application cache warm"@,
        TimerView {
            schedule: ScheduleView::Every { every: "5min"@, boot: "1min"@ },
            source: "every 5 minutes"@,
            persistent: false,
            randomized_delay: None,
            service: ServiceView {
                exec_start:
                    "/usr/bin/curl -fsS -o /dev/null --max-time 30 http://localhost:8080/warm"@,
                ..model::blank_service(ServiceType::Oneshot)
            },
            service_manual: "TimeoutStartSec=1min\n"@,
            timer_manual: seq![],
        },
    )
}

/// A timer with these settings.
fn timer(scope: Scope, name: &str, description: &str, t: TimerJob) -> (r: Unit)
    ensures
        r@ == template_of(scope, name@, description@, t@),
{
    Unit {
        name: name.to_owned(),
        description: description.to_owned(),
        scope,
        body: Body::Timer(Box::new(t)),
    }
}

/// A nightly rsync backup.
///
/// `Persistent=true` is the point of this one: a laptop that was asleep at
/// 02:30 runs the backup as soon as it comes back, which is what a person
/// means by "nightly backup". The randomized delay keeps a fleet of machines
/// from hitting the same NAS on the same second.
pub fn backup_job(scope: Scope) -> (r: Unit)
    ensures
        r@ == backup_of(scope),
{
    let specs: Vec<String> = vec!["*-*-* 02:30:00".to_owned()];
    assert(text::texts(specs@) =~= seq!["*-*-* 02:30:00"@]);
    let mut t = TimerJob::default();
    t.schedule = Schedule::Calendar(specs);
    t.source = "nightly at 02:30".to_owned();
    t.persistent = true;
    t.randomized_delay = Some("15min".to_owned());
    t.service.exec_start = "/usr/bin/rsync -aHAX --delete /home/ /srv/backup/home/".to_owned();
    // A backup that silently writes to an unmounted mount point is the
    // classic failure; fail loudly instead.
    t.service_manual =
        "# Refuse to run if the backup target is not mounted.\nExecStartPre=/usr/bin/mountpoint -q /srv/backup\nNice=10\nIOSchedulingClass=idle\n".to_owned();
    timer(scope, "backup", "Nightly backup", t)
}

/// A frequent one-way sync to a remote.
///
/// Interval-driven rather than calendar-driven: "every 15 minutes from when
/// the machine came up" is the honest description, and it means no thundering
/// herd on the quarter hour. `Persistent=` does not apply to interval timers,
/// so it is off.
pub fn sync_job(scope: Scope) -> (r: Unit)
    ensures
        r@ == sync_of(scope),
{
    let mut t = TimerJob::default();
    t.schedule = Schedule::Every { every: "15min".to_owned(), boot: "5min".to_owned() };
    t.source = "every 15 minutes".to_owned();
    t.persistent = false;
    t.randomized_delay = Some("2min".to_owned());
    t.service.exec_start =
        "/usr/bin/rsync -az --delete /srv/data/ user@remote:/srv/data/".to_owned();
    t.service_manual =
        "# Do not let a stalled transfer overlap the next run.\nTimeoutStartSec=10min\n".to_owned();
    timer(scope, "sync", "Periodic sync to remote", t)
}

/// A cache warmer: cheap, frequent, and worthless if run late.
///
/// So: a short interval, no `Persistent=` catch-up (a warm-up for a time that
/// has passed is pointless), and a hard timeout.
pub fn cache_warmer(scope: Scope) -> (r: Unit)
    ensures
        r@ == warmer_of(scope),
{
    let mut t = TimerJob::default();
    t.schedule = Schedule::Every { every: "5min".to_owned(), boot: "1min".to_owned() };
    t.source = "every 5 minutes".to_owned();
    t.persistent = false;
    t.service.exec_start =
        "/usr/bin/curl -fsS -o /dev/null --max-time 30 http://localhost:8080/warm".to_owned();
    t.service_manual = "TimeoutStartSec=1min\n".to_owned();
    timer(scope, "cache-warmer", "Keep the application cache warm", t)
}

/// Every template is a valid unit in every scope, and carries the scope it
/// was asked for.
pub proof fn law_templates_are_valid(t: TemplateId, scope: Scope)
    ensures
        t.unit_of(scope).error_of() is None,
        t.unit_of(scope).scope == scope,
{
    reveal_strlit("backup");
    reveal_strlit("sync");
    reveal_strlit("cache-warmer");
    reveal_strlit("*-*-* 02:30:00");
    reveal_strlit("15min");
    reveal_strlit("5min");
    reveal_strlit("1min");
    reveal_strlit("/usr/bin/rsync -aHAX --delete /home/ /srv/backup/home/");
    reveal_strlit("/usr/bin/rsync -az --delete /srv/data/ user@remote:/srv/data/");
    reveal_strlit("/usr/bin/curl -fsS -o /dev/null --max-time 30 http://localhost:8080/warm");
    let u = t.unit_of(scope);
    let exec = u.body->Timer_0.service.exec_start;
    assert(exec[0] == '/' && !text::is_white(exec.last()));
    text::lemma_trim_tight(exec);
    text::lemma_trim_tight("*-*-* 02:30:00"@);
    text::lemma_trim_tight("15min"@);
    text::lemma_trim_tight("5min"@);
    text::lemma_trim_tight("1min"@);
    assert forall|i: int| 0 <= i < u.name.len() implies model::is_name_char(
        #[trigger] u.name[i],
    ) by {}
    let sched = u.body->Timer_0.schedule;
    if sched is Calendar {
        assert(sched->Calendar_0[0] == "*-*-* 02:30:00"@);
        assert(!text::is_blank(sched->Calendar_0[0]));
        assert(model::any_text(sched->Calendar_0));
    }
}

// ---------------------------------------------------------------------------
// Smart defaults
// ---------------------------------------------------------------------------

/// Suggest a `WorkingDirectory=` from the directory the program was started
/// in. `None` when that is gone or not absolute, in which case the field is
/// better left empty than filled with something systemd will reject.
pub fn suggest_working_directory(cwd: &Option<String>) -> (r: Option<String>)
    ensures
        text::opt_text(r) == if cwd is Some && cwd->0@.len() > 0 && cwd->0@[0] == '/' {
            text::opt_text(*cwd)
        } else {
            None
        },
{
    if let Some(d) = cwd {
        if d.as_str().unicode_len() > 0 && d.as_str().get_char(0) == '/' {
            return Some(d.clone());
        }
    }
    None
}

/// The part of a mount source that names something: without the scheme of a
/// URL and without the host before a `:/`.
pub open spec fn local_part(what: Seq<char>) -> Seq<char> {
    let rest = match parts::split_once_str_of(what, "://"@) {
        Some((_, r)) => r,
        None => what,
    };
    match parts::split_once_str_of(rest, ":/"@) {
        Some((host, r)) => if host.len() > 0 && host[0] != '/' {
            r
        } else {
            rest
        },
        None => rest,
    }
}

/// The components of a path that are not empty.
pub open spec fn pieces_of(path: Seq<char>) -> Seq<Seq<char>> {
    parts::full_of(parts::split_of(path, '/'))
}

/// The name of the directory that a mount source suggests: its last component,
/// shortened where it is an unreadable id.
pub open spec fn mount_name_of(pieces: Seq<Seq<char>>) -> Seq<char> {
    let last = pieces.last();
    if pieces.len() > 1 && (pieces[pieces.len() - 2] == "by-uuid"@ || pieces[pieces.len() - 2]
        == "by-partuuid"@) {
        escape::slug_of("disk-"@ + escape::clip_of(last, 8))
    } else {
        escape::slug_of(last)
    }
}

/// The mount point that a mount source suggests.
pub open spec fn where_of(what: Seq<char>) -> Option<Seq<char>> {
    let t = text::strip_end_of(text::trim_of(what), '/');
    let pieces = pieces_of(local_part(t));
    if t.len() == 0 || pieces.len() == 0 || mount_name_of(pieces).len() == 0 {
        None
    } else {
        Some("/mnt/"@ + mount_name_of(pieces))
    }
}

/// Suggest a mount point (`Where=`) from a mount source (`What=`).
///
/// Handles the forms the presets produce:
///
/// | `What=`                          | suggestion         |
/// |----------------------------------|--------------------|
/// | `//server/share`                 | `/mnt/share`       |
/// | `server:/export/data`            | `/mnt/data`        |
/// | `nfs://server/export/data`       | `/mnt/data`        |
/// | `/dev/sdb1`                      | `/mnt/sdb1`        |
/// | `/dev/disk/by-label/photos`      | `/mnt/photos`      |
/// | `/dev/disk/by-uuid/1234abcd-...` | `/mnt/disk-1234abcd` |
/// | `/srv/source` (bind)             | `/mnt/source`      |
///
/// Returns `None` when there is no meaningful last component to name the
/// mount point after.
pub fn suggest_where(what: &str) -> (r: Option<String>)
    ensures
        text::opt_text(r) == where_of(what@),
{
    let t = text::strip_end(text::trim(what), '/');
    if t.is_empty() {
        return None;
    }
    let rest = match parts::split_once_str(t, "://") {
        Some((_, r)) => r,
        None => t,
    };
    let local = match parts::split_once_str(rest, ":/") {
        Some((host, r)) => if host.unicode_len() > 0 && host.get_char(0) != '/' {
            r
        } else {
            rest
        },
        None => rest,
    };
    let split = parts::split(local, '/');
    let pieces = parts::full(&split);
    let ghost all = text::texts(pieces@);
    let n: usize = pieces.len();
    assert(all.len() == n);
    if n == 0 {
        return None;
    }
    assert(all.last() == pieces@[n - 1]@);
    let by_id = n > 1 && (text::same(pieces[n - 2].as_str(), "by-uuid") || text::same(
        pieces[n - 2].as_str(),
        "by-partuuid",
    ));
    assert(n > 1 ==> all[n - 2] == pieces@[n - 2]@);
    let name = if by_id {
        let short = escape::clip(pieces[n - 1].as_str(), 8);
        let long = text::cat2("disk-", short.as_str());
        escape::slugify(long.as_str())
    } else {
        escape::slugify(pieces[n - 1].as_str())
    };
    if name.as_str().is_empty() {
        None
    } else {
        Some(text::cat2("/mnt/", name.as_str()))
    }
}

/// The name that a command line suggests for its job.
pub open spec fn name_of(line: Seq<char>) -> Seq<char> {
    let t = text::trim_of(line);
    if t.len() == 0 {
        seq![]
    } else if escape::needs_shell_of(t) {
        escape::slug_of(cli::hint_of(seq![t], true))
    } else {
        let args = validate::split_exec_of(t);
        if args.len() == 0 {
            seq![]
        } else {
            escape::slug_of(cli::hint_of(args, false))
        }
    }
}

/// Suggest a unit name from a command line.
///
/// Leaves the "which token names this job" decision to the same
/// [`cli::build_exec`] the `add` subcommand uses, so a job created in the TUI
/// and the same job created from the shell get the same name.
pub fn suggest_name(command_line: &str) -> (r: String)
    ensures
        r@ == name_of(command_line@),
{
    let line = text::trim(command_line);
    if line.is_empty() {
        return String::new();
    }
    if escape::needs_shell(line) {
        let one: Vec<String> = vec![line.to_owned()];
        assert(text::texts(one@) =~= seq![line@]);
        let (_, hint) = cli::build_exec(&one, true);
        return escape::slugify(hint.as_str());
    }
    let args = validate::split_exec(line);
    assert(text::texts(args@).len() == args@.len());
    if args.len() == 0 {
        return String::new();
    }
    let (_, hint) = cli::build_exec(&args, false);
    escape::slugify(hint.as_str())
}

/// A suggested name that is not empty is a usable unit name.
pub proof fn law_suggested_names_are_usable(line: Seq<char>)
    ensures
        name_of(line).len() > 0 ==> model::name_error(name_of(line)) is None,
{
    let t = text::trim_of(line);
    let args = validate::split_exec_of(t);
    escape::law_slug_shape(cli::hint_of(seq![t], true));
    escape::law_slug_shape(cli::hint_of(args, false));
    let n = name_of(line);
    assert forall|i: int| 0 <= i < n.len() implies model::is_name_char(#[trigger] n[i]) by {
        assert(escape::is_slug_char(n[i]));
    }
}

// ---------------------------------------------------------------------------
// Cloning
// ---------------------------------------------------------------------------

/// The `k`th name to try: the first is bare, the others are numbered.
pub open spec fn copy_of(first: Seq<char>, k: nat) -> Seq<char> {
    if k <= 1 {
        first
    } else {
        first + "-"@ + number::decimal(k)
    }
}

/// Whether `r` is the first of the names to try that is not taken.
pub open spec fn is_fresh(r: Seq<char>, first: Seq<char>, taken: Seq<Seq<char>>) -> bool {
    &&& !taken.contains(r)
    &&& exists|k: nat| #[trigger] is_fresh_at(r, first, taken, k)
}

/// Whether `r` is the `k`th name to try and all before it are taken.
pub open spec fn is_fresh_at(r: Seq<char>, first: Seq<char>, taken: Seq<Seq<char>>, k: nat) -> bool {
    &&& k >= 1
    &&& r == copy_of(first, k)
    &&& forall|j: nat| 1 <= j < k ==> taken.contains(#[trigger] copy_of(first, j))
}

proof fn lemma_copies_differ(first: Seq<char>, a: nat, b: nat)
    requires
        1 <= a < b,
    ensures
        copy_of(first, a) != copy_of(first, b),
{
    reveal_strlit("-");
    let x = copy_of(first, a);
    let y = copy_of(first, b);
    number::lemma_decimal_digits(b);
    if a <= 1 {
        assert(x.len() < y.len());
    } else if x == y {
        let n = first.len() as int + 1;
        assert(x.skip(n) =~= number::decimal(a));
        assert(y.skip(n) =~= number::decimal(b));
        number::lemma_decimal_value(a);
        number::lemma_decimal_value(b);
    }
}

/// No more names than there are can be taken.
proof fn lemma_pigeonhole(first: Seq<char>, taken: Seq<Seq<char>>, k: nat)
    requires
        forall|j: nat| 1 <= j <= k ==> taken.contains(#[trigger] copy_of(first, j)),
    ensures
        k <= taken.len(),
{
    let s = Seq::new(k, |i: int| copy_of(first, (i + 1) as nat));
    assert(s.no_duplicates()) by {
        assert forall|i: int, j: int| 0 <= i < s.len() && 0 <= j < s.len() && i != j implies s[i]
            != s[j] by {
            if i < j {
                lemma_copies_differ(first, (i + 1) as nat, (j + 1) as nat);
            } else {
                lemma_copies_differ(first, (j + 1) as nat, (i + 1) as nat);
            }
        }
    }
    s.unique_seq_to_set();
    assert(s.to_set().subset_of(taken.to_set())) by {
        assert forall|x: Seq<char>| s.to_set().contains(x) implies taken.to_set().contains(x) by {
            let i = choose|i: int| 0 <= i < s.len() && s[i] == x;
            assert(taken.contains(copy_of(first, (i + 1) as nat)));
        }
    }
    vstd::seq_lib::seq_to_set_is_finite(taken);
    vstd::set_lib::lemma_len_subset(s.to_set(), taken.to_set());
    taken.lemma_cardinality_of_set();
}

fn is_taken(name: &str, taken: &[String]) -> (r: bool)
    ensures
        r == text::texts(taken@).contains(name@),
{
    let ghost all = text::texts(taken@);
    let mut i: usize = 0;
    while i < taken.len()
        invariant
            i <= taken@.len(),
            all == text::texts(taken@),
            forall|k: int| 0 <= k < i ==> #[trigger] all[k] != name@,
        decreases taken@.len() - i,
    {
        assert(all[i as int] == taken@[i as int]@);
        if text::same(taken[i].as_str(), name) {
            return true;
        }
        i += 1;
    }
    false
}

/// The first of the names to try that is not taken.
fn fresh(first: &str, taken: &[String]) -> (r: String)
    requires
        taken@.len() < usize::MAX,
    ensures
        is_fresh(r@, first@, text::texts(taken@)),
{
    let ghost all = text::texts(taken@);
    let mut candidate = first.to_owned();
    let mut n: usize = 1;
    while is_taken(candidate.as_str(), taken)
        invariant
            taken@.len() < usize::MAX,
            all == text::texts(taken@),
            1 <= n,
            n <= taken@.len() + 1,
            candidate@ == copy_of(first@, n as nat),
            forall|j: nat| 1 <= j < n ==> all.contains(#[trigger] copy_of(first@, j)),
        decreases taken@.len() + 1 - n,
    {
        proof {
            assert forall|j: nat| 1 <= j <= n implies all.contains(
                #[trigger] copy_of(first@, j),
            ) by {}
            lemma_pigeonhole(first@, all, n as nat);
        }
        n += 1;
        let digits = number::usize_decimal(n);
        candidate = text::cat3(first, "-", digits.as_str());
    }
    assert(is_fresh_at(candidate@, first@, all, n as nat));
    candidate
}

/// The names of units without the program's prefix.
pub open spec fn bare_names(existing: Seq<Seq<char>>) -> Seq<Seq<char>> {
    Seq::new(existing.len(), |i: int| model::unprefixed_of(existing[i]))
}

/// The first name to try for a copy.
pub open spec fn first_copy(base: Seq<char>) -> Seq<char> {
    let b = text::strip_end_of(base, '-');
    (if b.len() == 0 {
        "unit"@
    } else {
        b
    }) + "-copy"@
}

/// Pick a name like `foo-copy`, then `foo-copy-2`, that no existing unit has.
///
/// `existing` may be given with or without the `notcron-` prefix; both are
/// compared unprefixed, since that is the name the user actually types.
pub fn dedup_name(base: &str, existing: &[String]) -> (r: String)
    requires
        existing@.len() < usize::MAX,
    ensures
        is_fresh(r@, first_copy(base@), bare_names(text::texts(existing@))),
{
    let ghost all = text::texts(existing@);
    let ghost want = bare_names(all);
    let mut taken: Vec<String> = Vec::new();
    let mut i: usize = 0;
    while i < existing.len()
        invariant
            i <= existing@.len(),
            all == text::texts(existing@),
            want == bare_names(all),
            text::texts(taken@) == want.take(i as int),
        decreases existing@.len() - i,
    {
        assert(all[i as int] == existing@[i as int]@);
        let ghost before = text::texts(taken@);
        taken.push(model::unprefixed(existing[i].as_str()));
        assert(text::texts(taken@) =~= before.push(want[i as int]));
        assert(before.push(want[i as int]) =~= want.take(i + 1));
        i += 1;
    }
    assert(text::texts(taken@) =~= want);
    assert(text::texts(taken@).len() == taken@.len());
    let b = text::strip_end(base, '-');
    let first = if b.is_empty() {
        text::cat2("unit", "-copy")
    } else {
        text::cat2(b, "-copy")
    };
    fresh(first.as_str(), &taken)
}

/// Whether `r` is the mount point of a copy: below the same parent, with the
/// first free name.
pub open spec fn is_fresh_where(r: Seq<char>, where_: Seq<char>, existing: Seq<Seq<char>>) -> bool {
    let t = text::strip_end_of(where_, '/');
    match parts::rsplit_once_of(t, '/') {
        Some((_, last)) => if last.len() > 0 {
            is_fresh(r, t + "-copy"@, existing)
        } else {
            is_fresh(r, first_copy(t), bare_names(existing))
        },
        None => is_fresh(r, first_copy(t), bare_names(existing)),
    }
}

/// The same, for the *mount point* of a mount unit: `/mnt/data` becomes
/// `/mnt/data-copy`, since a mount unit's name is dictated by `Where=`.
fn dedup_where(where_: &str, existing: &[String]) -> (r: String)
    requires
        existing@.len() < usize::MAX,
    ensures
        is_fresh_where(r@, where_@, text::texts(existing@)),
{
    let t = text::strip_end(where_, '/');
    match parts::rsplit_once(t, '/') {
        Some((_, last)) => if !last.is_empty() {
            let first = text::cat2(t, "-copy");
            fresh(first.as_str(), existing)
        } else {
            dedup_name(t, existing)
        },
        None => dedup_name(t, existing),
    }
}

/// The description of a copy.
pub open spec fn copy_description(d: Seq<char>) -> Seq<char> {
    if text::is_blank(d) {
        "copy"@
    } else {
        text::trim_of(d) + " (copy)"@
    }
}

/// Whether a unit is a copy of another one, under a name of its own.
pub open spec fn is_copy(c: UnitView, src: UnitView, existing: Seq<Seq<char>>) -> bool {
    &&& c.description == copy_description(src.description)
    &&& c.scope == src.scope
    &&& match src.body {
        BodyView::Mount(m) => {
            &&& c.name == src.name
            &&& c.body matches BodyView::Mount(n)
            &&& is_fresh_where(n.where_, m.where_, existing)
            &&& n == (MountView { where_: n.where_, ..m })
        },
        _ => {
            &&& c.body == src.body
            &&& is_fresh(c.name, first_copy(src.name), bare_names(existing))
        },
    }
}

/// "New from existing": a copy of `src` ready to be edited and installed
/// under a new identity.
///
/// The copy gets a fresh, non-colliding name (`existing` is the list of names
/// already in use -- unit names for timers and services, mount points for
/// mounts) and a description marked as a copy. Nothing about the original's
/// installed state comes along: the clone is not installed until it is
/// written.
pub fn clone_unit(src: &Unit, existing: &[String]) -> (r: Unit)
    requires
        existing@.len() < usize::MAX,
    ensures
        is_copy(r@, src@, text::texts(existing@)),
{
    let d = text::trim(src.description.as_str());
    let description = if d.is_empty() {
        "copy".to_owned()
    } else {
        text::cat2(d, " (copy)")
    };
    match &src.body {
        Body::Mount(m) => {
            let mut copy = (**m).clone();
            copy.where_ = dedup_where(m.where_.as_str(), existing);
            Unit {
                name: src.name.clone(),
                description,
                scope: src.scope,
                body: Body::Mount(Box::new(copy)),
            }
        },
        _ => Unit {
            name: dedup_name(src.name.as_str(), existing),
            description,
            scope: src.scope,
            body: src.body.clone(),
        },
    }
}

/// The mount that a source suggests.
pub open spec fn mount_for(preset: MountPreset, what: Seq<char>) -> UnitView {
    let m = MountView {
        preset,
        what: text::trim_of(what),
        where_: match where_of(what) {
            Some(w) => w,
            None => seq![],
        },
        fstype: preset.fstype_of(),
        options: preset.options_of(),
        ..model::blank_mount()
    };
    UnitView {
        name: seq![],
        description: if m.where_.len() == 0 {
            seq![]
        } else {
            "Mount "@ + m.what + " at "@ + m.where_
        },
        scope: Scope::System,
        body: BodyView::Mount(m),
    }
}

/// A mount unit prefilled from a `What=`, with the preset's defaults and a
/// suggested mount point. Convenience for the builder's "new mount" flow.
pub fn mount_from_what(preset: MountPreset, what: &str) -> (r: Unit)
    ensures
        r@ == mount_for(preset, what@),
{
    let where_ = match suggest_where(what) {
        Some(w) => w,
        None => String::new(),
    };
    let mut m = MountUnit::default();
    m.preset = preset;
    m.what = text::trim(what).to_owned();
    m.where_ = where_;
    m.fstype = preset.fstype().to_owned();
    m.options = preset.options().to_owned();
    let description = if m.where_.as_str().is_empty() {
        String::new()
    } else {
        let head = text::cat3("Mount ", m.what.as_str(), " at ");
        text::cat2(head.as_str(), m.where_.as_str())
    };
    let r = Unit {
        name: String::new(),
        description,
        scope: Scope::System,
        body: Body::Mount(Box::new(m)),
    };
    assert(r@ =~= mount_for(preset, what@));
    r
}

// ---------------------------------------------------------------------------
// What is suggested for a mount
// ---------------------------------------------------------------------------

/// A text without colons is not split at one.
proof fn lemma_no_colon(s: Seq<char>, p: Seq<char>)
    requires
        !s.contains(':'),
        p.len() > 0,
        p[0] == ':',
    ensures
        parts::split_once_str_of(s, p) is None,
        text::before_of(s, p) == s,
    decreases s.len(),
{
    let k = text::before_of(s, p).len() as int;
    if s.len() > 0 {
        assert(!p.is_prefix_of(s)) by {
            if p.is_prefix_of(s) {
                assert(s[0] == p[0]);
                assert(s.contains(s[0]));
            }
        }
        let t = s.skip(1);
        assert(!t.contains(':')) by {
            if t.contains(':') {
                let i = choose|i: int| 0 <= i < t.len() && t[i] == ':';
                assert(s[i + 1] == ':');
            }
        }
        lemma_no_colon(t, p);
        assert(seq![s[0]] + t =~= s);
    }
    assert(s.skip(s.len() as int).len() == 0);
}

/// A text before the first colon of another.
proof fn lemma_at_colon(host: Seq<char>, rest: Seq<char>, p: Seq<char>)
    requires
        !host.contains(':'),
        p.len() > 0,
        p[0] == ':',
        p.is_prefix_of(rest),
    ensures
        parts::split_once_str_of(host + rest, p) == Some((host, rest.skip(p.len() as int))),
        text::before_of(host + rest, p) == host,
    decreases host.len(),
{
    let s = host + rest;
    if host.len() == 0 {
        assert(s =~= rest);
        assert(s.skip(0) =~= s);
        assert(s.take(0) =~= host);
        assert(s.skip(p.len() as int) =~= rest.skip(p.len() as int));
        assert(text::before_of(s, p) =~= host);
    } else {
        assert(!p.is_prefix_of(s)) by {
            if p.is_prefix_of(s) {
                assert(s[0] == p[0]);
                assert(host.contains(host[0]));
            }
        }
        let h = host.skip(1);
        assert(!h.contains(':')) by {
            if h.contains(':') {
                let i = choose|i: int| 0 <= i < h.len() && h[i] == ':';
                assert(host[i + 1] == ':');
            }
        }
        lemma_at_colon(h, rest, p);
        assert(s.skip(1) =~= h + rest);
        assert(seq![host[0]] + h =~= host);
        assert(s.skip(host.len() as int) =~= rest);
        assert(s.take(host.len() as int) =~= host);
        assert(s.skip(host.len() as int + p.len()) =~= rest.skip(p.len() as int));
    }
}

proof fn lemma_full_append(a: Seq<Seq<char>>, b: Seq<Seq<char>>)
    ensures
        parts::full_of(a + b) == parts::full_of(a) + parts::full_of(b),
    decreases b.len(),
{
    if b.len() == 0 {
        assert(a + b =~= a);
        assert(parts::full_of(a) + parts::full_of(b) =~= parts::full_of(a));
    } else {
        assert((a + b).drop_last() =~= a + b.drop_last());
        lemma_full_append(a, b.drop_last());
        assert(parts::full_of(a + b) =~= parts::full_of(a) + parts::full_of(b));
    }
}

/// The last part of a path is its last piece.
proof fn lemma_last_piece(head: Seq<char>, last: Seq<char>)
    requires
        last.len() > 0,
        !last.contains('/'),
    ensures
        pieces_of(head + seq!['/'] + last) == pieces_of(head).push(last),
{
    calendar::lemma_split_list(head, last, '/');
    calendar::lemma_split_one(last, '/');
    lemma_full_append(parts::split_of(head, '/'), seq![last]);
    let one = seq![last];
    assert(one.drop_last() =~= seq![]);
    assert(parts::full_of(one.drop_last()) =~= seq![]);
    assert(parts::full_of(one) =~= one);
    assert(pieces_of(head) + one =~= pieces_of(head).push(last));
}

/// Whether a name stands for a disk by its number.
pub open spec fn names_a_disk(dir: Seq<char>) -> bool {
    dir == "by-uuid"@ || dir == "by-partuuid"@
}

/// A path is mounted below `/mnt`, under its last part.
pub proof fn law_paths_are_mounted_by_their_last_part(head: Seq<char>, last: Seq<char>)
    requires
        last.len() > 0,
        !last.contains('/'),
        !text::is_white(last.last()),
        head.len() == 0 || !text::is_white(head[0]),
        !head.contains(':'),
        !last.contains(':'),
        pieces_of(head).len() > 0 ==> !names_a_disk(pieces_of(head).last()),
        escape::slug_of(last).len() > 0,
    ensures
        where_of(head + seq!['/'] + last) == Some(seq!['/', 'm', 'n', 't', '/'] + escape::slug_of(last)),
{
    let what = head + seq!['/'] + last;
    assert(last.contains(last.last()));
    assert(what.last() == last.last());
    assert(!text::is_white('/'));
    assert(!text::is_white(what[0]));
    text::lemma_trim_tight(what);
    assert(!what.contains(':')) by {
        if what.contains(':') {
            let i = choose|i: int| 0 <= i < what.len() && what[i] == ':';
            if i < head.len() {
                assert(head.contains(head[i]));
            } else if i > head.len() {
                assert(last.contains(last[i - head.len() - 1]));
            }
        }
    }
    reveal_strlit("://");
    reveal_strlit(":/");
    lemma_no_colon(what, "://"@);
    lemma_no_colon(what, ":/"@);
    lemma_last_piece(head, last);
    let p = pieces_of(what);
    assert(p.last() == last);
    if p.len() > 1 {
        assert(p[p.len() - 2] == pieces_of(head).last());
    }
    reveal_strlit("/mnt/");
    assert("/mnt/"@ =~= seq!['/', 'm', 'n', 't', '/']);
}

/// The server of a share makes no difference to where it is mounted.
pub proof fn law_the_server_does_not_matter(host: Seq<char>, path: Seq<char>)
    requires
        host.len() > 0,
        !host.contains(':'),
        host[0] != '/',
        !text::is_white(host[0]),
        path.len() > 1,
        path[0] == '/',
        path[1] != '/',
        path.last() != '/',
        !text::is_white(path.last()),
        !path.contains(':'),
    ensures
        where_of(host + seq![':'] + path) == where_of(path),
{
    let what = host + seq![':'] + path;
    let rest = seq![':'] + path;
    assert(what =~= host + rest);
    reveal_strlit("://");
    reveal_strlit(":/");
    text::lemma_trim_tight(what);
    text::lemma_trim_tight(path);
    lemma_no_colon(path, "://"@);
    lemma_no_colon(path, ":/"@);
    let q = ":/"@;
    assert(q =~= rest.take(2));
    assert(q.is_prefix_of(rest));
    lemma_at_colon(host, rest, q);
    assert(rest.skip(2) =~= path.skip(1));
    lemma_one_slash(host, path);
    assert(local_part(what) == path.skip(1));
    assert(local_part(path) == path);
    let none = Seq::<char>::empty();
    assert(path =~= none + seq!['/'] + path.skip(1));
    calendar::lemma_split_list(none, path.skip(1), '/');
    calendar::lemma_split_one(none, '/');
    lemma_full_append(seq![none], parts::split_of(path.skip(1), '/'));
    let one = seq![none];
    assert(one.drop_last() =~= seq![]);
    assert(parts::full_of(one.drop_last()) =~= seq![]);
    assert(parts::full_of(one) =~= seq![]);
    assert(pieces_of(path) =~= pieces_of(path.skip(1)));
}

/// `host:/path` holds no `://`.
proof fn lemma_one_slash(host: Seq<char>, path: Seq<char>)
    requires
        !host.contains(':'),
        path.len() > 1,
        path[1] != '/',
        !path.contains(':'),
    ensures
        parts::split_once_str_of(host + seq![':'] + path, "://"@) is None,
        text::before_of(host + seq![':'] + path, "://"@) == host + seq![':'] + path,
    decreases host.len(),
{
    let p = "://"@;
    reveal_strlit("://");
    let s = host + seq![':'] + path;
    assert(!p.is_prefix_of(s)) by {
        if p.is_prefix_of(s) {
            assert(s[0] == p[0] && s[2] == p[2]);
            if host.len() > 0 {
                assert(host.contains(host[0]));
            }
        }
    }
    if host.len() == 0 {
        assert(s.skip(1) =~= path);
        lemma_no_colon(path, p);
        assert(seq![s[0]] + path =~= s);
    } else {
        let h = host.skip(1);
        assert(!h.contains(':')) by {
            if h.contains(':') {
                let i = choose|i: int| 0 <= i < h.len() && h[i] == ':';
                assert(host[i + 1] == ':');
            }
        }
        lemma_one_slash(h, path);
        assert(s.skip(1) =~= h + seq![':'] + path);
        assert(seq![s[0]] + s.skip(1) =~= s);
    }
    assert(s.skip(s.len() as int).len() == 0);
}

/// A mount that is suggested mounts what was given, with the type and the
/// options of its preset.
pub proof fn law_suggested_mounts_mount_what_was_given(preset: MountPreset, what: Seq<char>)
    ensures
        mount_for(preset, what).scope == Scope::System,
        mount_for(preset, what).body matches BodyView::Mount(m) && m.what == text::trim_of(what)
            && m.fstype == preset.fstype_of() && m.options == preset.options_of() && !m.automount
            && (where_of(what) is Some ==> m.where_ == where_of(what)->0),
{
}

} // verus!
