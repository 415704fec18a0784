//! What a unit is: a timer with its service, a standalone service, or a
//! mount with an optional automount.

use crate::parts;
use crate::text;
use crate::unit::escape;
use vstd::prelude::*;

verus! {

broadcast use vstd::string::group_string_axioms;

/// The first line of every file this program writes, and how it recognises
/// its own.
pub const MARKER: &'static str = "# Generated by notcron";

/// The directive that marks a unit as owned inside its `[Unit]` section.
pub const X_MARKER: &'static str = "X-NotCron=1";

pub const HOMEPAGE: &'static str = "https://github.com/suchattai-labs/notcron-rs";

/// The line above the free-text block at the end of a unit file.
pub const MANUAL_HEADER: &'static str = "# --- notcron:manual ---";

/// What every timer and service name starts with on disk.
pub const PREFIX: &'static str = "notcron-";

// ---------------------------------------------------------------------------
// Scope
// ---------------------------------------------------------------------------

/// Which service manager a unit belongs to.
#[derive(Debug, Clone, Copy, PartialEq, Eq, Structural)]
pub enum Scope {
    User,
    System,
}

impl Scope {
    /// `user` or `system`.
    pub open spec fn name(self) -> Seq<char> {
        match self {
            Scope::User => "user"@,
            Scope::System => "system"@,
        }
    }

    /// The targets this manager provides for a unit to be wanted by.
    pub open spec fn targets(self) -> Seq<Seq<char>> {
        match self {
            Scope::User => seq![
                "default.target"@,
                "basic.target"@,
                "graphical-session.target"@,
                "timers.target"@,
            ],
            Scope::System => seq![
                "multi-user.target"@,
                "graphical.target"@,
                "network-online.target"@,
                "timers.target"@,
            ],
        }
    }

    /// `user` or `system`.
    pub fn as_str(self) -> (r: &'static str)
        ensures
            r@ == self.name(),
    {
        match self {
            Scope::User => "user",
            Scope::System => "system",
        }
    }

    /// The `systemctl` flag that selects this manager.
    pub fn flag(self) -> (r: &'static str)
        ensures
            r@ == (match self {
                Scope::User => "--user"@,
                Scope::System => "--system"@,
            }),
    {
        match self {
            Scope::User => "--user",
            Scope::System => "--system",
        }
    }

    /// The targets this manager provides for a unit to be wanted by.
    pub fn install_targets(self) -> (r: Vec<&'static str>)
        ensures
            r@.len() == self.targets().len(),
            forall|i: int| 0 <= i < r@.len() ==> (#[trigger] r@[i])@ == self.targets()[i],
    {
        match self {
            Scope::User => vec![
                "default.target",
                "basic.target",
                "graphical-session.target",
                "timers.target",
            ],
            Scope::System => vec![
                "multi-user.target",
                "graphical.target",
                "network-online.target",
                "timers.target",
            ],
        }
    }

    /// Whether this manager provides a target of that name.
    pub fn has_install_target(self, target: &str) -> (r: bool)
        ensures
            r == self.targets().contains(target@),
    {
        let all = self.install_targets();
        let mut i: usize = 0;
        while i < all.len()
            invariant
                i <= all@.len(),
                all@.len() == self.targets().len(),
                forall|k: int| 0 <= k < all@.len() ==> (#[trigger] all@[k])@ == self.targets()[k],
                forall|k: int| 0 <= k < i ==> #[trigger] self.targets()[k] != target@,
            decreases all@.len() - i,
        {
            if text::same(all[i], target) {
                assert(self.targets()[i as int] == target@);
                return true;
            }
            i += 1;
        }
        false
    }

    /// The target a new service is wanted by: the first the manager provides.
    pub fn default_install_target(self) -> (r: &'static str)
        ensures
            r@ == self.targets()[0],
    {
        match self {
            Scope::User => "default.target",
            Scope::System => "multi-user.target",
        }
    }
}

// ---------------------------------------------------------------------------
// Service settings
// ---------------------------------------------------------------------------

/// `Type=` of a service.
#[derive(Debug, Clone, Copy, PartialEq, Eq, Structural)]
pub enum ServiceType {
    Simple,
    Exec,
    Forking,
    Oneshot,
    Notify,
    Idle,
}

impl ServiceType {
    /// The value of `Type=`.
    pub open spec fn name(self) -> Seq<char> {
        match self {
            ServiceType::Simple => "simple"@,
            ServiceType::Exec => "exec"@,
            ServiceType::Forking => "forking"@,
            ServiceType::Oneshot => "oneshot"@,
            ServiceType::Notify => "notify"@,
            ServiceType::Idle => "idle"@,
        }
    }

    /// The type a `Type=` value names.
    pub open spec fn named(s: Seq<char>) -> Option<ServiceType> {
        if s == "simple"@ {
            Some(ServiceType::Simple)
        } else if s == "exec"@ {
            Some(ServiceType::Exec)
        } else if s == "forking"@ {
            Some(ServiceType::Forking)
        } else if s == "oneshot"@ {
            Some(ServiceType::Oneshot)
        } else if s == "notify"@ {
            Some(ServiceType::Notify)
        } else if s == "idle"@ {
            Some(ServiceType::Idle)
        } else {
            None
        }
    }

    /// All types, in the order they are offered.
    pub fn all() -> (r: Vec<ServiceType>)
        ensures
            r@ == seq![
                ServiceType::Simple,
                ServiceType::Exec,
                ServiceType::Forking,
                ServiceType::Oneshot,
                ServiceType::Notify,
                ServiceType::Idle,
            ],
    {
        vec![
            ServiceType::Simple,
            ServiceType::Exec,
            ServiceType::Forking,
            ServiceType::Oneshot,
            ServiceType::Notify,
            ServiceType::Idle,
        ]
    }

    /// The value of `Type=`.
    pub fn as_str(self) -> (r: &'static str)
        ensures
            r@ == self.name(),
    {
        match self {
            ServiceType::Simple => "simple",
            ServiceType::Exec => "exec",
            ServiceType::Forking => "forking",
            ServiceType::Oneshot => "oneshot",
            ServiceType::Notify => "notify",
            ServiceType::Idle => "idle",
        }
    }

    /// The type a `Type=` value names.
    pub fn parse(s: &str) -> (r: Option<ServiceType>)
        ensures
            r == ServiceType::named(s@),
    {
        if text::same(s, "simple") {
            Some(ServiceType::Simple)
        } else if text::same(s, "exec") {
            Some(ServiceType::Exec)
        } else if text::same(s, "forking") {
            Some(ServiceType::Forking)
        } else if text::same(s, "oneshot") {
            Some(ServiceType::Oneshot)
        } else if text::same(s, "notify") {
            Some(ServiceType::Notify)
        } else if text::same(s, "idle") {
            Some(ServiceType::Idle)
        } else {
            None
        }
    }
}

/// `Restart=` of a service.
#[derive(Debug, Clone, Copy, PartialEq, Eq, Structural)]
pub enum RestartPolicy {
    No,
    OnSuccess,
    OnFailure,
    OnAbnormal,
    OnAbort,
    Always,
}

impl RestartPolicy {
    /// The value of `Restart=`.
    pub open spec fn name(self) -> Seq<char> {
        match self {
            RestartPolicy::No => "no"@,
            RestartPolicy::OnSuccess => "on-success"@,
            RestartPolicy::OnFailure => "on-failure"@,
            RestartPolicy::OnAbnormal => "on-abnormal"@,
            RestartPolicy::OnAbort => "on-abort"@,
            RestartPolicy::Always => "always"@,
        }
    }

    /// The policy a `Restart=` value names.
    pub open spec fn named(s: Seq<char>) -> Option<RestartPolicy> {
        if s == "no"@ {
            Some(RestartPolicy::No)
        } else if s == "on-success"@ {
            Some(RestartPolicy::OnSuccess)
        } else if s == "on-failure"@ {
            Some(RestartPolicy::OnFailure)
        } else if s == "on-abnormal"@ {
            Some(RestartPolicy::OnAbnormal)
        } else if s == "on-abort"@ {
            Some(RestartPolicy::OnAbort)
        } else if s == "always"@ {
            Some(RestartPolicy::Always)
        } else {
            None
        }
    }

    /// All policies, in the order they are offered.
    pub fn all() -> (r: Vec<RestartPolicy>)
        ensures
            r@ == seq![
                RestartPolicy::No,
                RestartPolicy::OnSuccess,
                RestartPolicy::OnFailure,
                RestartPolicy::OnAbnormal,
                RestartPolicy::OnAbort,
                RestartPolicy::Always,
            ],
    {
        vec![
            RestartPolicy::No,
            RestartPolicy::OnSuccess,
            RestartPolicy::OnFailure,
            RestartPolicy::OnAbnormal,
            RestartPolicy::OnAbort,
            RestartPolicy::Always,
        ]
    }

    /// The value of `Restart=`.
    pub fn as_str(self) -> (r: &'static str)
        ensures
            r@ == self.name(),
    {
        match self {
            RestartPolicy::No => "no",
            RestartPolicy::OnSuccess => "on-success",
            RestartPolicy::OnFailure => "on-failure",
            RestartPolicy::OnAbnormal => "on-abnormal",
            RestartPolicy::OnAbort => "on-abort",
            RestartPolicy::Always => "always",
        }
    }

    /// The policy a `Restart=` value names.
    pub fn parse(s: &str) -> (r: Option<RestartPolicy>)
        ensures
            r == RestartPolicy::named(s@),
    {
        if text::same(s, "no") {
            Some(RestartPolicy::No)
        } else if text::same(s, "on-success") {
            Some(RestartPolicy::OnSuccess)
        } else if text::same(s, "on-failure") {
            Some(RestartPolicy::OnFailure)
        } else if text::same(s, "on-abnormal") {
            Some(RestartPolicy::OnAbnormal)
        } else if text::same(s, "on-abort") {
            Some(RestartPolicy::OnAbort)
        } else if text::same(s, "always") {
            Some(RestartPolicy::Always)
        } else {
            None
        }
    }
}

/// The `[Service]` settings a timer's service and a standalone service share.
#[derive(Debug, PartialEq, Eq)]
pub struct ServiceOpts {
    pub service_type: ServiceType,
    pub exec_start: String,
    pub exec_start_pre: Option<String>,
    pub exec_stop_post: Option<String>,
    pub working_directory: Option<String>,
    pub run_as: Option<String>,
    pub group: Option<String>,
    pub environment: Vec<String>,
    pub restart: RestartPolicy,
    pub restart_sec: Option<String>,
}

/// The contents of a [`ServiceOpts`].
#[verifier::ext_equal]
pub struct ServiceView {
    pub service_type: ServiceType,
    pub exec_start: Seq<char>,
    pub exec_start_pre: Option<Seq<char>>,
    pub exec_stop_post: Option<Seq<char>>,
    pub working_directory: Option<Seq<char>>,
    pub run_as: Option<Seq<char>>,
    pub group: Option<Seq<char>>,
    pub environment: Seq<Seq<char>>,
    pub restart: RestartPolicy,
    pub restart_sec: Option<Seq<char>>,
}

impl View for ServiceOpts {
    type V = ServiceView;

    open spec fn view(&self) -> ServiceView {
        ServiceView {
            service_type: self.service_type,
            exec_start: self.exec_start@,
            exec_start_pre: text::opt_text(self.exec_start_pre),
            exec_stop_post: text::opt_text(self.exec_stop_post),
            working_directory: text::opt_text(self.working_directory),
            run_as: text::opt_text(self.run_as),
            group: text::opt_text(self.group),
            environment: text::texts(self.environment@),
            restart: self.restart,
            restart_sec: text::opt_text(self.restart_sec),
        }
    }
}

/// The settings of a service that says nothing yet.
pub open spec fn blank_service(t: ServiceType) -> ServiceView {
    ServiceView {
        service_type: t,
        exec_start: seq![],
        exec_start_pre: None,
        exec_stop_post: None,
        working_directory: None,
        run_as: None,
        group: None,
        environment: seq![],
        restart: RestartPolicy::No,
        restart_sec: None,
    }
}

impl ServiceOpts {
    /// Settings that say nothing yet.
    pub fn blank(t: ServiceType) -> (r: ServiceOpts)
        ensures
            r@ == blank_service(t),
    {
        let r = ServiceOpts {
            service_type: t,
            exec_start: String::new(),
            exec_start_pre: None,
            exec_stop_post: None,
            working_directory: None,
            run_as: None,
            group: None,
            environment: Vec::new(),
            restart: RestartPolicy::No,
            restart_sec: None,
        };
        assert(r@ =~= blank_service(t));
        r
    }
}

impl Default for ServiceOpts {
    fn default() -> (r: ServiceOpts)
        ensures
            r@ == blank_service(ServiceType::Oneshot),
    {
        ServiceOpts::blank(ServiceType::Oneshot)
    }
}

impl Clone for ServiceOpts {
    fn clone(&self) -> (r: ServiceOpts)
        ensures
            r@ == self@,
    {
        ServiceOpts {
            service_type: self.service_type,
            exec_start: self.exec_start.clone(),
            exec_start_pre: text::clone_opt(&self.exec_start_pre),
            exec_stop_post: text::clone_opt(&self.exec_stop_post),
            working_directory: text::clone_opt(&self.working_directory),
            run_as: text::clone_opt(&self.run_as),
            group: text::clone_opt(&self.group),
            environment: text::clone_strings(&self.environment),
            restart: self.restart,
            restart_sec: text::clone_opt(&self.restart_sec),
        }
    }
}

// ---------------------------------------------------------------------------
// Schedules
// ---------------------------------------------------------------------------

/// When a timer fires.
#[derive(Debug, PartialEq, Eq)]
pub enum Schedule {
    /// `OnCalendar=` values.
    Calendar(Vec<String>),
    /// `OnUnitActiveSec=` after a first run `OnBootSec=` after boot.
    Every { every: String, boot: String },
    /// Once, `OnBootSec=` after boot.
    Boot { boot: String },
}

/// The contents of a [`Schedule`].
#[verifier::ext_equal]
pub enum ScheduleView {
    Calendar(Seq<Seq<char>>),
    Every { every: Seq<char>, boot: Seq<char> },
    Boot { boot: Seq<char> },
}

impl View for Schedule {
    type V = ScheduleView;

    open spec fn view(&self) -> ScheduleView {
        match self {
            Schedule::Calendar(v) => ScheduleView::Calendar(text::texts(v@)),
            Schedule::Every { every, boot } => ScheduleView::Every { every: every@, boot: boot@ },
            Schedule::Boot { boot } => ScheduleView::Boot { boot: boot@ },
        }
    }
}

impl ScheduleView {
    /// A short description of the schedule.
    pub open spec fn summary_of(self) -> Seq<char> {
        match self {
            ScheduleView::Calendar(v) => parts::join_of(v, ", "@),
            ScheduleView::Every { every, boot } => "every "@ + every + " (boot + "@ + boot + ")"@,
            ScheduleView::Boot { boot } => "boot + "@ + boot,
        }
    }

    /// The `OnCalendar=` values, of which only a calendar schedule has any.
    pub open spec fn calendars_of(self) -> Seq<Seq<char>> {
        match self {
            ScheduleView::Calendar(v) => v,
            _ => seq![],
        }
    }
}

impl Schedule {
    /// A short description of the schedule.
    pub fn summary(&self) -> (r: String)
        ensures
            r@ == self@.summary_of(),
    {
        match self {
            Schedule::Calendar(v) => parts::join(v, ", "),
            Schedule::Every { every, boot } => text::cat5(
                "every ",
                every.as_str(),
                " (boot + ",
                boot.as_str(),
                ")",
            ),
            Schedule::Boot { boot } => text::cat2("boot + ", boot.as_str()),
        }
    }

    /// The `OnCalendar=` values, of which only a calendar schedule has any.
    pub fn calendars(&self) -> (r: Vec<String>)
        ensures
            text::texts(r@) == self@.calendars_of(),
    {
        match self {
            Schedule::Calendar(v) => text::clone_strings(v),
            _ => {
                let r: Vec<String> = Vec::new();
                assert(text::texts(r@) =~= seq![]);
                r
            },
        }
    }
}

impl Clone for Schedule {
    fn clone(&self) -> (r: Schedule)
        ensures
            r@ == self@,
    {
        match self {
            Schedule::Calendar(v) => Schedule::Calendar(text::clone_strings(v)),
            Schedule::Every { every, boot } => Schedule::Every {
                every: every.clone(),
                boot: boot.clone(),
            },
            Schedule::Boot { boot } => Schedule::Boot { boot: boot.clone() },
        }
    }
}

// ---------------------------------------------------------------------------
// The three bodies
// ---------------------------------------------------------------------------

/// A timer and the service it starts.
#[derive(Debug, PartialEq, Eq)]
pub struct TimerJob {
    /// What the schedule was made from, in the user's words.
    pub source: String,
    pub schedule: Schedule,
    pub persistent: bool,
    pub randomized_delay: Option<String>,
    pub service: ServiceOpts,
    /// Free text kept at the end of the `.timer` file.
    pub timer_manual: String,
    /// Free text kept at the end of the `.service` file.
    pub service_manual: String,
}

/// The contents of a [`TimerJob`].
#[verifier::ext_equal]
pub struct TimerView {
    pub source: Seq<char>,
    pub schedule: ScheduleView,
    pub persistent: bool,
    pub randomized_delay: Option<Seq<char>>,
    pub service: ServiceView,
    pub timer_manual: Seq<char>,
    pub service_manual: Seq<char>,
}

impl View for TimerJob {
    type V = TimerView;

    open spec fn view(&self) -> TimerView {
        TimerView {
            source: self.source@,
            schedule: self.schedule@,
            persistent: self.persistent,
            randomized_delay: text::opt_text(self.randomized_delay),
            service: self.service@,
            timer_manual: self.timer_manual@,
            service_manual: self.service_manual@,
        }
    }
}

/// A timer that runs nothing, daily at three.
pub open spec fn blank_timer() -> TimerView {
    TimerView {
        source: seq![],
        schedule: ScheduleView::Calendar(seq!["*-*-* 03:00:00"@]),
        persistent: true,
        randomized_delay: None,
        service: blank_service(ServiceType::Oneshot),
        timer_manual: seq![],
        service_manual: seq![],
    }
}

impl Default for TimerJob {
    fn default() -> (r: TimerJob)
        ensures
            r@ == blank_timer(),
    {
        let specs: Vec<String> = vec!["*-*-* 03:00:00".to_owned()];
        assert(text::texts(specs@) =~= seq!["*-*-* 03:00:00"@]);
        TimerJob {
            source: String::new(),
            schedule: Schedule::Calendar(specs),
            persistent: true,
            randomized_delay: None,
            service: ServiceOpts::blank(ServiceType::Oneshot),
            timer_manual: String::new(),
            service_manual: String::new(),
        }
    }
}

impl Clone for TimerJob {
    fn clone(&self) -> (r: TimerJob)
        ensures
            r@ == self@,
    {
        TimerJob {
            source: self.source.clone(),
            schedule: self.schedule.clone(),
            persistent: self.persistent,
            randomized_delay: text::clone_opt(&self.randomized_delay),
            service: self.service.clone(),
            timer_manual: self.timer_manual.clone(),
            service_manual: self.service_manual.clone(),
        }
    }
}

/// A service of its own.
#[derive(Debug, PartialEq, Eq)]
pub struct StandaloneService {
    pub service: ServiceOpts,
    pub wanted_by: String,
    pub manual: String,
}

/// The contents of a [`StandaloneService`].
#[verifier::ext_equal]
pub struct StandaloneView {
    pub service: ServiceView,
    pub wanted_by: Seq<char>,
    pub manual: Seq<char>,
}

impl View for StandaloneService {
    type V = StandaloneView;

    open spec fn view(&self) -> StandaloneView {
        StandaloneView {
            service: self.service@,
            wanted_by: self.wanted_by@,
            manual: self.manual@,
        }
    }
}

impl Default for StandaloneService {
    fn default() -> (r: StandaloneService)
        ensures
            r@ == (StandaloneView {
                service: blank_service(ServiceType::Simple),
                wanted_by: seq![],
                manual: seq![],
            }),
    {
        StandaloneService {
            service: ServiceOpts::blank(ServiceType::Simple),
            wanted_by: String::new(),
            manual: String::new(),
        }
    }
}

impl Clone for StandaloneService {
    fn clone(&self) -> (r: StandaloneService)
        ensures
            r@ == self@,
    {
        StandaloneService {
            service: self.service.clone(),
            wanted_by: self.wanted_by.clone(),
            manual: self.manual.clone(),
        }
    }
}

/// The kinds of filesystem the builder knows defaults for.
#[derive(Debug, Clone, Copy, PartialEq, Eq, Structural)]
pub enum MountPreset {
    Block,
    Nfs,
    Cifs,
    Bind,
}

impl MountPreset {
    pub open spec fn label_of(self) -> Seq<char> {
        match self {
            MountPreset::Block => "Block device"@,
            MountPreset::Nfs => "NFS share"@,
            MountPreset::Cifs => "SMB/CIFS share"@,
            MountPreset::Bind => "Bind mount"@,
        }
    }

    pub open spec fn fstype_of(self) -> Seq<char> {
        match self {
            MountPreset::Block => "auto"@,
            MountPreset::Nfs => "nfs"@,
            MountPreset::Cifs => "cifs"@,
            MountPreset::Bind => "none"@,
        }
    }

    pub open spec fn options_of(self) -> Seq<char> {
        match self {
            MountPreset::Block => "defaults,nofail"@,
            MountPreset::Nfs => "rw,soft,timeo=100,noatime,_netdev"@,
            MountPreset::Cifs => "rw,credentials=/etc/cifs-credentials,uid=0,gid=0,_netdev"@,
            MountPreset::Bind => "bind"@,
        }
    }

    /// The first preset with that filesystem type, or the block device.
    pub open spec fn for_fstype(fstype: Seq<char>) -> MountPreset {
        if fstype == MountPreset::Nfs.fstype_of() {
            MountPreset::Nfs
        } else if fstype == MountPreset::Cifs.fstype_of() {
            MountPreset::Cifs
        } else if fstype == MountPreset::Bind.fstype_of() {
            MountPreset::Bind
        } else {
            MountPreset::Block
        }
    }

    /// All presets, in the order they are offered.
    pub fn all() -> (r: Vec<MountPreset>)
        ensures
            r@ == seq![MountPreset::Block, MountPreset::Nfs, MountPreset::Cifs, MountPreset::Bind],
    {
        vec![MountPreset::Block, MountPreset::Nfs, MountPreset::Cifs, MountPreset::Bind]
    }

    pub fn label(self) -> (r: &'static str)
        ensures
            r@ == self.label_of(),
    {
        match self {
            MountPreset::Block => "Block device",
            MountPreset::Nfs => "NFS share",
            MountPreset::Cifs => "SMB/CIFS share",
            MountPreset::Bind => "Bind mount",
        }
    }

    /// The `Type=` the preset fills in.
    pub fn fstype(self) -> (r: &'static str)
        ensures
            r@ == self.fstype_of(),
    {
        match self {
            MountPreset::Block => "auto",
            MountPreset::Nfs => "nfs",
            MountPreset::Cifs => "cifs",
            MountPreset::Bind => "none",
        }
    }

    /// The `Options=` the preset fills in.
    pub fn options(self) -> (r: &'static str)
        ensures
            r@ == self.options_of(),
    {
        match self {
            MountPreset::Block => "defaults,nofail",
            MountPreset::Nfs => "rw,soft,timeo=100,noatime,_netdev",
            MountPreset::Cifs => "rw,credentials=/etc/cifs-credentials,uid=0,gid=0,_netdev",
            MountPreset::Bind => "bind",
        }
    }

    /// An example of `What=` for the preset.
    pub fn what_hint(self) -> (r: &'static str)
        ensures
            r@ == self.what_hint_of(),
    {
        match self {
            MountPreset::Block => "/dev/sdb1 or UUID=...",
            MountPreset::Nfs => "server:/export",
            MountPreset::Cifs => "//server/share",
            MountPreset::Bind => "/path/to/source",
        }
    }

    pub open spec fn what_hint_of(self) -> Seq<char> {
        match self {
            MountPreset::Block => "/dev/sdb1 or UUID=..."@,
            MountPreset::Nfs => "server:/export"@,
            MountPreset::Cifs => "//server/share"@,
            MountPreset::Bind => "/path/to/source"@,
        }
    }

    /// Whether `What=` names something in the local filesystem.
    pub fn what_is_path(self) -> (r: bool)
        ensures
            r == (self == MountPreset::Block || self == MountPreset::Bind),
    {
        match self {
            MountPreset::Block | MountPreset::Bind => true,
            MountPreset::Nfs | MountPreset::Cifs => false,
        }
    }

    /// The first preset with that filesystem type, or the block device.
    pub fn of_fstype(fstype: &str) -> (r: MountPreset)
        ensures
            r == MountPreset::for_fstype(fstype@),
    {
        if text::same(fstype, "nfs") {
            MountPreset::Nfs
        } else if text::same(fstype, "cifs") {
            MountPreset::Cifs
        } else if text::same(fstype, "none") {
            MountPreset::Bind
        } else {
            MountPreset::Block
        }
    }
}

/// A mount, with an automount where it is wanted.
#[derive(Debug, PartialEq, Eq)]
pub struct MountUnit {
    pub preset: MountPreset,
    pub what: String,
    pub where_: String,
    pub fstype: String,
    pub options: String,
    pub automount: bool,
    pub timeout_idle: Option<String>,
    /// Free text kept at the end of the `.mount` file.
    pub manual: String,
    /// Free text kept at the end of the `.automount` file.
    pub automount_manual: String,
}

/// The contents of a [`MountUnit`].
#[verifier::ext_equal]
pub struct MountView {
    pub preset: MountPreset,
    pub what: Seq<char>,
    pub where_: Seq<char>,
    pub fstype: Seq<char>,
    pub options: Seq<char>,
    pub automount: bool,
    pub timeout_idle: Option<Seq<char>>,
    pub manual: Seq<char>,
    pub automount_manual: Seq<char>,
}

impl View for MountUnit {
    type V = MountView;

    open spec fn view(&self) -> MountView {
        MountView {
            preset: self.preset,
            what: self.what@,
            where_: self.where_@,
            fstype: self.fstype@,
            options: self.options@,
            automount: self.automount,
            timeout_idle: text::opt_text(self.timeout_idle),
            manual: self.manual@,
            automount_manual: self.automount_manual@,
        }
    }
}

/// A mount of a block device that says neither what nor where.
pub open spec fn blank_mount() -> MountView {
    MountView {
        preset: MountPreset::Block,
        what: seq![],
        where_: seq![],
        fstype: MountPreset::Block.fstype_of(),
        options: MountPreset::Block.options_of(),
        automount: false,
        timeout_idle: None,
        manual: seq![],
        automount_manual: seq![],
    }
}

impl Default for MountUnit {
    fn default() -> (r: MountUnit)
        ensures
            r@ == blank_mount(),
    {
        MountUnit {
            preset: MountPreset::Block,
            what: String::new(),
            where_: String::new(),
            fstype: MountPreset::Block.fstype().to_owned(),
            options: MountPreset::Block.options().to_owned(),
            automount: false,
            timeout_idle: None,
            manual: String::new(),
            automount_manual: String::new(),
        }
    }
}

impl Clone for MountUnit {
    fn clone(&self) -> (r: MountUnit)
        ensures
            r@ == self@,
    {
        MountUnit {
            preset: self.preset,
            what: self.what.clone(),
            where_: self.where_.clone(),
            fstype: self.fstype.clone(),
            options: self.options.clone(),
            automount: self.automount,
            timeout_idle: text::clone_opt(&self.timeout_idle),
            manual: self.manual.clone(),
            automount_manual: self.automount_manual.clone(),
        }
    }
}

/// What a unit does.
#[derive(Debug, PartialEq, Eq)]
pub enum Body {
    Timer(Box<TimerJob>),
    Service(Box<StandaloneService>),
    Mount(Box<MountUnit>),
}

/// The contents of a [`Body`].
#[verifier::ext_equal]
pub enum BodyView {
    Timer(TimerView),
    Service(StandaloneView),
    Mount(MountView),
}

impl View for Body {
    type V = BodyView;

    open spec fn view(&self) -> BodyView {
        match self {
            Body::Timer(t) => BodyView::Timer(t@),
            Body::Service(s) => BodyView::Service(s@),
            Body::Mount(m) => BodyView::Mount(m@),
        }
    }
}

impl BodyView {
    pub open spec fn kind_of(self) -> Seq<char> {
        match self {
            BodyView::Timer(_) => "timer"@,
            BodyView::Service(_) => "service"@,
            BodyView::Mount(m) => if m.automount {
                "automount"@
            } else {
                "mount"@
            },
        }
    }
}

impl Body {
    /// The word for this kind of unit.
    pub fn kind_label(&self) -> (r: &'static str)
        ensures
            r@ == self@.kind_of(),
    {
        match self {
            Body::Timer(_) => "timer",
            Body::Service(_) => "service",
            Body::Mount(m) => if m.automount {
                "automount"
            } else {
                "mount"
            },
        }
    }
}

impl Clone for Body {
    fn clone(&self) -> (r: Body)
        ensures
            r@ == self@,
    {
        match self {
            Body::Timer(t) => {
                let c: TimerJob = (&**t).clone();
                Body::Timer(Box::new(c))
            },
            Body::Service(s) => {
                let c: StandaloneService = (&**s).clone();
                Body::Service(Box::new(c))
            },
            Body::Mount(m) => {
                let c: MountUnit = (&**m).clone();
                Body::Mount(Box::new(c))
            },
        }
    }
}

// ---------------------------------------------------------------------------
// Units
// ---------------------------------------------------------------------------

/// A unit as the builder edits it.
#[derive(Debug, PartialEq, Eq)]
pub struct Unit {
    pub name: String,
    pub description: String,
    pub scope: Scope,
    pub body: Body,
}

/// The contents of a [`Unit`].
#[verifier::ext_equal]
pub struct UnitView {
    pub name: Seq<char>,
    pub description: Seq<char>,
    pub scope: Scope,
    pub body: BodyView,
}

impl View for Unit {
    type V = UnitView;

    open spec fn view(&self) -> UnitView {
        UnitView {
            name: self.name@,
            description: self.description@,
            scope: self.scope,
            body: self.body@,
        }
    }
}

impl Clone for Unit {
    fn clone(&self) -> (r: Unit)
        ensures
            r@ == self@,
    {
        Unit {
            name: self.name.clone(),
            description: self.description.clone(),
            scope: self.scope,
            body: self.body.clone(),
        }
    }
}

/// The name with the program's prefix, which is added only once.
pub open spec fn prefixed_of(name: Seq<char>) -> Seq<char> {
    if PREFIX@.is_prefix_of(name) {
        name
    } else {
        PREFIX@ + name
    }
}

/// The name without the program's prefix.
pub open spec fn unprefixed_of(name: Seq<char>) -> Seq<char> {
    if PREFIX@.is_prefix_of(name) {
        name.skip(PREFIX@.len() as int)
    } else {
        name
    }
}

/// The name with the program's prefix, which is added only once.
pub fn prefixed(name: &str) -> (r: String)
    ensures
        r@ == prefixed_of(name@),
{
    if text::starts_with(name, PREFIX) {
        name.to_owned()
    } else {
        text::cat2(PREFIX, name)
    }
}

/// The name without the program's prefix.
pub fn unprefixed(name: &str) -> (r: String)
    ensures
        r@ == unprefixed_of(name@),
{
    if text::starts_with(name, PREFIX) {
        let n: usize = PREFIX.unicode_len();
        let m: usize = name.unicode_len();
        assert(name@.subrange(n as int, m as int) =~= name@.skip(n as int));
        name.substring_char(n, m).to_owned()
    } else {
        name.to_owned()
    }
}

/// Taking the prefix off a prefixed name gives what taking it off the name
/// gives.
pub proof fn law_unprefixed_prefixed(name: Seq<char>)
    ensures
        unprefixed_of(prefixed_of(name)) == unprefixed_of(name),
        PREFIX@.is_prefix_of(prefixed_of(name)),
{
    if !PREFIX@.is_prefix_of(name) {
        let p = PREFIX@ + name;
        assert(p.take(PREFIX@.len() as int) =~= PREFIX@);
        assert(p.skip(PREFIX@.len() as int) =~= name);
    }
}

/// The characters a unit name may hold.
pub open spec fn is_name_char(c: char) -> bool {
    text::is_alnum(c) || c == '-' || c == '_' || c == '.'
}

/// Why a name cannot name a unit, if it cannot.
pub open spec fn name_error(name: Seq<char>) -> Option<Seq<char>> {
    if name.len() == 0 {
        Some("the unit needs a name"@)
    } else if exists|i: int| 0 <= i < name.len() && !is_name_char(#[trigger] name[i]) {
        Some("'"@ + name + "' is not a usable unit name"@)
    } else {
        None
    }
}

/// Whether a name can name a timer or a service.
pub fn validate_name(name: &str) -> (r: Result<(), String>)
    ensures
        match r {
            Ok(_) => name_error(name@) is None,
            Err(e) => name_error(name@) == Some(e@),
        },
{
    if name.is_empty() {
        return Err("the unit needs a name".to_owned());
    }
    let v = text::chars_of(name);
    let mut i: usize = 0;
    while i < v.len()
        invariant
            v@ == name@,
            name@.len() > 0,
            i <= v@.len(),
            forall|k: int| 0 <= k < i ==> is_name_char(#[trigger] v@[k]),
        decreases v@.len() - i,
    {
        let c = v[i];
        if !(text::alnum(c) || c == '-' || c == '_' || c == '.') {
            assert(!is_name_char(name@[i as int]));
            return Err(text::cat3("'", name, "' is not a usable unit name"));
        }
        i += 1;
    }
    Ok(())
}

impl UnitView {
    /// The file name without suffix, or why there is none. A mount's is
    /// dictated by its mount point.
    pub open spec fn stem_of(self) -> Result<Seq<char>, Seq<char>> {
        match self.body {
            BodyView::Mount(m) => escape::escape_path_of(m.where_),
            _ => Ok(prefixed_of(self.name)),
        }
    }

    /// The suffixes of the unit's files, the primary one first.
    pub open spec fn suffixes(self) -> Seq<Seq<char>> {
        match self.body {
            BodyView::Timer(_) => seq![".timer"@, ".service"@],
            BodyView::Service(_) => seq![".service"@],
            BodyView::Mount(m) => if m.automount {
                seq![".automount"@, ".mount"@]
            } else {
                seq![".mount"@]
            },
        }
    }

    /// The names of the unit's files, the primary one first.
    pub open spec fn filenames_of(self) -> Result<Seq<Seq<char>>, Seq<char>> {
        match self.stem_of() {
            Ok(s) => Ok(Seq::new(self.suffixes().len(), |i: int| s + self.suffixes()[i])),
            Err(e) => Err(e),
        }
    }

    /// The unit whose journal is worth reading.
    pub open spec fn log_unit_of(self) -> Result<Seq<char>, Seq<char>> {
        match self.stem_of() {
            Ok(s) => Ok(s + self.suffixes().last()),
            Err(e) => Err(e),
        }
    }

    /// Why the unit cannot be installed, if it cannot.
    pub open spec fn error_of(self) -> Option<Seq<char>> {
        match self.body {
            BodyView::Timer(t) => if name_error(self.name) is Some {
                name_error(self.name)
            } else if text::is_blank(t.service.exec_start) {
                Some("ExecStart= must not be empty"@)
            } else if !schedule_fires(t.schedule) {
                Some("the timer needs a schedule"@)
            } else {
                None
            },
            BodyView::Service(s) => if name_error(self.name) is Some {
                name_error(self.name)
            } else if text::is_blank(s.service.exec_start) {
                Some("ExecStart= must not be empty"@)
            } else {
                None
            },
            BodyView::Mount(m) => if self.scope == Scope::User {
                Some("mount units are system scope only"@)
            } else if text::is_blank(m.what) {
                Some("What= must not be empty"@)
            } else if text::is_blank(m.fstype) {
                Some("Type= must not be empty"@)
            } else {
                match escape::escape_path_of(m.where_) {
                    Ok(_) => None,
                    Err(e) => Some(e),
                }
            },
        }
    }
}

/// Whether one of the texts is not blank.
pub open spec fn any_text(v: Seq<Seq<char>>) -> bool {
    exists|i: int| 0 <= i < v.len() && !text::is_blank(#[trigger] v[i])
}

/// Whether a schedule says when to fire.
pub open spec fn schedule_fires(s: ScheduleView) -> bool {
    match s {
        ScheduleView::Calendar(v) => any_text(v),
        ScheduleView::Every { every, boot } => !text::is_blank(every) && !text::is_blank(boot),
        ScheduleView::Boot { boot } => !text::is_blank(boot),
    }
}

impl Schedule {
    /// Whether the schedule says when to fire.
    pub fn fires(&self) -> (r: bool)
        ensures
            r == schedule_fires(self@),
    {
        match self {
            Schedule::Calendar(v) => {
                let ghost all = text::texts(v@);
                let mut i: usize = 0;
                while i < v.len()
                    invariant
                        i <= v@.len(),
                        all == text::texts(v@),
                        self@ == ScheduleView::Calendar(all),
                        forall|k: int| 0 <= k < i ==> text::is_blank(#[trigger] all[k]),
                    decreases v@.len() - i,
                {
                    if !text::blank(v[i].as_str()) {
                        assert(!text::is_blank(all[i as int]));
                        assert(any_text(all));
                        return true;
                    }
                    i += 1;
                }
                false
            },
            Schedule::Every { every, boot } => !text::blank(every.as_str()) && !text::blank(
                boot.as_str(),
            ),
            Schedule::Boot { boot } => !text::blank(boot.as_str()),
        }
    }
}

/// Whether an exec result is the specified one, text by text.
pub open spec fn same_result(r: Result<String, String>, want: Result<Seq<char>, Seq<char>>) -> bool {
    match r {
        Ok(s) => want == Ok::<Seq<char>, Seq<char>>(s@),
        Err(e) => want == Err::<Seq<char>, Seq<char>>(e@),
    }
}

impl UnitView {
    /// A timer that runs nothing yet.
    pub open spec fn new_timer_of(scope: Scope) -> UnitView {
        UnitView {
            name: seq![],
            description: seq![],
            scope,
            body: BodyView::Timer(blank_timer()),
        }
    }

    /// A service that runs nothing yet, wanted by its scope's usual target.
    pub open spec fn new_service_of(scope: Scope) -> UnitView {
        UnitView {
            name: seq![],
            description: seq![],
            scope,
            body: BodyView::Service(
                StandaloneView {
                    service: blank_service(ServiceType::Simple),
                    wanted_by: scope.targets()[0],
                    manual: seq![],
                },
            ),
        }
    }

    /// A mount that says neither what nor where yet.
    pub open spec fn new_mount_of() -> UnitView {
        UnitView {
            name: seq![],
            description: seq![],
            scope: Scope::System,
            body: BodyView::Mount(blank_mount()),
        }
    }
}

impl Unit {
    /// A timer that runs nothing yet.
    pub fn new_timer(scope: Scope) -> (r: Unit)
        ensures
            r@ == UnitView::new_timer_of(scope),
    {
        Unit {
            name: String::new(),
            description: String::new(),
            scope,
            body: Body::Timer(Box::new(TimerJob::default())),
        }
    }

    /// A service that runs nothing yet, wanted by its scope's usual target.
    pub fn new_service(scope: Scope) -> (r: Unit)
        ensures
            r@ == UnitView::new_service_of(scope),
    {
        Unit {
            name: String::new(),
            description: String::new(),
            scope,
            body: Body::Service(
                Box::new(
                    StandaloneService {
                        service: ServiceOpts::blank(ServiceType::Simple),
                        wanted_by: scope.default_install_target().to_owned(),
                        manual: String::new(),
                    },
                ),
            ),
        }
    }

    /// A mount that says neither what nor where yet.
    pub fn new_mount() -> (r: Unit)
        ensures
            r@ == UnitView::new_mount_of(),
    {
        Unit {
            name: String::new(),
            description: String::new(),
            scope: Scope::System,
            body: Body::Mount(Box::new(MountUnit::default())),
        }
    }

    /// The file name without suffix.
    pub fn stem(&self) -> (r: Result<String, String>)
        ensures
            same_result(r, self@.stem_of()),
    {
        match &self.body {
            Body::Mount(m) => escape::escape_path(m.where_.as_str()),
            _ => Ok(prefixed(self.name.as_str())),
        }
    }

    /// The suffixes of the unit's files, the primary one first.
    fn file_suffixes(&self) -> (r: Vec<&'static str>)
        ensures
            r@.len() == self@.suffixes().len(),
            r@.len() > 0,
            forall|i: int| 0 <= i < r@.len() ==> (#[trigger] r@[i])@ == self@.suffixes()[i],
    {
        match &self.body {
            Body::Timer(_) => vec![".timer", ".service"],
            Body::Service(_) => vec![".service"],
            Body::Mount(m) => if m.automount {
                vec![".automount", ".mount"]
            } else {
                vec![".mount"]
            },
        }
    }

    /// The names of the unit's files, the primary one first.
    pub fn filenames(&self) -> (r: Result<Vec<String>, String>)
        ensures
            match r {
                Ok(v) => self@.filenames_of() == Ok::<Seq<Seq<char>>, Seq<char>>(text::texts(v@)),
                Err(e) => self@.filenames_of() == Err::<Seq<Seq<char>>, Seq<char>>(e@),
            },
    {
        match self.stem() {
            Ok(s) => {
                let suffixes = self.file_suffixes();
                let mut out: Vec<String> = Vec::new();
                let mut i: usize = 0;
                while i < suffixes.len()
                    invariant
                        i <= suffixes@.len(),
                        suffixes@.len() == self@.suffixes().len(),
                        forall|k: int|
                            0 <= k < suffixes@.len() ==> (#[trigger] suffixes@[k])@
                                == self@.suffixes()[k],
                        out@.len() == i,
                        forall|k: int|
                            0 <= k < i ==> (#[trigger] out@[k])@ == s@ + self@.suffixes()[k],
                    decreases suffixes@.len() - i,
                {
                    out.push(text::cat2(s.as_str(), suffixes[i]));
                    i += 1;
                }
                assert(text::texts(out@) =~= Seq::new(
                    self@.suffixes().len(),
                    |i: int| s@ + self@.suffixes()[i],
                ));
                Ok(out)
            },
            Err(e) => Err(e),
        }
    }

    /// The unit that is enabled and started: the first of the files.
    pub fn primary_unit(&self) -> (r: Result<String, String>)
        ensures
            match r {
                Ok(n) => self@.filenames_of() is Ok && n@ == self@.filenames_of()->Ok_0[0],
                Err(e) => self@.filenames_of() == Err::<Seq<Seq<char>>, Seq<char>>(e@),
            },
    {
        match self.stem() {
            Ok(s) => {
                let suffixes = self.file_suffixes();
                Ok(text::cat2(s.as_str(), suffixes[0]))
            },
            Err(e) => Err(e),
        }
    }

    /// The unit whose journal is worth reading.
    pub fn log_unit(&self) -> (r: Result<String, String>)
        ensures
            same_result(r, self@.log_unit_of()),
    {
        match self.stem() {
            Ok(s) => {
                let suffixes = self.file_suffixes();
                Ok(text::cat2(s.as_str(), suffixes[suffixes.len() - 1]))
            },
            Err(e) => Err(e),
        }
    }

    /// Whether the unit can be installed.
    pub fn validate(&self) -> (r: Result<(), String>)
        ensures
            match r {
                Ok(_) => self@.error_of() is None,
                Err(e) => self@.error_of() == Some(e@),
            },
    {
        match &self.body {
            Body::Timer(t) => {
                match validate_name(self.name.as_str()) {
                    Err(e) => {
                        return Err(e);
                    },
                    Ok(_) => {},
                }
                if text::blank(t.service.exec_start.as_str()) {
                    return Err("ExecStart= must not be empty".to_owned());
                }
                if !t.schedule.fires() {
                    return Err("the timer needs a schedule".to_owned());
                }
                Ok(())
            },
            Body::Service(s) => {
                match validate_name(self.name.as_str()) {
                    Err(e) => {
                        return Err(e);
                    },
                    Ok(_) => {},
                }
                if text::blank(s.service.exec_start.as_str()) {
                    return Err("ExecStart= must not be empty".to_owned());
                }
                Ok(())
            },
            Body::Mount(m) => {
                if self.scope == Scope::User {
                    return Err("mount units are system scope only".to_owned());
                }
                if text::blank(m.what.as_str()) {
                    return Err("What= must not be empty".to_owned());
                }
                if text::blank(m.fstype.as_str()) {
                    return Err("Type= must not be empty".to_owned());
                }
                match escape::escape_path(m.where_.as_str()) {
                    Ok(_) => Ok(()),
                    Err(e) => Err(e),
                }
            },
        }
    }
}

// ---------------------------------------------------------------------------
// What makes a unit complete
// ---------------------------------------------------------------------------

/// Whether a text says anything.
pub open spec fn says_something(s: Seq<char>) -> bool {
    exists|i: int| 0 <= i < s.len() && !text::is_white(#[trigger] s[i])
}

proof fn lemma_says_something(s: Seq<char>)
    ensures
        text::is_blank(s) == !says_something(s),
{
    let a = text::trim_start_of(s);
    text::lemma_trim_start(s);
    text::lemma_trim_end(a);
    let t = text::trim_of(s);
    let n = s.len() - a.len();
    if t.len() > 0 {
        assert(a[0] == s[n]);
        assert(!text::is_white(s[n]));
    } else if says_something(s) {
        let i = choose|i: int| 0 <= i < s.len() && !text::is_white(#[trigger] s[i]);
        assert(i >= n);
        assert(a[i - n] == s[i]);
    }
}

/// Whether a unit has a name that a file can bear.
pub open spec fn has_file_name(name: Seq<char>) -> bool {
    name.len() > 0 && forall|i: int|
        0 <= i < name.len() ==> text::is_alnum(#[trigger] name[i]) || name[i] == '-' || name[i]
            == '_' || name[i] == '.'
}

/// Whether a unit has all that its kind needs: a timer a name, a command and
/// something to fire on; a service a name and a command; a mount the system's
/// scope, a source, a file system type and a place.
pub open spec fn is_complete(u: UnitView) -> bool {
    match u.body {
        BodyView::Timer(t) => {
            &&& has_file_name(u.name)
            &&& says_something(t.service.exec_start)
            &&& match t.schedule {
                ScheduleView::Calendar(v) => exists|i: int|
                    0 <= i < v.len() && says_something(#[trigger] v[i]),
                ScheduleView::Every { every, boot } => says_something(every) && says_something(boot),
                ScheduleView::Boot { boot } => says_something(boot),
            }
        },
        BodyView::Service(s) => has_file_name(u.name) && says_something(s.service.exec_start),
        BodyView::Mount(m) => {
            &&& u.scope == Scope::System
            &&& says_something(m.what)
            &&& says_something(m.fstype)
            &&& m.where_.len() > 0 && m.where_[0] == '/'
            &&& !escape::components_of(m.where_).contains(seq!['.', '.'])
        },
    }
}

/// A unit is accepted exactly if it is complete.
pub proof fn law_complete_units_are_accepted(u: UnitView)
    ensures
        u.error_of() is None <==> is_complete(u),
{
    match u.body {
        BodyView::Timer(t) => {
            lemma_says_something(t.service.exec_start);
            match t.schedule {
                ScheduleView::Calendar(v) => {
                    assert forall|i: int| 0 <= i < v.len() implies text::is_blank(#[trigger] v[i])
                        == !says_something(v[i]) by {
                        lemma_says_something(v[i]);
                    }
                    if any_text(v) {
                        let i = choose|i: int| 0 <= i < v.len() && !text::is_blank(#[trigger] v[i]);
                        assert(says_something(v[i]));
                    }
                    if exists|i: int| 0 <= i < v.len() && says_something(#[trigger] v[i]) {
                        let i = choose|i: int| 0 <= i < v.len() && says_something(#[trigger] v[i]);
                        assert(!text::is_blank(v[i]));
                    }
                },
                ScheduleView::Every { every, boot } => {
                    lemma_says_something(every);
                    lemma_says_something(boot);
                },
                ScheduleView::Boot { boot } => {
                    lemma_says_something(boot);
                },
            }
        },
        BodyView::Service(s) => {
            lemma_says_something(s.service.exec_start);
        },
        BodyView::Mount(m) => {
            lemma_says_something(m.what);
            lemma_says_something(m.fstype);
        },
    }
}

/// The first file is the one that is started and enabled; the log is that of
/// the last one, which does the work.
pub proof fn law_files_of_a_unit(u: UnitView)
    requires
        u.stem_of() is Ok,
    ensures
        ({
            let names = u.filenames_of()->Ok_0;
            let stem = u.stem_of()->Ok_0;
            &&& u.filenames_of() is Ok
            &&& names.len() > 0
            &&& u.log_unit_of() == Ok::<Seq<char>, Seq<char>>(names.last())
            &&& names.last() == stem + (if u.body is Mount {
                ".mount"@
            } else {
                ".service"@
            })
            &&& names[0] == stem + match u.body {
                BodyView::Timer(_) => ".timer"@,
                BodyView::Service(_) => ".service"@,
                BodyView::Mount(m) => if m.automount {
                    ".automount"@
                } else {
                    ".mount"@
                },
            }
        }),
{
}

} // verus!
