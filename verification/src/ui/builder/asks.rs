//! Editing one field: what to ask for it, and what the reply does to the unit.

use crate::parts;
use crate::systemd;
use crate::systemd::Outcome;
use crate::templates;
use crate::text;
use crate::ui::builder::fields;
use crate::ui::builder::rows::Id;
use crate::unit::escape;
use crate::unit::generate;
use crate::unit::model;
use crate::unit::model::{Body, BodyView, MountPreset, MountUnit, MountView, RestartPolicy, Scope};
use crate::unit::model::{ServiceOpts, ServiceType, ServiceView, StandaloneService, StandaloneView};
use crate::unit::model::{TimerJob, TimerView, Unit, UnitView};
use crate::validate;
use vstd::prelude::*;

verus! {

broadcast use vstd::string::group_string_axioms;

/// What Tab completes in a prompt.
#[derive(Debug, Clone, Copy, PartialEq, Eq, Structural)]
pub enum Completes {
    Nothing,
    /// A command line: a program, then paths.
    Commands,
    Directories,
    Paths,
    Users,
    Groups,
}

/// A text prompt.
#[derive(Debug)]
pub struct Prompted {
    pub title: &'static str,
    pub help: String,
    pub initial: String,
    pub completes: Completes,
    /// What Ctrl-A widens the completion to.
    pub toggle: Option<&'static str>,
}

/// The contents of a [`Prompted`].
#[verifier::ext_equal]
pub struct PromptedView {
    pub title: Seq<char>,
    pub help: Seq<char>,
    pub initial: Seq<char>,
    pub completes: Completes,
    pub toggle: Option<Seq<char>>,
}

impl View for Prompted {
    type V = PromptedView;

    open spec fn view(&self) -> PromptedView {
        PromptedView {
            title: self.title@,
            help: self.help@,
            initial: self.initial@,
            completes: self.completes,
            toggle: match self.toggle {
                Some(t) => Some(t@),
                None => None,
            },
        }
    }
}

/// What has to be asked for a row.
#[derive(Debug)]
pub enum Ask {
    /// Nothing: activating the row does nothing.
    Nothing,
    /// Nothing: the row is a switch.
    Toggle,
    Text(Prompted),
    /// One of these items, the one at the index first.
    Pick(&'static str, Vec<String>, usize),
    /// Yes or no.
    Confirm(&'static str, &'static str),
    /// Text of several lines: title, help, and what it starts from.
    Lines(&'static str, &'static str, String),
    /// The mount options, for a filesystem type.
    Options(String, String),
    /// The schedule.
    Schedule,
    /// The preview is shown.
    Preview,
}

/// The contents of an [`Ask`].
#[verifier::ext_equal]
pub enum AskView {
    Nothing,
    Toggle,
    Text(PromptedView),
    Pick(Seq<char>, Seq<Seq<char>>, int),
    Confirm(Seq<char>, Seq<char>),
    Lines(Seq<char>, Seq<char>, Seq<char>),
    Options(Seq<char>, Seq<char>),
    Schedule,
    Preview,
}

impl View for Ask {
    type V = AskView;

    open spec fn view(&self) -> AskView {
        match self {
            Ask::Nothing => AskView::Nothing,
            Ask::Toggle => AskView::Toggle,
            Ask::Text(p) => AskView::Text(p@),
            Ask::Pick(t, items, i) => AskView::Pick(t@, text::texts(items@), *i as int),
            Ask::Confirm(t, b) => AskView::Confirm(t@, b@),
            Ask::Lines(t, h, s) => AskView::Lines(t@, h@, s@),
            Ask::Options(o, f) => AskView::Options(o@, f@),
            Ask::Schedule => AskView::Schedule,
            Ask::Preview => AskView::Preview,
        }
    }
}

/// A reply to what was asked. Without one the unit stays as it is.
#[derive(Debug)]
pub enum Reply {
    /// The switch was thrown, or the question answered yes.
    Yes,
    Text(String),
    Picked(usize),
}

/// The contents of a [`Reply`].
#[verifier::ext_equal]
pub enum ReplyView {
    Yes,
    Text(Seq<char>),
    Picked(int),
}

impl View for Reply {
    type V = ReplyView;

    open spec fn view(&self) -> ReplyView {
        match self {
            Reply::Yes => ReplyView::Yes,
            Reply::Text(s) => ReplyView::Text(s@),
            Reply::Picked(i) => ReplyView::Picked(*i as int),
        }
    }
}

/// Whether a row writes service settings.
pub open spec fn is_service_row(id: Id) -> bool {
    match id {
        Id::ServiceType | Id::ExecStart | Id::ShellWrap | Id::ExecStartPre | Id::ExecStopPost
        | Id::Restart | Id::RestartSec | Id::WorkDir | Id::RunAs | Id::Group | Id::Env => true,
        _ => false,
    }
}

/// Whether a row belongs to a unit as far as it writes service settings,
/// which a mount does not have.
pub open spec fn row_fits(u: UnitView, id: Id) -> bool {
    is_service_row(id) ==> !(u.body is Mount)
}

/// The service types, in the order they are offered.
pub open spec fn types_of() -> Seq<ServiceType> {
    seq![
        ServiceType::Simple,
        ServiceType::Exec,
        ServiceType::Forking,
        ServiceType::Oneshot,
        ServiceType::Notify,
        ServiceType::Idle,
    ]
}

/// The restart policies, in the order they are offered.
pub open spec fn policies_of() -> Seq<RestartPolicy> {
    seq![
        RestartPolicy::No,
        RestartPolicy::OnSuccess,
        RestartPolicy::OnFailure,
        RestartPolicy::OnAbnormal,
        RestartPolicy::OnAbort,
        RestartPolicy::Always,
    ]
}

/// The mount presets, in the order they are offered.
pub open spec fn presets_of() -> Seq<MountPreset> {
    seq![MountPreset::Block, MountPreset::Nfs, MountPreset::Cifs, MountPreset::Bind]
}

/// The place of a service type among those offered.
pub open spec fn type_index(t: ServiceType) -> int {
    match t {
        ServiceType::Simple => 0,
        ServiceType::Exec => 1,
        ServiceType::Forking => 2,
        ServiceType::Oneshot => 3,
        ServiceType::Notify => 4,
        ServiceType::Idle => 5,
    }
}

/// The place of a restart policy among those offered.
pub open spec fn policy_index(p: RestartPolicy) -> int {
    match p {
        RestartPolicy::No => 0,
        RestartPolicy::OnSuccess => 1,
        RestartPolicy::OnFailure => 2,
        RestartPolicy::OnAbnormal => 3,
        RestartPolicy::OnAbort => 4,
        RestartPolicy::Always => 5,
    }
}

/// The place of a preset among those offered.
pub open spec fn preset_index(p: MountPreset) -> int {
    match p {
        MountPreset::Block => 0,
        MountPreset::Nfs => 1,
        MountPreset::Cifs => 2,
        MountPreset::Bind => 3,
    }
}

/// The place of a target among those offered, or the first.
pub open spec fn target_index(choices: Seq<(Seq<char>, Seq<char>)>, current: Seq<char>) -> int
    decreases choices.len(),
{
    if choices.len() == 0 {
        0
    } else {
        let k = target_index(choices.drop_last(), current);
        if choices.last().0 == current && !(exists|i: int|
            0 <= i < choices.len() - 1 && (#[trigger] choices[i]).0 == current) {
            choices.len() - 1
        } else {
            k
        }
    }
}

/// A plain prompt.
pub open spec fn plain(title: Seq<char>, help: Seq<char>, initial: Seq<char>) -> AskView {
    AskView::Text(
        PromptedView { title, help, initial, completes: Completes::Nothing, toggle: None },
    )
}

/// A prompt with completion.
pub open spec fn completing(
    title: Seq<char>,
    help: Seq<char>,
    initial: Seq<char>,
    completes: Completes,
    toggle: Option<Seq<char>>,
) -> AskView {
    AskView::Text(PromptedView { title, help, initial, completes, toggle })
}

/// What has to be asked for a row of service settings.
pub open spec fn ask_service_of(s: ServiceView, id: Id, cwd: Option<Seq<char>>) -> AskView {
    match id {
        Id::ServiceType => AskView::Pick(
            "Type="@,
            Seq::new(types_of().len(), |i: int| types_of()[i].name()),
            type_index(s.service_type),
        ),
        Id::ExecStart => completing(
            "ExecStart"@,
            "Absolute path plus arguments. Shell syntax needs the wrapper below."@,
            s.exec_start,
            Completes::Commands,
            None,
        ),
        Id::ShellWrap => AskView::Confirm(
            "Shell wrapper"@,
            if fields::shell().is_prefix_of(s.exec_start) {
                "Unwrap this command back to a plain argv line?"@
            } else {
                "Run this command through /bin/sh -c, so pipes, redirects and globs work?"@
            },
        ),
        Id::ExecStartPre => completing(
            "ExecStartPre"@,
            "Runs before ExecStart. Empty clears it."@,
            fields::or_empty(s.exec_start_pre),
            Completes::Commands,
            None,
        ),
        Id::ExecStopPost => completing(
            "ExecStopPost"@,
            "Runs after the service stops, success or failure. Empty clears it."@,
            fields::or_empty(s.exec_stop_post),
            Completes::Commands,
            None,
        ),
        Id::Restart => AskView::Pick(
            "Restart="@,
            Seq::new(policies_of().len(), |i: int| policies_of()[i].name()),
            policy_index(s.restart),
        ),
        Id::RestartSec => plain(
            "RestartSec"@,
            "Delay before restarting, e.g. 5s. Empty clears it."@,
            fields::or_empty(s.restart_sec),
        ),
        Id::WorkDir => completing(
            "WorkingDirectory"@,
            "Absolute path the command runs in. Empty clears it."@,
            match s.working_directory {
                Some(d) => d,
                None => seed_of(cwd),
            },
            Completes::Directories,
            None,
        ),
        Id::RunAs => completing(
            "User"@,
            "User= (system units only). Empty clears it."@,
            fields::or_empty(s.run_as),
            Completes::Users,
            Some("system accounts"@),
        ),
        Id::Group => completing(
            "Group"@,
            "Group= (system units only). Empty clears it."@,
            fields::or_empty(s.group),
            Completes::Groups,
            Some("system groups"@),
        ),
        Id::Env => AskView::Lines(
            "Environment"@,
            "One KEY=VALUE per line."@,
            parts::join_of(s.environment, "\n"@),
        ),
        _ => AskView::Nothing,
    }
}

/// The working directory that is suggested for an unset field.
pub open spec fn seed_of(cwd: Option<Seq<char>>) -> Seq<char> {
    match cwd {
        Some(d) => if d.len() > 0 && d[0] == '/' {
            d
        } else {
            seq![]
        },
        None => seq![],
    }
}

/// What has to be asked for a row of a mount.
pub open spec fn ask_mount_of(m: MountView, id: Id) -> AskView {
    match id {
        Id::Preset => AskView::Pick(
            "Filesystem preset"@,
            Seq::new(
                presets_of().len(),
                |i: int|
                    text::pad_right_of(presets_of()[i].label_of(), 32) + " "@
                        + presets_of()[i].options_of(),
            ),
            preset_index(m.preset),
        ),
        Id::What => completing(
            "What"@,
            "What to mount, e.g. "@ + m.preset.what_hint_of(),
            m.what,
            if m.preset == MountPreset::Block || m.preset == MountPreset::Bind {
                Completes::Paths
            } else {
                Completes::Nothing
            },
            None,
        ),
        Id::Where => completing(
            "Where"@,
            "Absolute mount point. The unit filename is derived from it."@,
            if text::is_blank(m.where_) {
                fields::or_empty(templates::where_of(m.what))
            } else {
                m.where_
            },
            Completes::Directories,
            None,
        ),
        Id::FsType => plain(
            "Type"@,
            "Filesystem type, e.g. ext4, nfs, cifs, auto, none (for bind)."@,
            m.fstype,
        ),
        Id::Options => AskView::Options(m.options, m.fstype),
        Id::Automount => AskView::Toggle,
        Id::TimeoutIdle => plain(
            "TimeoutIdleSec"@,
            "Unmount after this much idle time, e.g. 120 or 5min. Empty clears it."@,
            fields::or_empty(m.timeout_idle),
        ),
        _ => AskView::Nothing,
    }
}

/// The title and the help of the editor for free text.
pub open spec fn manual_help(u: UnitView, id: Id) -> (Seq<char>, Seq<char>) {
    match u.body {
        BodyView::Timer(_) => if id == Id::ManualPrimary {
            (
                "Extra .service directives"@,
                "Free-form lines appended to the .service file. Include a [Section] header."@,
            )
        } else {
            (
                "Extra .timer directives"@,
                "Free-form lines appended to the .timer file. Include a [Section] header."@,
            )
        },
        BodyView::Mount(_) => if id == Id::ManualPrimary {
            (
                "Extra .mount directives"@,
                "Free-form lines appended to the .mount file. Include a [Section] header."@,
            )
        } else {
            (
                "Extra .automount directives"@,
                "Free-form lines appended to the .automount file. Include a [Section] header."@,
            )
        },
        BodyView::Service(_) => (
            "Extra directives"@,
            "Free-form lines appended to the unit file. Include a [Section] header."@,
        ),
    }
}

/// What has to be asked for a row.
pub open spec fn ask_of(u: UnitView, id: Id, cwd: Option<Seq<char>>) -> AskView {
    match id {
        Id::Heading => AskView::Nothing,
        Id::Save => AskView::Nothing,
        Id::Preview => AskView::Preview,
        Id::Name => plain(
            "Unit name"@,
            "Short name; notcron- is prepended automatically."@,
            u.name,
        ),
        Id::Description => plain(
            "Description"@,
            "Shown by systemctl status and in the journal."@,
            u.description,
        ),
        Id::Scope => AskView::Pick(
            "Scope"@,
            seq![
                "user   -- ~/.config/systemd/user, no sudo, needs lingering"@,
                "system -- /etc/systemd/system, installed via sudo"@,
            ],
            if u.scope == Scope::System {
                1
            } else {
                0
            },
        ),
        Id::Schedule => if u.body is Timer {
            AskView::Schedule
        } else {
            AskView::Nothing
        },
        Id::Persistent => if u.body is Timer {
            AskView::Toggle
        } else {
            AskView::Nothing
        },
        Id::RandomDelay => match u.body {
            BodyView::Timer(t) => plain(
                "RandomizedDelaySec"@,
                "Spread the start over a window, e.g. 30s or 5m. Empty clears it."@,
                fields::or_empty(t.randomized_delay),
            ),
            _ => AskView::Nothing,
        },
        Id::WantedBy => match u.body {
            BodyView::Service(s) => {
                let c = fields::choices_of(u.scope, s.wanted_by);
                AskView::Pick(
                    "WantedBy="@,
                    Seq::new(c.len(), |i: int| c[i].1),
                    target_index(c, s.wanted_by),
                )
            },
            _ => AskView::Nothing,
        },
        Id::ManualPrimary | Id::ManualSecondary => AskView::Lines(
            manual_help(u, id).0,
            manual_help(u, id).1,
            fields::manual_of(u, id),
        ),
        _ => match u.body {
            BodyView::Timer(t) => ask_service_of(t.service, id, cwd),
            BodyView::Service(s) => ask_service_of(s.service, id, cwd),
            BodyView::Mount(m) => ask_mount_of(m, id),
        },
    }
}

fn prompt(title: &'static str, help: &str, initial: String) -> (r: Ask)
    ensures
        r@ == plain(title@, help@, initial@),
{
    Ask::Text(
        Prompted { title, help: help.to_owned(), initial, completes: Completes::Nothing, toggle: None },
    )
}

fn prompt_with(
    title: &'static str,
    help: &str,
    initial: String,
    completes: Completes,
    toggle: Option<&'static str>,
) -> (r: Ask)
    ensures
        r@ == completing(
            title@,
            help@,
            initial@,
            completes,
            match toggle {
                Some(t) => Some(t@),
                None => None,
            },
        ),
{
    Ask::Text(Prompted { title, help: help.to_owned(), initial, completes, toggle })
}

fn type_items() -> (r: Vec<String>)
    ensures
        text::texts(r@) == Seq::new(types_of().len(), |i: int| types_of()[i].name()),
{
    let all = ServiceType::all();
    let mut out: Vec<String> = Vec::new();
    let mut i: usize = 0;
    while i < all.len()
        invariant
            i <= all@.len(),
            all@ == types_of(),
            out@.len() == i,
            forall|k: int| 0 <= k < i ==> (#[trigger] out@[k])@ == types_of()[k].name(),
        decreases all@.len() - i,
    {
        out.push(all[i].as_str().to_owned());
        i += 1;
    }
    assert(text::texts(out@) =~= Seq::new(types_of().len(), |i: int| types_of()[i].name()));
    out
}

fn policy_items() -> (r: Vec<String>)
    ensures
        text::texts(r@) == Seq::new(policies_of().len(), |i: int| policies_of()[i].name()),
{
    let all = RestartPolicy::all();
    let mut out: Vec<String> = Vec::new();
    let mut i: usize = 0;
    while i < all.len()
        invariant
            i <= all@.len(),
            all@ == policies_of(),
            out@.len() == i,
            forall|k: int| 0 <= k < i ==> (#[trigger] out@[k])@ == policies_of()[k].name(),
        decreases all@.len() - i,
    {
        out.push(all[i].as_str().to_owned());
        i += 1;
    }
    assert(text::texts(out@) =~= Seq::new(policies_of().len(), |i: int| policies_of()[i].name()));
    out
}

fn preset_items() -> (r: Vec<String>)
    ensures
        text::texts(r@) == Seq::new(
            presets_of().len(),
            |i: int|
                text::pad_right_of(presets_of()[i].label_of(), 32) + " "@
                    + presets_of()[i].options_of(),
        ),
{
    let all = MountPreset::all();
    let mut out: Vec<String> = Vec::new();
    let mut i: usize = 0;
    while i < all.len()
        invariant
            i <= all@.len(),
            all@ == presets_of(),
            out@.len() == i,
            forall|k: int|
                0 <= k < i ==> (#[trigger] out@[k])@ == text::pad_right_of(
                    presets_of()[k].label_of(),
                    32,
                ) + " "@ + presets_of()[k].options_of(),
        decreases all@.len() - i,
    {
        let label = text::pad_right(all[i].label(), 32);
        out.push(text::cat3(label.as_str(), " ", all[i].options()));
        i += 1;
    }
    assert(text::texts(out@) =~= Seq::new(
        presets_of().len(),
        |i: int|
            text::pad_right_of(presets_of()[i].label_of(), 32) + " "@ + presets_of()[i].options_of(),
    ));
    out
}

fn index_of_type(t: ServiceType) -> (r: usize)
    ensures
        r == type_index(t),
        types_of()[r as int] == t,
{
    match t {
        ServiceType::Simple => 0,
        ServiceType::Exec => 1,
        ServiceType::Forking => 2,
        ServiceType::Oneshot => 3,
        ServiceType::Notify => 4,
        ServiceType::Idle => 5,
    }
}

fn index_of_policy(p: RestartPolicy) -> (r: usize)
    ensures
        r == policy_index(p),
        policies_of()[r as int] == p,
{
    match p {
        RestartPolicy::No => 0,
        RestartPolicy::OnSuccess => 1,
        RestartPolicy::OnFailure => 2,
        RestartPolicy::OnAbnormal => 3,
        RestartPolicy::OnAbort => 4,
        RestartPolicy::Always => 5,
    }
}

fn index_of_preset(p: MountPreset) -> (r: usize)
    ensures
        r == preset_index(p),
        presets_of()[r as int] == p,
{
    match p {
        MountPreset::Block => 0,
        MountPreset::Nfs => 1,
        MountPreset::Cifs => 2,
        MountPreset::Bind => 3,
    }
}

fn ask_service(s: &ServiceOpts, id: Id, cwd: &Option<String>) -> (r: Ask)
    ensures
        r@ == ask_service_of(s@, id, text::opt_text(*cwd)),
{
    match id {
        Id::ServiceType => Ask::Pick("Type=", type_items(), index_of_type(s.service_type)),
        Id::ExecStart => prompt_with(
            "ExecStart",
            "Absolute path plus arguments. Shell syntax needs the wrapper below.",
            s.exec_start.clone(),
            Completes::Commands,
            None,
        ),
        Id::ShellWrap => {
            let body = if text::starts_with(s.exec_start.as_str(), "/bin/sh -c ") {
                "Unwrap this command back to a plain argv line?"
            } else {
                "Run this command through /bin/sh -c, so pipes, redirects and globs work?"
            };
            Ask::Confirm("Shell wrapper", body)
        },
        Id::ExecStartPre => prompt_with(
            "ExecStartPre",
            "Runs before ExecStart. Empty clears it.",
            fields::opt_or_empty(&s.exec_start_pre),
            Completes::Commands,
            None,
        ),
        Id::ExecStopPost => prompt_with(
            "ExecStopPost",
            "Runs after the service stops, success or failure. Empty clears it.",
            fields::opt_or_empty(&s.exec_stop_post),
            Completes::Commands,
            None,
        ),
        Id::Restart => Ask::Pick("Restart=", policy_items(), index_of_policy(s.restart)),
        Id::RestartSec => prompt(
            "RestartSec",
            "Delay before restarting, e.g. 5s. Empty clears it.",
            fields::opt_or_empty(&s.restart_sec),
        ),
        Id::WorkDir => {
            let initial = match &s.working_directory {
                Some(d) => d.clone(),
                None => fields::opt_or_empty(&templates::suggest_working_directory(cwd)),
            };
            prompt_with(
                "WorkingDirectory",
                "Absolute path the command runs in. Empty clears it.",
                initial,
                Completes::Directories,
                None,
            )
        },
        Id::RunAs => prompt_with(
            "User",
            "User= (system units only). Empty clears it.",
            fields::opt_or_empty(&s.run_as),
            Completes::Users,
            Some("system accounts"),
        ),
        Id::Group => prompt_with(
            "Group",
            "Group= (system units only). Empty clears it.",
            fields::opt_or_empty(&s.group),
            Completes::Groups,
            Some("system groups"),
        ),
        Id::Env => Ask::Lines(
            "Environment",
            "One KEY=VALUE per line.",
            parts::join(&s.environment, "\n"),
        ),
        _ => Ask::Nothing,
    }
}

fn ask_mount(m: &MountUnit, id: Id) -> (r: Ask)
    ensures
        r@ == ask_mount_of(m@, id),
{
    match id {
        Id::Preset => Ask::Pick("Filesystem preset", preset_items(), index_of_preset(m.preset)),
        Id::What => {
            let help = text::cat2("What to mount, e.g. ", m.preset.what_hint());
            let completes = if m.preset.what_is_path() {
                Completes::Paths
            } else {
                Completes::Nothing
            };
            prompt_with("What", help.as_str(), m.what.clone(), completes, None)
        },
        Id::Where => {
            let initial = if text::blank(m.where_.as_str()) {
                fields::opt_or_empty(&templates::suggest_where(m.what.as_str()))
            } else {
                m.where_.clone()
            };
            prompt_with(
                "Where",
                "Absolute mount point. The unit filename is derived from it.",
                initial,
                Completes::Directories,
                None,
            )
        },
        Id::FsType => prompt(
            "Type",
            "Filesystem type, e.g. ext4, nfs, cifs, auto, none (for bind).",
            m.fstype.clone(),
        ),
        Id::Options => Ask::Options(m.options.clone(), m.fstype.clone()),
        Id::Automount => Ask::Toggle,
        Id::TimeoutIdle => prompt(
            "TimeoutIdleSec",
            "Unmount after this much idle time, e.g. 120 or 5min. Empty clears it.",
            fields::opt_or_empty(&m.timeout_idle),
        ),
        _ => Ask::Nothing,
    }
}

proof fn lemma_target_index(choices: Seq<(Seq<char>, Seq<char>)>, current: Seq<char>, k: int)
    requires
        0 <= k < choices.len(),
        choices[k].0 == current,
        forall|i: int| 0 <= i < k ==> (#[trigger] choices[i]).0 != current,
    ensures
        target_index(choices, current) == k,
    decreases choices.len(),
{
    if k < choices.len() - 1 {
        let d = choices.drop_last();
        assert(d[k].0 == current);
        assert forall|i: int| 0 <= i < k implies (#[trigger] d[i]).0 != current by {
            assert(d[i] == choices[i]);
        }
        lemma_target_index(d, current, k);
        assert(choices[k].0 == current);
    }
}

proof fn lemma_no_target(choices: Seq<(Seq<char>, Seq<char>)>, current: Seq<char>)
    requires
        forall|i: int| 0 <= i < choices.len() ==> (#[trigger] choices[i]).0 != current,
    ensures
        target_index(choices, current) == 0,
    decreases choices.len(),
{
    if choices.len() > 0 {
        let d = choices.drop_last();
        assert forall|i: int| 0 <= i < d.len() implies (#[trigger] d[i]).0 != current by {
            assert(d[i] == choices[i]);
        }
        lemma_no_target(d, current);
        assert(choices[choices.len() - 1].0 != current);
    }
}

fn ask_wanted_by(u: &Unit) -> (r: Ask)
    ensures
        r@ == (match u@.body {
            BodyView::Service(s) => {
                let c = fields::choices_of(u@.scope, s.wanted_by);
                AskView::Pick(
                    "WantedBy="@,
                    Seq::new(c.len(), |i: int| c[i].1),
                    target_index(c, s.wanted_by),
                )
            },
            _ => AskView::Nothing,
        }),
{
    let is_service = match &u.body {
        Body::Service(_) => true,
        _ => false,
    };
    if !is_service {
        return Ask::Nothing;
    }
    let current = fields::current_wanted_by(u);
    let choices = fields::wanted_by_choices(u.scope, current.as_str());
    let ghost c = fields::choices_of(u@.scope, current@);
    let ghost got = Seq::new(choices@.len(), |i: int| (choices@[i].0@, choices@[i].1@));
    let mut labels: Vec<String> = Vec::new();
    let mut at: usize = 0;
    let mut seen = false;
    let mut i: usize = 0;
    while i < choices.len()
        invariant
            i <= choices@.len(),
            c == got,
            got == Seq::new(choices@.len(), |i: int| (choices@[i].0@, choices@[i].1@)),
            labels@.len() == i,
            forall|k: int| 0 <= k < i ==> (#[trigger] labels@[k])@ == c[k].1,
            seen ==> at < i && c[at as int].0 == current@,
            !seen ==> at == 0,
            seen ==> forall|k: int| 0 <= k < at ==> (#[trigger] c[k]).0 != current@,
            !seen ==> forall|k: int| 0 <= k < i ==> (#[trigger] c[k]).0 != current@,
        decreases choices@.len() - i,
    {
        assert(c[i as int] == (choices@[i as int].0@, choices@[i as int].1@));
        labels.push(choices[i].1.clone());
        if !seen && text::same(choices[i].0.as_str(), current.as_str()) {
            seen = true;
            at = i;
        }
        i += 1;
    }
    proof {
        if seen {
            lemma_target_index(c, current@, at as int);
        } else {
            lemma_no_target(c, current@);
        }
    }
    assert(text::texts(labels@) =~= Seq::new(c.len(), |i: int| c[i].1));
    Ask::Pick("WantedBy=", labels, at)
}

fn ask_manual(u: &Unit, id: Id) -> (r: Ask)
    ensures
        r@ == AskView::Lines(
            manual_help(u@, id).0,
            manual_help(u@, id).1,
            fields::manual_of(u@, id),
        ),
{
    let now = fields::manual_field(u, id).to_owned();
    match &u.body {
        Body::Timer(_) => if id == Id::ManualPrimary {
            Ask::Lines(
                "Extra .service directives",
                "Free-form lines appended to the .service file. Include a [Section] header.",
                now,
            )
        } else {
            Ask::Lines(
                "Extra .timer directives",
                "Free-form lines appended to the .timer file. Include a [Section] header.",
                now,
            )
        },
        Body::Mount(_) => if id == Id::ManualPrimary {
            Ask::Lines(
                "Extra .mount directives",
                "Free-form lines appended to the .mount file. Include a [Section] header.",
                now,
            )
        } else {
            Ask::Lines(
                "Extra .automount directives",
                "Free-form lines appended to the .automount file. Include a [Section] header.",
                now,
            )
        },
        Body::Service(_) => Ask::Lines(
            "Extra directives",
            "Free-form lines appended to the unit file. Include a [Section] header.",
            now,
        ),
    }
}

/// What has to be asked for a row. `cwd` is the directory the program was
/// started in, which an unset working directory is suggested from.
pub fn ask(u: &Unit, id: Id, cwd: &Option<String>) -> (r: Ask)
    requires
        row_fits(u@, id),
    ensures
        r@ == ask_of(u@, id, text::opt_text(*cwd)),
{
    match id {
        Id::Heading => Ask::Nothing,
        Id::Save => Ask::Nothing,
        Id::Preview => Ask::Preview,
        Id::Name => prompt(
            "Unit name",
            "Short name; notcron- is prepended automatically.",
            u.name.clone(),
        ),
        Id::Description => prompt(
            "Description",
            "Shown by systemctl status and in the journal.",
            u.description.clone(),
        ),
        Id::Scope => {
            let items: Vec<String> = vec![
                "user   -- ~/.config/systemd/user, no sudo, needs lingering".to_owned(),
                "system -- /etc/systemd/system, installed via sudo".to_owned(),
            ];
            assert(text::texts(items@) =~= seq![
                "user   -- ~/.config/systemd/user, no sudo, needs lingering"@,
                "system -- /etc/systemd/system, installed via sudo"@,
            ]);
            let at: usize = if u.scope == Scope::System {
                1
            } else {
                0
            };
            Ask::Pick("Scope", items, at)
        },
        Id::Schedule => match &u.body {
            Body::Timer(_) => Ask::Schedule,
            _ => Ask::Nothing,
        },
        Id::Persistent => match &u.body {
            Body::Timer(_) => Ask::Toggle,
            _ => Ask::Nothing,
        },
        Id::RandomDelay => match &u.body {
            Body::Timer(t) => prompt(
                "RandomizedDelaySec",
                "Spread the start over a window, e.g. 30s or 5m. Empty clears it.",
                fields::opt_or_empty(&t.randomized_delay),
            ),
            _ => Ask::Nothing,
        },
        Id::WantedBy => ask_wanted_by(u),
        Id::ManualPrimary | Id::ManualSecondary => ask_manual(u, id),
        _ => match &u.body {
            Body::Timer(t) => ask_service(&t.service, id, cwd),
            Body::Service(s) => ask_service(&s.service, id, cwd),
            Body::Mount(m) => ask_mount(m, id),
        },
    }
}

// ---------------------------------------------------------------------------
// Checking a reply
// ---------------------------------------------------------------------------

/// Why a text is not accepted for a row, if it is not.
pub open spec fn refusal_of(id: Id, s: Seq<char>) -> Option<Seq<char>> {
    match id {
        Id::Name => model::name_error(escape::slug_of(s)),
        Id::ExecStart => if text::is_blank(s) {
            Some("ExecStart must not be empty"@)
        } else {
            None
        },
        Id::What => if text::is_blank(s) {
            Some("What= must not be empty"@)
        } else {
            None
        },
        Id::FsType => if text::is_blank(s) {
            Some("Type= must not be empty"@)
        } else {
            None
        },
        Id::Where => match escape::escape_path_of(s) {
            Ok(_) => None,
            Err(e) => Some(e),
        },
        _ => None,
    }
}

/// Checks a text for a row.
pub fn check(id: Id, s: &str) -> (r: Result<(), String>)
    ensures
        match r {
            Ok(_) => refusal_of(id, s@) is None,
            Err(e) => refusal_of(id, s@) == Some(e@),
        },
{
    match id {
        Id::Name => model::validate_name(escape::slugify(s).as_str()),
        Id::ExecStart => if text::blank(s) {
            Err("ExecStart must not be empty".to_owned())
        } else {
            Ok(())
        },
        Id::What => if text::blank(s) {
            Err("What= must not be empty".to_owned())
        } else {
            Ok(())
        },
        Id::FsType => if text::blank(s) {
            Err("Type= must not be empty".to_owned())
        } else {
            Ok(())
        },
        Id::Where => match escape::escape_path(s) {
            Ok(_) => Ok(()),
            Err(e) => Err(e),
        },
        _ => Ok(()),
    }
}

/// Whether a row takes a time span, which systemd has the last word on.
pub fn takes_span(id: Id) -> (r: bool)
    ensures
        r == (id == Id::RandomDelay || id == Id::RestartSec || id == Id::TimeoutIdle),
{
    id == Id::RandomDelay || id == Id::RestartSec || id == Id::TimeoutIdle
}

/// Checks a time span, by what systemd said of it: a blank one clears the
/// field and is always accepted.
pub fn check_span(s: &str, out: &Option<Outcome>) -> (r: Result<(), String>)
    ensures
        text::is_blank(s@) ==> r is Ok,
        !text::is_blank(s@) ==> match r {
            Ok(_) => *out is None || out->0.success,
            Err(e) => *out is Some && !out->0.success && e@ == "'"@ + text::trim_of(s@)
                + "' is not a valid time span"@,
        },
{
    if text::blank(s) {
        Ok(())
    } else {
        systemd::check_timespan(text::trim(s), out)
    }
}

// ---------------------------------------------------------------------------
// Applying a reply
// ---------------------------------------------------------------------------

/// A value that clears the field where it is blank.
pub open spec fn cleared_of(v: Seq<char>) -> Option<Seq<char>> {
    if text::is_blank(v) {
        None
    } else {
        Some(v)
    }
}

/// A time span that clears the field where it is blank.
pub open spec fn span_of(v: Seq<char>) -> Option<Seq<char>> {
    if text::is_blank(v) {
        None
    } else {
        Some(text::trim_of(v))
    }
}

fn cleared(v: String) -> (r: Option<String>)
    ensures
        text::opt_text(r) == cleared_of(v@),
{
    if text::blank(v.as_str()) {
        None
    } else {
        Some(v)
    }
}

fn span(v: &str) -> (r: Option<String>)
    ensures
        text::opt_text(r) == span_of(v@),
{
    if text::blank(v) {
        None
    } else {
        Some(text::trim(v).to_owned())
    }
}

/// The lines that are not blank, without the white space around them.
pub open spec fn trimmed_lines(lines: Seq<Seq<char>>) -> Seq<Seq<char>>
    decreases lines.len(),
{
    if lines.len() == 0 {
        seq![]
    } else if text::is_blank(lines.last()) {
        trimmed_lines(lines.drop_last())
    } else {
        trimmed_lines(lines.drop_last()).push(text::trim_of(lines.last()))
    }
}

fn environment(v: &str) -> (r: Vec<String>)
    ensures
        text::texts(r@) == trimmed_lines(parts::lines_of(v@)),
{
    let lines = parts::lines(v);
    let ghost all = text::texts(lines@);
    let mut out: Vec<String> = Vec::new();
    let mut i: usize = 0;
    assert(all.take(0) =~= seq![]);
    assert(text::texts(out@) =~= seq![]);
    while i < lines.len()
        invariant
            i <= lines@.len(),
            all == text::texts(lines@),
            text::texts(out@) == trimmed_lines(all.take(i as int)),
        decreases lines@.len() - i,
    {
        assert(all.take(i + 1).drop_last() =~= all.take(i as int));
        assert(all.take(i + 1).last() == lines@[i as int]@);
        let ghost before = text::texts(out@);
        if !text::blank(lines[i].as_str()) {
            let line = text::trim(lines[i].as_str()).to_owned();
            out.push(line);
            assert(text::texts(out@) =~= before.push(text::trim_of(all[i as int])));
        }
        i += 1;
    }
    assert(all.take(lines@.len() as int) =~= all);
    out
}

/// Service settings after a reply.
pub open spec fn applied_service(s: ServiceView, id: Id, reply: ReplyView) -> ServiceView {
    match (id, reply) {
        (Id::ServiceType, ReplyView::Picked(i)) => if 0 <= i < types_of().len() {
            ServiceView { service_type: types_of()[i], ..s }
        } else {
            s
        },
        (Id::ExecStart, ReplyView::Text(v)) => ServiceView { exec_start: v, ..s },
        (Id::ShellWrap, ReplyView::Yes) => ServiceView {
            exec_start: if fields::shell().is_prefix_of(s.exec_start) {
                fields::unwrapped_of(s.exec_start)
            } else {
                fields::wrapped_of(s.exec_start)
            },
            ..s
        },
        (Id::ExecStartPre, ReplyView::Text(v)) => ServiceView {
            exec_start_pre: cleared_of(v),
            ..s
        },
        (Id::ExecStopPost, ReplyView::Text(v)) => ServiceView {
            exec_stop_post: cleared_of(v),
            ..s
        },
        (Id::Restart, ReplyView::Picked(i)) => if 0 <= i < policies_of().len() {
            ServiceView { restart: policies_of()[i], ..s }
        } else {
            s
        },
        (Id::RestartSec, ReplyView::Text(v)) => ServiceView { restart_sec: span_of(v), ..s },
        (Id::WorkDir, ReplyView::Text(v)) => ServiceView { working_directory: cleared_of(v), ..s },
        (Id::RunAs, ReplyView::Text(v)) => ServiceView { run_as: cleared_of(v), ..s },
        (Id::Group, ReplyView::Text(v)) => ServiceView { group: cleared_of(v), ..s },
        (Id::Env, ReplyView::Text(v)) => ServiceView {
            environment: trimmed_lines(parts::lines_of(v)),
            ..s
        },
        _ => s,
    }
}

/// A mount after a reply.
pub open spec fn applied_mount(m: MountView, id: Id, reply: ReplyView) -> MountView {
    match (id, reply) {
        (Id::Preset, ReplyView::Picked(i)) => if 0 <= i < presets_of().len() {
            MountView {
                preset: presets_of()[i],
                fstype: presets_of()[i].fstype_of(),
                options: presets_of()[i].options_of(),
                ..m
            }
        } else {
            m
        },
        (Id::What, ReplyView::Text(v)) => MountView {
            what: v,
            where_: match fields::suggested_where_of(m.where_, v) {
                Some(w) => w,
                None => m.where_,
            },
            ..m
        },
        (Id::Where, ReplyView::Text(v)) => MountView { where_: v, ..m },
        (Id::FsType, ReplyView::Text(v)) => MountView { fstype: v, ..m },
        (Id::Options, ReplyView::Text(v)) => MountView { options: v, ..m },
        (Id::Automount, ReplyView::Yes) => MountView {
            automount: !m.automount,
            timeout_idle: if !m.automount && m.timeout_idle is None {
                Some("120"@)
            } else {
                m.timeout_idle
            },
            ..m
        },
        (Id::TimeoutIdle, ReplyView::Text(v)) => MountView { timeout_idle: span_of(v), ..m },
        _ => m,
    }
}

/// A timer after a reply.
pub open spec fn applied_timer(t: TimerView, id: Id, reply: ReplyView) -> TimerView {
    match (id, reply) {
        (Id::Persistent, ReplyView::Yes) => TimerView { persistent: !t.persistent, ..t },
        (Id::RandomDelay, ReplyView::Text(v)) => TimerView { randomized_delay: span_of(v), ..t },
        _ => TimerView { service: applied_service(t.service, id, reply), ..t },
    }
}

/// A standalone service after a reply.
pub open spec fn applied_standalone(
    s: StandaloneView,
    scope: Scope,
    id: Id,
    reply: ReplyView,
) -> StandaloneView {
    match (id, reply) {
        (Id::WantedBy, ReplyView::Picked(i)) => {
            let c = fields::choices_of(scope, s.wanted_by);
            if 0 <= i < c.len() {
                StandaloneView { wanted_by: c[i].0, ..s }
            } else {
                s
            }
        },
        _ => StandaloneView { service: applied_service(s.service, id, reply), ..s },
    }
}

/// A unit moved to another scope. The two managers have different targets, so
/// one that is not reachable any more is replaced by the new scope's default.
pub open spec fn rescoped(u: UnitView, scope: Scope) -> UnitView {
    UnitView {
        scope,
        body: match u.body {
            BodyView::Service(s) => if scope.targets().contains(s.wanted_by) {
                u.body
            } else {
                BodyView::Service(StandaloneView { wanted_by: scope.targets()[0], ..s })
            },
            _ => u.body,
        },
        ..u
    }
}

/// What a reply does to a unit.
pub open spec fn applied_of(u: UnitView, id: Id, reply: ReplyView) -> UnitView {
    match (id, reply) {
        (Id::Name, ReplyView::Text(v)) => UnitView { name: escape::slug_of(v), ..u },
        (Id::Description, ReplyView::Text(v)) => UnitView { description: v, ..u },
        (Id::Scope, ReplyView::Picked(i)) => rescoped(
            u,
            if i == 1 {
                Scope::System
            } else {
                Scope::User
            },
        ),
        (Id::ManualPrimary, ReplyView::Text(v)) => fields::with_manual(u, id, v),
        (Id::ManualSecondary, ReplyView::Text(v)) => fields::with_manual(u, id, v),
        _ => {
            let v = UnitView {
                body: match u.body {
                    BodyView::Timer(t) => BodyView::Timer(applied_timer(t, id, reply)),
                    BodyView::Service(s) => BodyView::Service(
                        applied_standalone(s, u.scope, id, reply),
                    ),
                    BodyView::Mount(m) => BodyView::Mount(applied_mount(m, id, reply)),
                },
                ..u
            };
            if (id == Id::What || id == Id::Where) && reply is Text && u.body is Mount {
                fields::named_of(v)
            } else if id == Id::ExecStart && reply is Text && !(u.body is Mount) {
                match fields::suggested_name_of(u.name, reply->Text_0) {
                    Some(n) => UnitView { name: n, ..v },
                    None => v,
                }
            } else {
                v
            }
        },
    }
}

fn apply_service(s: &ServiceOpts, id: Id, reply: &Reply) -> (r: ServiceOpts)
    ensures
        r@ == applied_service(s@, id, reply@),
{
    let mut c = s.clone();
    match (id, reply) {
        (Id::ServiceType, Reply::Picked(i)) => {
            let all = ServiceType::all();
            if *i < all.len() {
                c.service_type = all[*i];
            }
        },
        (Id::ExecStart, Reply::Text(v)) => {
            c.exec_start = v.clone();
        },
        (Id::ShellWrap, Reply::Yes) => {
            if text::starts_with(c.exec_start.as_str(), "/bin/sh -c ") {
                c.exec_start = fields::unwrap_shell(c.exec_start.as_str());
            } else {
                let q = escape::exec_quote(c.exec_start.as_str());
                c.exec_start = text::cat2("/bin/sh -c ", q.as_str());
            }
        },
        (Id::ExecStartPre, Reply::Text(v)) => {
            c.exec_start_pre = cleared(v.clone());
        },
        (Id::ExecStopPost, Reply::Text(v)) => {
            c.exec_stop_post = cleared(v.clone());
        },
        (Id::Restart, Reply::Picked(i)) => {
            let all = RestartPolicy::all();
            if *i < all.len() {
                c.restart = all[*i];
            }
        },
        (Id::RestartSec, Reply::Text(v)) => {
            c.restart_sec = span(v.as_str());
        },
        (Id::WorkDir, Reply::Text(v)) => {
            c.working_directory = cleared(v.clone());
        },
        (Id::RunAs, Reply::Text(v)) => {
            c.run_as = cleared(v.clone());
        },
        (Id::Group, Reply::Text(v)) => {
            c.group = cleared(v.clone());
        },
        (Id::Env, Reply::Text(v)) => {
            c.environment = environment(v.as_str());
        },
        _ => {},
    }
    c
}

fn apply_mount(m: &MountUnit, id: Id, reply: &Reply) -> (r: MountUnit)
    ensures
        r@ == applied_mount(m@, id, reply@),
{
    let mut c = m.clone();
    match (id, reply) {
        (Id::Preset, Reply::Picked(i)) => {
            let all = MountPreset::all();
            if *i < all.len() {
                c.preset = all[*i];
                c.fstype = all[*i].fstype().to_owned();
                c.options = all[*i].options().to_owned();
            }
        },
        (Id::What, Reply::Text(v)) => {
            if let Some(w) = fields::suggested_where(c.where_.as_str(), v.as_str()) {
                c.where_ = w;
            }
            c.what = v.clone();
        },
        (Id::Where, Reply::Text(v)) => {
            c.where_ = v.clone();
        },
        (Id::FsType, Reply::Text(v)) => {
            c.fstype = v.clone();
        },
        (Id::Options, Reply::Text(v)) => {
            c.options = v.clone();
        },
        (Id::Automount, Reply::Yes) => {
            c.automount = !c.automount;
            if c.automount && c.timeout_idle.is_none() {
                c.timeout_idle = Some("120".to_owned());
            }
        },
        (Id::TimeoutIdle, Reply::Text(v)) => {
            c.timeout_idle = span(v.as_str());
        },
        _ => {},
    }
    c
}

fn apply_timer(t: &TimerJob, id: Id, reply: &Reply) -> (r: TimerJob)
    ensures
        r@ == applied_timer(t@, id, reply@),
{
    let mut c = t.clone();
    match (id, reply) {
        (Id::Persistent, Reply::Yes) => {
            c.persistent = !c.persistent;
        },
        (Id::RandomDelay, Reply::Text(v)) => {
            c.randomized_delay = span(v.as_str());
        },
        _ => {
            c.service = apply_service(&t.service, id, reply);
        },
    }
    c
}

fn apply_standalone(s: &StandaloneService, scope: Scope, id: Id, reply: &Reply) -> (r:
    StandaloneService)
    ensures
        r@ == applied_standalone(s@, scope, id, reply@),
{
    let mut c = s.clone();
    match (id, reply) {
        (Id::WantedBy, Reply::Picked(i)) => {
            let choices = fields::wanted_by_choices(scope, s.wanted_by.as_str());
            let ghost got = Seq::new(choices@.len(), |i: int| (choices@[i].0@, choices@[i].1@));
            assert(got.len() == choices@.len());
            if *i < choices.len() {
                assert(got[*i as int].0 == choices@[*i as int].0@);
                c.wanted_by = choices[*i].0.clone();
            }
        },
        _ => {
            c.service = apply_service(&s.service, id, reply);
        },
    }
    c
}

fn rescope(u: &mut Unit, scope: Scope)
    ensures
        final(u)@ == rescoped(old(u)@, scope),
{
    u.scope = scope;
    let other = match &u.body {
        Body::Service(s) => {
            if scope.has_install_target(s.wanted_by.as_str()) {
                None
            } else {
                let mut c: StandaloneService = (**s).clone();
                c.wanted_by = scope.default_install_target().to_owned();
                Some(c)
            }
        },
        _ => None,
    };
    if let Some(c) = other {
        u.body = Body::Service(Box::new(c));
    }
}

/// Applies the reply to what was asked for a row.
pub fn apply(u: &mut Unit, id: Id, reply: Reply)
    requires
        row_fits(old(u)@, id),
    ensures
        final(u)@ == applied_of(old(u)@, id, reply@),
{
    match (id, &reply) {
        (Id::Name, Reply::Text(v)) => {
            u.name = escape::slugify(v.as_str());
            return;
        },
        (Id::Description, Reply::Text(v)) => {
            u.description = v.clone();
            return;
        },
        (Id::Scope, Reply::Picked(i)) => {
            let scope = if *i == 1 {
                Scope::System
            } else {
                Scope::User
            };
            rescope(u, scope);
            return;
        },
        (Id::ManualPrimary, Reply::Text(v)) => {
            fields::set_manual(u, id, v.clone());
            return;
        },
        (Id::ManualSecondary, Reply::Text(v)) => {
            fields::set_manual(u, id, v.clone());
            return;
        },
        _ => {},
    }
    let (body, mount) = match &u.body {
        Body::Timer(t) => (Body::Timer(Box::new(apply_timer(t, id, &reply))), false),
        Body::Service(s) => (
            Body::Service(Box::new(apply_standalone(s, u.scope, id, &reply))),
            false,
        ),
        Body::Mount(m) => (Body::Mount(Box::new(apply_mount(m, id, &reply))), true),
    };
    u.body = body;
    if let Reply::Text(v) = &reply {
        if (id == Id::What || id == Id::Where) && mount {
            fields::rename(u);
        } else if id == Id::ExecStart && !mount {
            if let Some(n) = fields::suggested_name(u.name.as_str(), v.as_str()) {
                u.name = n;
            }
        }
    }
}

/// Accepting what a prompt for the name or the description starts from
/// changes nothing that can be installed: the description stays, and so does
/// a name that is its own slug.
pub proof fn law_accepting_changes_nothing(u: UnitView)
    ensures
        applied_of(u, Id::Description, ReplyView::Text(u.description)) == u,
        escape::slug_of(u.name) == u.name ==> applied_of(u, Id::Name, ReplyView::Text(u.name)) == u,
{
}

/// A unit that has a name keeps it when its command changes.
pub proof fn law_a_name_is_never_replaced(u: UnitView, v: Seq<char>)
    requires
        !text::is_blank(u.name),
        !(u.body is Mount),
    ensures
        applied_of(u, Id::ExecStart, ReplyView::Text(v)).name == u.name,
{
}

/// A service moved to another scope is wanted by a target that scope has.
pub proof fn law_targets_follow_the_scope(u: UnitView, scope: Scope)
    requires
        u.body is Service,
    ensures
        rescoped(u, scope).body matches BodyView::Service(s) && scope.targets().contains(
            s.wanted_by,
        ),
{
    assert(scope.targets()[0] == scope.targets()[0]);
    assert(scope.targets().contains(scope.targets()[0]));
}

// ---------------------------------------------------------------------------
// What answering promises
// ---------------------------------------------------------------------------

/// The text that a question starts from.
pub open spec fn initial_text(a: AskView) -> Option<Seq<char>> {
    match a {
        AskView::Text(p) => Some(p.initial),
        AskView::Lines(_, _, s) => Some(s),
        AskView::Options(s, _) => Some(s),
        _ => None,
    }
}

/// Whether a text is an answer that is kept as it is: without white space
/// around it, and for a name one that is its own slug.
pub open spec fn is_kept_as_is(id: Id, v: Seq<char>) -> bool {
    &&& v.len() > 0
    &&& text::trim_of(v) == v
    &&& (id == Id::Name ==> escape::slug_of(v) == v)
}

/// What was answered is what the question starts from when it is asked again.
#[verifier::spinoff_prover]
#[verifier::rlimit(50)]
pub proof fn law_answers_are_remembered(u: UnitView, id: Id, v: Seq<char>, cwd: Option<Seq<char>>)
    requires
        row_fits(u, id),
        id != Id::Env,
        initial_text(ask_of(u, id, cwd)) is Some,
        is_kept_as_is(id, v),
    ensures
        initial_text(ask_of(applied_of(u, id, ReplyView::Text(v)), id, cwd)) == Some(v),
{
    assert(!text::is_blank(v));
}

/// The variables that were entered are the lines that are shown again.
pub proof fn law_variables_are_remembered(u: UnitView, env: Seq<Seq<char>>, cwd: Option<Seq<char>>)
    requires
        row_fits(u, Id::Env),
        env.len() > 0,
        forall|i: int|
            0 <= i < env.len() ==> (#[trigger] env[i]).len() > 0 && text::trim_of(env[i]) == env[i]
                && parts::is_line(env[i]),
    ensures
        ({
            let v = parts::unlines_of(env);
            let after = applied_of(u, Id::Env, ReplyView::Text(v));
            validate::service_of(after) matches Some(s) && s.environment == env
        }),
{
    let v = parts::unlines_of(env);
    parts::lemma_lines_unlines(env, seq![]);
    assert(v + seq![] =~= v);
    assert(parts::lines_of(Seq::<char>::empty()) =~= seq![]);
    assert(parts::lines_of(v) =~= env);
    lemma_trimmed(env);
}

proof fn lemma_trimmed(env: Seq<Seq<char>>)
    requires
        forall|i: int|
            0 <= i < env.len() ==> (#[trigger] env[i]).len() > 0 && text::trim_of(env[i]) == env[i],
    ensures
        trimmed_lines(env) == env,
    decreases env.len(),
{
    if env.len() > 0 {
        let less = env.drop_last();
        assert forall|i: int| 0 <= i < less.len() implies (#[trigger] less[i]).len() > 0
            && text::trim_of(less[i]) == less[i] by {
            assert(less[i] == env[i]);
        }
        lemma_trimmed(less);
        assert(env[env.len() - 1] == env.last());
        assert(less.push(env.last()) =~= env);
    } else {
        assert(env =~= seq![]);
    }
}

/// What was picked is what is selected when the question is asked again.
#[verifier::spinoff_prover]
#[verifier::rlimit(50)]
pub proof fn law_picks_are_remembered(u: UnitView, id: Id, i: int, cwd: Option<Seq<char>>)
    requires
        row_fits(u, id),
        id != Id::WantedBy,
        ask_of(u, id, cwd) matches AskView::Pick(_, items, _) && 0 <= i < items.len(),
    ensures
        ask_of(applied_of(u, id, ReplyView::Picked(i)), id, cwd) matches AskView::Pick(_, _, k) && k
            == i,
{
}

/// A blank answer clears a setting that can be missing.
pub proof fn law_blank_answers_clear(u: UnitView, v: Seq<char>)
    requires
        text::is_blank(v),
    ensures
        ({
            let after = |id: Id| applied_of(u, id, ReplyView::Text(v));
            &&& validate::service_of(u) is Some ==> {
                &&& (validate::service_of(after(Id::ExecStartPre))->0).exec_start_pre is None
                &&& (validate::service_of(after(Id::ExecStopPost))->0).exec_stop_post is None
                &&& (validate::service_of(after(Id::WorkDir))->0).working_directory is None
                &&& (validate::service_of(after(Id::RunAs))->0).run_as is None
                &&& (validate::service_of(after(Id::Group))->0).group is None
                &&& (validate::service_of(after(Id::RestartSec))->0).restart_sec is None
            }
            &&& u.body is Timer ==> after(Id::RandomDelay).body->Timer_0.randomized_delay is None
            &&& u.body is Mount ==> after(Id::TimeoutIdle).body->Mount_0.timeout_idle is None
        }),
{
}

/// Whether an answer in one row shows in another.
pub open spec fn shows_in(u: UnitView, id: Id, other: Id) -> bool {
    match id {
        Id::ExecStart => other == Id::Name || other == Id::ShellWrap,
        Id::ShellWrap => other == Id::ExecStart,
        Id::What => other == Id::Where || other == Id::Name,
        Id::Where => other == Id::Name,
        Id::Preset => other == Id::FsType || other == Id::Options || other == Id::What,
        Id::FsType => other == Id::Options,
        Id::Automount => other == Id::TimeoutIdle,
        Id::Scope => other == Id::WantedBy,
        Id::ManualPrimary => other == Id::ManualSecondary && u.body is Service,
        Id::ManualSecondary => other == Id::ManualPrimary && u.body is Service,
        _ => false,
    }
}

/// An answer leaves every other row as it was, but for those that follow
/// from it.
#[verifier::spinoff_prover]
#[verifier::rlimit(80)]
pub proof fn law_answers_stay_in_their_row(
    u: UnitView,
    id: Id,
    reply: ReplyView,
    other: Id,
    cwd: Option<Seq<char>>,
)
    requires
        row_fits(u, id),
        row_fits(u, other),
        other != id,
        !shows_in(u, id, other),
    ensures
        ask_of(applied_of(u, id, reply), other, cwd) == ask_of(u, other, cwd),
{
}

/// Only the schedule's own questions change a schedule, and only the toggles
/// change what they toggle.
#[verifier::spinoff_prover]
#[verifier::rlimit(50)]
pub proof fn law_toggles_are_toggled(u: UnitView, id: Id, reply: ReplyView)
    requires
        row_fits(u, id),
    ensures
        u.body matches BodyView::Timer(t) ==> applied_of(u, id, reply).body matches BodyView::Timer(n)
            && n.schedule == t.schedule && n.source == t.source && n.persistent == (t.persistent != (
        id == Id::Persistent && reply is Yes)),
        u.body matches BodyView::Mount(m) ==> applied_of(u, id, reply).body matches BodyView::Mount(n)
            && n.automount == (m.automount != (id == Id::Automount && reply is Yes)),
{
}

/// Free text goes into the file that the question names: the first of the
/// two fields into the service or the mount, the second into the timer or the
/// automount.
pub proof fn law_free_text_goes_to_its_file(u: UnitView, v: Seq<char>)
    requires
        u.body is Timer || (u.body is Mount && u.body->Mount_0.automount),
    ensures
        ({
            let before = generate::render_of(u);
            let first = generate::render_of(
                applied_of(u, Id::ManualPrimary, ReplyView::Text(v)),
            );
            let second = generate::render_of(
                applied_of(u, Id::ManualSecondary, ReplyView::Text(v)),
            );
            &&& before.len() == 2 && first.len() == 2 && second.len() == 2
            &&& first[0] == before[0]
            &&& second[1] == before[1]
        }),
{
    let a = applied_of(u, Id::ManualPrimary, ReplyView::Text(v));
    let b = applied_of(u, Id::ManualSecondary, ReplyView::Text(v));
    assert(a.stem_of() == u.stem_of());
    assert(b.stem_of() == u.stem_of());
    let stem = u.stem_or_empty();
    match u.body {
        BodyView::Timer(t) => {
            assert(generate::timer_lines(a, a.body->Timer_0, stem) == generate::timer_lines(
                u,
                t,
                stem,
            ));
            assert(generate::timer_service_lines(b, b.body->Timer_0, stem)
                == generate::timer_service_lines(u, t, stem));
        },
        BodyView::Mount(m) => {
            assert(generate::automount_lines(a, a.body->Mount_0) == generate::automount_lines(
                u,
                m,
            ));
            assert(generate::mount_lines(b, b.body->Mount_0) == generate::mount_lines(u, m));
        },
        BodyView::Service(_) => {},
    }
}

} // verus!
