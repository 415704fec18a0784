//! The rows of the form, and moving among them.

use crate::number;
use crate::parts;
use crate::text;
use crate::unit::model::{Body, BodyView, MountUnit, MountView, ServiceOpts, ServiceView, StandaloneService};
use crate::unit::model::{StandaloneView, TimerJob, TimerView, Unit, UnitView};
use vstd::prelude::*;

verus! {

broadcast use vstd::string::group_string_axioms;

/// Identifies what activating a row does.
#[derive(Debug, Clone, Copy, PartialEq, Eq, Structural)]
pub enum Id {
    /// A non-selectable section heading.
    Heading,
    Name,
    Description,
    Scope,
    Schedule,
    Persistent,
    RandomDelay,
    ServiceType,
    ExecStart,
    ShellWrap,
    ExecStartPre,
    ExecStopPost,
    Restart,
    RestartSec,
    WorkDir,
    RunAs,
    Group,
    Env,
    WantedBy,
    Preset,
    What,
    Where,
    FsType,
    Options,
    Automount,
    TimeoutIdle,
    ManualPrimary,
    ManualSecondary,
    Preview,
    Save,
}

/// A row of the form.
#[derive(Debug)]
pub struct Row {
    pub id: Id,
    pub label: &'static str,
    pub value: String,
}

/// The contents of a [`Row`].
#[verifier::ext_equal]
pub struct RowView {
    pub id: Id,
    pub label: Seq<char>,
    pub value: Seq<char>,
}

impl View for Row {
    type V = RowView;

    open spec fn view(&self) -> RowView {
        RowView { id: self.id, label: self.label@, value: self.value@ }
    }
}

/// The contents of a list of rows.
pub open spec fn row_views(v: Seq<Row>) -> Seq<RowView> {
    Seq::new(v.len(), |i: int| v[i]@)
}

/// A row.
pub open spec fn row_of(id: Id, label: Seq<char>, value: Seq<char>) -> RowView {
    RowView { id, label, value }
}

/// A heading.
pub open spec fn heading_of(label: Seq<char>) -> RowView {
    RowView { id: Id::Heading, label, value: ""@ }
}

fn put(rows: &mut Vec<Row>, id: Id, label: &'static str, value: String)
    ensures
        row_views(final(rows)@) == row_views(old(rows)@).push(row_of(id, label@, value@)),
{
    let ghost before = row_views(rows@);
    rows.push(Row { id, label, value });
    assert(row_views(rows@) =~= before.push(row_of(id, label@, value@)));
}

fn add_heading(rows: &mut Vec<Row>, label: &'static str)
    ensures
        row_views(final(rows)@) == row_views(old(rows)@).push(heading_of(label@)),
{
    put(rows, Id::Heading, label, "".to_owned());
}

/// A value that may be unset.
pub open spec fn opt_value(v: Option<Seq<char>>) -> Seq<char> {
    match v {
        Some(s) => s,
        None => "(unset)"@,
    }
}

fn opt(v: &Option<String>) -> (r: String)
    ensures
        r@ == opt_value(text::opt_text(*v)),
{
    match v {
        Some(s) => s.clone(),
        None => "(unset)".to_owned(),
    }
}

/// `yes` or `no`.
pub open spec fn yesno_of(b: bool) -> Seq<char> {
    if b {
        "yes"@
    } else {
        "no"@
    }
}

fn yesno(b: bool) -> (r: String)
    ensures
        r@ == yesno_of(b),
{
    if b {
        "yes".to_owned()
    } else {
        "no".to_owned()
    }
}

/// How many of the lines are not blank.
pub open spec fn texts_in(lines: Seq<Seq<char>>) -> nat
    decreases lines.len(),
{
    if lines.len() == 0 {
        0
    } else {
        texts_in(lines.drop_last()) + if text::is_blank(lines.last()) {
            0nat
        } else {
            1nat
        }
    }
}

/// Free text in the space of a value.
pub open spec fn summary_of(s: Seq<char>) -> Seq<char> {
    let n = texts_in(parts::lines_of(s));
    if n == 0 {
        "(none)"@
    } else if n == 1 {
        text::trim_of(s)
    } else {
        "("@ + number::decimal(n) + " lines)"@
    }
}

/// Free text in the space of a value: nothing, its one line, or how many
/// lines it has.
pub fn summarize(s: &str) -> (r: String)
    ensures
        r@ == summary_of(s@),
{
    let lines = parts::lines(s);
    let ghost all = text::texts(lines@);
    let mut n: usize = 0;
    let mut i: usize = 0;
    assert(all.take(0) =~= seq![]);
    while i < lines.len()
        invariant
            i <= lines@.len(),
            n <= i,
            all == text::texts(lines@),
            n == texts_in(all.take(i as int)),
        decreases lines@.len() - i,
    {
        assert(all.take(i + 1).drop_last() =~= all.take(i as int));
        assert(all.take(i + 1).last() == lines@[i as int]@);
        if !text::blank(lines[i].as_str()) {
            n += 1;
        }
        i += 1;
    }
    assert(all.take(lines@.len() as int) =~= all);
    if n == 0 {
        "(none)".to_owned()
    } else if n == 1 {
        text::trim(s).to_owned()
    } else {
        text::cat3("(", number::usize_decimal(n).as_str(), " lines)")
    }
}

/// The rows of service settings.
pub open spec fn service_rows_of(s: ServiceView, with_restart: bool) -> Seq<RowView> {
    seq![
        row_of(Id::ServiceType, "Type"@, s.service_type.name()),
        row_of(Id::ExecStart, "ExecStart"@, s.exec_start),
        row_of(Id::ShellWrap, "Wrap in /bin/sh -c"@, "(press Enter)"@),
        row_of(Id::ExecStartPre, "ExecStartPre"@, opt_value(s.exec_start_pre)),
        row_of(Id::ExecStopPost, "ExecStopPost"@, opt_value(s.exec_stop_post)),
    ] + (if with_restart {
        seq![
            row_of(Id::Restart, "Restart"@, s.restart.name()),
            row_of(Id::RestartSec, "RestartSec"@, opt_value(s.restart_sec)),
        ]
    } else {
        seq![]
    }) + seq![
        row_of(Id::WorkDir, "WorkingDirectory"@, opt_value(s.working_directory)),
        row_of(Id::RunAs, "User"@, opt_value(s.run_as)),
        row_of(Id::Group, "Group"@, opt_value(s.group)),
        row_of(
            Id::Env,
            "Environment"@,
            if s.environment.len() == 0 {
                "(none)"@
            } else {
                parts::join_of(s.environment, "  "@)
            },
        ),
    ]
}

fn add_service(rows: &mut Vec<Row>, s: &ServiceOpts, with_restart: bool)
    ensures
        row_views(final(rows)@) == row_views(old(rows)@) + service_rows_of(s@, with_restart),
{
    let ghost start = row_views(rows@);
    put(rows, Id::ServiceType, "Type", s.service_type.as_str().to_owned());
    put(rows, Id::ExecStart, "ExecStart", s.exec_start.clone());
    put(rows, Id::ShellWrap, "Wrap in /bin/sh -c", "(press Enter)".to_owned());
    put(rows, Id::ExecStartPre, "ExecStartPre", opt(&s.exec_start_pre));
    put(rows, Id::ExecStopPost, "ExecStopPost", opt(&s.exec_stop_post));
    if with_restart {
        put(rows, Id::Restart, "Restart", s.restart.as_str().to_owned());
        put(rows, Id::RestartSec, "RestartSec", opt(&s.restart_sec));
    }
    put(rows, Id::WorkDir, "WorkingDirectory", opt(&s.working_directory));
    put(rows, Id::RunAs, "User", opt(&s.run_as));
    put(rows, Id::Group, "Group", opt(&s.group));
    let env = if s.environment.len() == 0 {
        "(none)".to_owned()
    } else {
        parts::join(&s.environment, "  ")
    };
    put(rows, Id::Env, "Environment", env);
    assert(row_views(rows@) =~= start + service_rows_of(s@, with_restart));
}

/// The file name that a unit will have, or a word for none.
pub open spec fn stem_text(u: UnitView) -> Seq<char> {
    match u.stem_of() {
        Ok(s) => s,
        Err(_) => "(invalid)"@,
    }
}

/// The rows of what every unit but a mount has.
pub open spec fn unit_rows_of(u: UnitView) -> Seq<RowView> {
    seq![
        heading_of("Unit"@),
        row_of(Id::Name, "Name"@, u.name + " -> "@ + stem_text(u)),
        row_of(Id::Description, "Description"@, u.description),
        row_of(Id::Scope, "Scope"@, u.scope.name()),
    ]
}

/// The rows of a timer.
pub open spec fn timer_rows_of(u: UnitView, t: TimerView) -> Seq<RowView> {
    unit_rows_of(u) + seq![
        heading_of("Schedule"@),
        row_of(Id::Schedule, "When"@, t.schedule.summary_of()),
        row_of(Id::Persistent, "Persistent"@, yesno_of(t.persistent)),
        row_of(Id::RandomDelay, "RandomizedDelaySec"@, opt_value(t.randomized_delay)),
        heading_of("Service"@),
    ] + service_rows_of(t.service, false) + seq![
        heading_of("Manual directives"@),
        row_of(Id::ManualPrimary, "Extra [Service] lines"@, summary_of(t.service_manual)),
        row_of(Id::ManualSecondary, "Extra [Timer] lines"@, summary_of(t.timer_manual)),
    ]
}

/// The rows of a standalone service.
pub open spec fn standalone_rows_of(u: UnitView, s: StandaloneView) -> Seq<RowView> {
    unit_rows_of(u) + seq![heading_of("Service"@)] + service_rows_of(s.service, true) + seq![
        heading_of("Install"@),
        row_of(Id::WantedBy, "WantedBy"@, s.wanted_by),
        heading_of("Manual directives"@),
        row_of(Id::ManualPrimary, "Extra lines"@, summary_of(s.manual)),
    ]
}

/// The rows of a mount.
pub open spec fn mount_rows_of(u: UnitView, m: MountView) -> Seq<RowView> {
    seq![
        heading_of("Mount (system scope only)"@),
        row_of(Id::Preset, "Preset"@, m.preset.label_of()),
        row_of(Id::What, "What"@, m.what),
        row_of(Id::Where, "Where"@, m.where_ + " -> "@ + stem_text(u)),
        row_of(Id::FsType, "Type"@, m.fstype),
        row_of(Id::Options, "Options"@, m.options),
        row_of(Id::Description, "Description"@, u.description),
        heading_of("Automount"@),
        row_of(Id::Automount, "Companion .automount"@, yesno_of(m.automount)),
        row_of(Id::TimeoutIdle, "TimeoutIdleSec"@, opt_value(m.timeout_idle)),
        heading_of("Manual directives"@),
        row_of(Id::ManualPrimary, "Extra [Mount] lines"@, summary_of(m.manual)),
        row_of(Id::ManualSecondary, "Extra [Automount] lines"@, summary_of(m.automount_manual)),
    ]
}

/// The rows of a unit: those of its body, and the two actions at the end.
pub open spec fn rows_of(u: UnitView) -> Seq<RowView> {
    (match u.body {
        BodyView::Timer(t) => timer_rows_of(u, t),
        BodyView::Service(s) => standalone_rows_of(u, s),
        BodyView::Mount(m) => mount_rows_of(u, m),
    }) + seq![
        heading_of(""@),
        row_of(Id::Preview, "Preview the unit files"@, ""@),
        row_of(Id::Save, "Save and install"@, ""@),
    ]
}

fn stem_or_invalid(u: &Unit) -> (r: String)
    ensures
        r@ == stem_text(u@),
{
    match u.stem() {
        Ok(s) => s,
        Err(_) => "(invalid)".to_owned(),
    }
}

fn add_unit(rows: &mut Vec<Row>, u: &Unit)
    ensures
        row_views(final(rows)@) == row_views(old(rows)@) + unit_rows_of(u@),
{
    let ghost start = row_views(rows@);
    let stem = stem_or_invalid(u);
    add_heading(rows, "Unit");
    put(rows, Id::Name, "Name", text::cat3(u.name.as_str(), " -> ", stem.as_str()));
    put(rows, Id::Description, "Description", u.description.clone());
    put(rows, Id::Scope, "Scope", u.scope.as_str().to_owned());
    assert(row_views(rows@) =~= start + unit_rows_of(u@));
}

fn timer_rows(u: &Unit, t: &TimerJob) -> (r: Vec<Row>)
    ensures
        row_views(r@) == timer_rows_of(u@, t@),
{
    let mut rows: Vec<Row> = Vec::new();
    assert(row_views(rows@) =~= seq![]);
    add_unit(&mut rows, u);
    add_heading(&mut rows, "Schedule");
    put(&mut rows, Id::Schedule, "When", t.schedule.summary());
    put(&mut rows, Id::Persistent, "Persistent", yesno(t.persistent));
    put(&mut rows, Id::RandomDelay, "RandomizedDelaySec", opt(&t.randomized_delay));
    add_heading(&mut rows, "Service");
    let ghost head = row_views(rows@);
    add_service(&mut rows, &t.service, false);
    add_heading(&mut rows, "Manual directives");
    put(
        &mut rows,
        Id::ManualPrimary,
        "Extra [Service] lines",
        summarize(t.service_manual.as_str()),
    );
    put(
        &mut rows,
        Id::ManualSecondary,
        "Extra [Timer] lines",
        summarize(t.timer_manual.as_str()),
    );
    assert(head =~= unit_rows_of(u@) + seq![
        heading_of("Schedule"@),
        row_of(Id::Schedule, "When"@, t@.schedule.summary_of()),
        row_of(Id::Persistent, "Persistent"@, yesno_of(t@.persistent)),
        row_of(Id::RandomDelay, "RandomizedDelaySec"@, opt_value(t@.randomized_delay)),
        heading_of("Service"@),
    ]);
    assert(row_views(rows@) =~= timer_rows_of(u@, t@));
    rows
}

fn standalone_rows(u: &Unit, s: &StandaloneService) -> (r: Vec<Row>)
    ensures
        row_views(r@) == standalone_rows_of(u@, s@),
{
    let mut rows: Vec<Row> = Vec::new();
    assert(row_views(rows@) =~= seq![]);
    add_unit(&mut rows, u);
    add_heading(&mut rows, "Service");
    let ghost head = row_views(rows@);
    assert(head =~= unit_rows_of(u@) + seq![heading_of("Service"@)]);
    add_service(&mut rows, &s.service, true);
    add_heading(&mut rows, "Install");
    put(&mut rows, Id::WantedBy, "WantedBy", s.wanted_by.clone());
    add_heading(&mut rows, "Manual directives");
    put(&mut rows, Id::ManualPrimary, "Extra lines", summarize(s.manual.as_str()));
    assert(row_views(rows@) =~= standalone_rows_of(u@, s@));
    rows
}

fn mount_rows(u: &Unit, m: &MountUnit) -> (r: Vec<Row>)
    ensures
        row_views(r@) == mount_rows_of(u@, m@),
{
    let mut rows: Vec<Row> = Vec::new();
    assert(row_views(rows@) =~= seq![]);
    let stem = stem_or_invalid(u);
    add_heading(&mut rows, "Mount (system scope only)");
    put(&mut rows, Id::Preset, "Preset", m.preset.label().to_owned());
    put(&mut rows, Id::What, "What", m.what.clone());
    put(
        &mut rows,
        Id::Where,
        "Where",
        text::cat3(m.where_.as_str(), " -> ", stem.as_str()),
    );
    put(&mut rows, Id::FsType, "Type", m.fstype.clone());
    put(&mut rows, Id::Options, "Options", m.options.clone());
    put(&mut rows, Id::Description, "Description", u.description.clone());
    add_heading(&mut rows, "Automount");
    put(&mut rows, Id::Automount, "Companion .automount", yesno(m.automount));
    put(&mut rows, Id::TimeoutIdle, "TimeoutIdleSec", opt(&m.timeout_idle));
    add_heading(&mut rows, "Manual directives");
    put(&mut rows, Id::ManualPrimary, "Extra [Mount] lines", summarize(m.manual.as_str()));
    put(
        &mut rows,
        Id::ManualSecondary,
        "Extra [Automount] lines",
        summarize(m.automount_manual.as_str()),
    );
    assert(row_views(rows@) =~= mount_rows_of(u@, m@));
    rows
}

/// The rows of a unit.
pub fn rows_for(u: &Unit) -> (r: Vec<Row>)
    ensures
        row_views(r@) == rows_of(u@),
{
    let mut rows = match &u.body {
        Body::Timer(t) => timer_rows(u, t),
        Body::Service(s) => standalone_rows(u, s),
        Body::Mount(m) => mount_rows(u, m),
    };
    let ghost head = row_views(rows@);
    add_heading(&mut rows, "");
    put(&mut rows, Id::Preview, "Preview the unit files", "".to_owned());
    put(&mut rows, Id::Save, "Save and install", "".to_owned());
    assert(row_views(rows@) =~= head + seq![
        heading_of(""@),
        row_of(Id::Preview, "Preview the unit files"@, ""@),
        row_of(Id::Save, "Save and install"@, ""@),
    ]);
    rows
}

/// Whether a form has a row of a kind.
pub open spec fn offers(rows: Seq<RowView>, id: Id) -> bool {
    exists|i: int| 0 <= i < rows.len() && (#[trigger] rows[i]).id == id
}

/// Whatever a unit is, its form starts with a heading and ends with the two
/// actions, and its free text can be edited.
pub proof fn law_every_form_can_be_saved(u: UnitView)
    ensures
        rows_of(u).len() > 3,
        rows_of(u)[0].id == Id::Heading,
        rows_of(u)[rows_of(u).len() - 2].id == Id::Preview,
        rows_of(u)[rows_of(u).len() - 1].id == Id::Save,
        offers(rows_of(u), Id::ManualPrimary),
{
    let rows = rows_of(u);
    match u.body {
        BodyView::Timer(t) => {
            let n = timer_rows_of(u, t).len();
            assert(rows[n - 2].id == Id::ManualPrimary);
        },
        BodyView::Service(s) => {
            let n = standalone_rows_of(u, s).len();
            assert(rows[n - 1].id == Id::ManualPrimary);
        },
        BodyView::Mount(m) => {
            let n = mount_rows_of(u, m).len();
            assert(rows[n - 2].id == Id::ManualPrimary);
        },
    }
}

// ---------------------------------------------------------------------------
// Moving
// ---------------------------------------------------------------------------

/// Where the first row that is no heading is, from `i` on, or 0.
pub open spec fn first_from(rows: Seq<RowView>, i: int) -> int
    decreases rows.len() - i,
{
    if i >= rows.len() {
        0
    } else if rows[i].id != Id::Heading {
        i
    } else {
        first_from(rows, i + 1)
    }
}

/// Where the first row that is no heading is, or 0.
pub fn first_selectable(rows: &[Row]) -> (r: usize)
    ensures
        r == first_from(row_views(rows@), 0),
{
    let ghost all = row_views(rows@);
    let mut i: usize = 0;
    while i < rows.len()
        invariant
            i <= rows@.len(),
            all == row_views(rows@),
            first_from(all, 0) == first_from(all, i as int),
        decreases rows@.len() - i,
    {
        assert(all[i as int] == rows@[i as int]@);
        if rows[i].id != Id::Heading {
            return i;
        }
        i += 1;
    }
    0
}

/// The first row that is no heading in steps of `delta` from `i`, wrapping at
/// both ends; `from` where none is found in `left` steps.
pub open spec fn stepped_from(
    rows: Seq<RowView>,
    from: int,
    i: int,
    delta: int,
    left: int,
) -> int
    decreases left,
{
    if left <= 0 {
        from
    } else {
        let j = (i + delta) % (rows.len() as int);
        if rows[j].id != Id::Heading {
            j
        } else {
            stepped_from(rows, from, j, delta, left - 1)
        }
    }
}

/// Where a move of the selection leads: past headings, wrapping at both ends.
pub open spec fn step_of(rows: Seq<RowView>, from: int, delta: int) -> int {
    if rows.len() == 0 {
        0
    } else {
        stepped_from(rows, from, from, delta, rows.len() as int)
    }
}

/// Moves the selection past headings, wrapping at both ends.
pub fn step(rows: &[Row], from: usize, delta: i8) -> (r: usize)
    ensures
        r == step_of(row_views(rows@), from as int, delta as int),
{
    let ghost all = row_views(rows@);
    let n: usize = rows.len();
    if n == 0 {
        return 0;
    }
    let mut i: usize = from;
    let mut left: usize = n;
    while left > 0
        invariant
            left <= n == rows@.len(),
            n > 0,
            all == row_views(rows@),
            step_of(all, from as int, delta as int) == stepped_from(
                all,
                from as int,
                i as int,
                delta as int,
                left as int,
            ),
        decreases left,
    {
        i = crate::ui::steps::step(i, delta as i32, n);
        assert(all[i as int] == rows@[i as int]@);
        if rows[i].id != Id::Heading {
            return i;
        }
        left -= 1;
    }
    from
}

proof fn lemma_stepped(rows: Seq<RowView>, from: int, i: int, delta: int, left: int)
    requires
        0 <= from < rows.len(),
        rows[from].id != Id::Heading,
    ensures
        ({
            let r = stepped_from(rows, from, i, delta, left);
            0 <= r < rows.len() && rows[r].id != Id::Heading
        }),
    decreases left,
{
    if left > 0 {
        let n = rows.len() as int;
        let j = (i + delta) % n;
        assert(0 <= j < n) by (nonlinear_arith)
            requires
                n > 0,
                j == (i + delta) % n,
        ;
        if rows[j].id == Id::Heading {
            lemma_stepped(rows, from, j, delta, left - 1);
        }
    }
}

/// A move from a row that is no heading never ends on one.
pub proof fn law_steps_skip_headings(rows: Seq<RowView>, from: int, delta: int)
    requires
        0 <= from < rows.len(),
        rows[from].id != Id::Heading,
    ensures
        0 <= step_of(rows, from, delta) < rows.len(),
        rows[step_of(rows, from, delta)].id != Id::Heading,
{
    lemma_stepped(rows, from, from, delta, rows.len() as int);
}

// ---------------------------------------------------------------------------
// What belongs to a row
// ---------------------------------------------------------------------------

/// The help document's entry for a row.
pub open spec fn help_key_of(id: Id) -> Option<Seq<char>> {
    match id {
        Id::Heading => None,
        Id::Name => Some("unit.name"@),
        Id::Description => Some("unit.description"@),
        Id::Scope => Some("unit.scope"@),
        Id::Schedule => Some("timer.schedule"@),
        Id::Persistent => Some("timer.persistent"@),
        Id::RandomDelay => Some("timer.randomized_delay"@),
        Id::ServiceType => Some("service.type"@),
        Id::ExecStart => Some("service.exec_start"@),
        Id::ShellWrap => Some("service.shell_wrap"@),
        Id::ExecStartPre => Some("service.exec_start_pre"@),
        Id::ExecStopPost => Some("service.exec_stop_post"@),
        Id::Restart => Some("service.restart"@),
        Id::RestartSec => Some("service.restart_sec"@),
        Id::WorkDir => Some("service.working_directory"@),
        Id::RunAs => Some("service.user"@),
        Id::Group => Some("service.group"@),
        Id::Env => Some("service.environment"@),
        Id::WantedBy => Some("service.wanted_by"@),
        Id::Preset => Some("mount.preset"@),
        Id::What => Some("mount.what"@),
        Id::Where => Some("mount.where"@),
        Id::FsType => Some("mount.fstype"@),
        Id::Options => Some("mount.options"@),
        Id::Automount => Some("mount.automount"@),
        Id::TimeoutIdle => Some("mount.timeout_idle"@),
        Id::ManualPrimary => Some("unit.manual_primary"@),
        Id::ManualSecondary => Some("unit.manual_secondary"@),
        Id::Preview => Some("builder.preview"@),
        Id::Save => Some("builder.save"@),
    }
}

/// The help document's entry for a row. Every row but a heading has one: the
/// document is the only copy of this text.
pub fn help_key(id: Id) -> (r: Option<&'static str>)
    ensures
        match r {
            Some(k) => help_key_of(id) == Some(k@),
            None => help_key_of(id) is None,
        },
        r is None <==> id == Id::Heading,
{
    match id {
        Id::Heading => None,
        Id::Name => Some("unit.name"),
        Id::Description => Some("unit.description"),
        Id::Scope => Some("unit.scope"),
        Id::Schedule => Some("timer.schedule"),
        Id::Persistent => Some("timer.persistent"),
        Id::RandomDelay => Some("timer.randomized_delay"),
        Id::ServiceType => Some("service.type"),
        Id::ExecStart => Some("service.exec_start"),
        Id::ShellWrap => Some("service.shell_wrap"),
        Id::ExecStartPre => Some("service.exec_start_pre"),
        Id::ExecStopPost => Some("service.exec_stop_post"),
        Id::Restart => Some("service.restart"),
        Id::RestartSec => Some("service.restart_sec"),
        Id::WorkDir => Some("service.working_directory"),
        Id::RunAs => Some("service.user"),
        Id::Group => Some("service.group"),
        Id::Env => Some("service.environment"),
        Id::WantedBy => Some("service.wanted_by"),
        Id::Preset => Some("mount.preset"),
        Id::What => Some("mount.what"),
        Id::Where => Some("mount.where"),
        Id::FsType => Some("mount.fstype"),
        Id::Options => Some("mount.options"),
        Id::Automount => Some("mount.automount"),
        Id::TimeoutIdle => Some("mount.timeout_idle"),
        Id::ManualPrimary => Some("unit.manual_primary"),
        Id::ManualSecondary => Some("unit.manual_secondary"),
        Id::Preview => Some("builder.preview"),
        Id::Save => Some("builder.save"),
    }
}

/// The directive a row writes.
pub open spec fn directive_of(id: Id) -> Option<Seq<char>> {
    match id {
        Id::ExecStart => Some("ExecStart"@),
        Id::ExecStartPre => Some("ExecStartPre"@),
        Id::ExecStopPost => Some("ExecStopPost"@),
        Id::WorkDir => Some("WorkingDirectory"@),
        Id::RunAs => Some("User"@),
        Id::Group => Some("Group"@),
        Id::Env => Some("Environment"@),
        _ => None,
    }
}

/// The directive a row writes, for matching an advisory to it.
pub fn directive(id: Id) -> (r: Option<&'static str>)
    ensures
        match r {
            Some(k) => directive_of(id) == Some(k@),
            None => directive_of(id) is None,
        },
{
    match id {
        Id::ExecStart => Some("ExecStart"),
        Id::ExecStartPre => Some("ExecStartPre"),
        Id::ExecStopPost => Some("ExecStopPost"),
        Id::WorkDir => Some("WorkingDirectory"),
        Id::RunAs => Some("User"),
        Id::Group => Some("Group"),
        Id::Env => Some("Environment"),
        _ => None,
    }
}

/// A text in `w` columns, the last of them an ellipsis where it was cut.
pub open spec fn truncated_of(s: Seq<char>, w: int) -> Seq<char> {
    if w <= 0 {
        seq![]
    } else if s.len() <= w {
        s
    } else {
        s.take(w - 1).push('\u{2026}')
    }
}

/// A text in `w` columns, the last of them an ellipsis where it was cut.
pub fn truncate(s: &str, w: usize) -> (r: String)
    ensures
        r@ == truncated_of(s@, w as int),
        r@.len() <= w,
{
    if w == 0 {
        let none = String::new();
        assert(none@ =~= seq![]);
        return none;
    }
    let n: usize = s.unicode_len();
    if n <= w {
        s.to_owned()
    } else {
        assert(s@.subrange(0, w - 1) =~= s@.take(w - 1));
        let mut out = s.substring_char(0, w - 1).to_owned();
        out.push('\u{2026}');
        out
    }
}

// ---------------------------------------------------------------------------
// The keybinding line
// ---------------------------------------------------------------------------

/// The columns that hints take, with two spaces between them.
pub open spec fn columns_of(hints: Seq<Seq<char>>) -> int
    decreases hints.len(),
{
    if hints.len() == 0 {
        0
    } else if hints.len() == 1 {
        hints[0].len() as int
    } else {
        columns_of(hints.drop_last()) + 2 + hints.last().len()
    }
}

/// The hints but those equal to one.
pub open spec fn without_hint(hints: Seq<Seq<char>>, hint: Seq<char>) -> Seq<Seq<char>>
    decreases hints.len(),
{
    if hints.len() == 0 {
        seq![]
    } else if hints.last() == hint {
        without_hint(hints.drop_last(), hint)
    } else {
        without_hint(hints.drop_last(), hint).push(hints.last())
    }
}

/// The hints left once the given ones are dropped, one after the other, until
/// the rest fits.
pub open spec fn fitted_hints(
    hints: Seq<Seq<char>>,
    drops: Seq<Seq<char>>,
    width: int,
) -> Seq<Seq<char>>
    decreases drops.len(),
{
    if drops.len() == 0 || columns_of(hints) <= width {
        hints
    } else {
        fitted_hints(without_hint(hints, drops[0]), drops.skip(1), width)
    }
}

/// All hints.
pub open spec fn all_hints(browse: Seq<char>) -> Seq<Seq<char>> {
    seq![
        "Enter edit"@,
        "Tab move"@,
        browse,
        "v pane"@,
        "? help"@,
        "^S save"@,
        "Esc cancel"@,
    ]
}

/// The hints that can be dropped, the least important first.
pub open spec fn droppable(browse: Seq<char>) -> Seq<Seq<char>> {
    seq!["? help"@, "v pane"@, browse, "Tab move"@]
}

fn drop_hint(hints: &Vec<String>, hint: &str) -> (r: Vec<String>)
    ensures
        text::texts(r@) == without_hint(text::texts(hints@), hint@),
{
    let ghost all = text::texts(hints@);
    let mut out: Vec<String> = Vec::new();
    let mut i: usize = 0;
    assert(all.take(0) =~= seq![]);
    assert(text::texts(out@) =~= seq![]);
    while i < hints.len()
        invariant
            i <= hints@.len(),
            all == text::texts(hints@),
            text::texts(out@) == without_hint(all.take(i as int), hint@),
        decreases hints@.len() - i,
    {
        assert(all.take(i + 1).drop_last() =~= all.take(i as int));
        assert(all.take(i + 1).last() == hints@[i as int]@);
        if !text::same(hints[i].as_str(), hint) {
            let ghost before = text::texts(out@);
            out.push(hints[i].clone());
            assert(text::texts(out@) =~= before.push(hints@[i as int]@));
        }
        i += 1;
    }
    assert(all.take(hints@.len() as int) =~= all);
    out
}

proof fn lemma_columns(hints: Seq<Seq<char>>, i: int)
    requires
        0 <= i <= hints.len(),
    ensures
        0 <= columns_of(hints.take(i)) <= columns_of(hints),
    decreases hints.len(),
{
    if i < hints.len() {
        lemma_columns(hints.drop_last(), i);
        assert(hints.drop_last().take(i) =~= hints.take(i));
        if hints.len() == 1 {
            assert(hints.take(0) =~= seq![]);
        }
    } else {
        assert(hints.take(i) =~= hints);
        if hints.len() > 0 {
            lemma_columns(hints.drop_last(), hints.len() - 1);
        }
    }
}

fn fits(hints: &[String], width: usize) -> (r: bool)
    ensures
        r == (columns_of(text::texts(hints@)) <= width),
{
    let ghost all = text::texts(hints@);
    let mut left: usize = width;
    let mut i: usize = 0;
    assert(all.take(0) =~= seq![]);
    while i < hints.len()
        invariant
            i <= hints@.len(),
            all == text::texts(hints@),
            left + columns_of(all.take(i as int)) == width,
        decreases hints@.len() - i,
    {
        proof {
            lemma_columns(all, i + 1);
            assert(all.take(i + 1).drop_last() =~= all.take(i as int));
            assert(all.take(i + 1).last() == hints@[i as int]@);
        }
        let gap: usize = if i == 0 {
            0
        } else {
            2
        };
        let n: usize = hints[i].as_str().unicode_len();
        if left < gap || left - gap < n {
            return false;
        }
        left = left - gap - n;
        i += 1;
    }
    assert(all.take(hints@.len() as int) =~= all);
    true
}

/// The keybinding line, as separate hints.
///
/// Too narrow to show them all and the least important are dropped whole,
/// rather than the line being clipped mid-word, which would hide the way out.
pub fn key_hints(browse: &str, width: usize) -> (r: Vec<String>)
    ensures
        text::texts(r@) == fitted_hints(all_hints(browse@), droppable(browse@), width as int),
{
    let mut hints: Vec<String> = vec![
        "Enter edit".to_owned(),
        "Tab move".to_owned(),
        browse.to_owned(),
        "v pane".to_owned(),
        "? help".to_owned(),
        "^S save".to_owned(),
        "Esc cancel".to_owned(),
    ];
    assert(text::texts(hints@) =~= all_hints(browse@));
    let drops: Vec<&str> = vec!["? help", "v pane", browse, "Tab move"];
    let ghost ds = droppable(browse@);
    let ghost want = fitted_hints(all_hints(browse@), ds, width as int);
    let mut i: usize = 0;
    assert(ds.skip(0) =~= ds);
    while i < drops.len()
        invariant
            i <= drops@.len() == ds.len(),
            forall|k: int| 0 <= k < ds.len() ==> (#[trigger] drops@[k])@ == ds[k],
            want == fitted_hints(text::texts(hints@), ds.skip(i as int), width as int),
            want == fitted_hints(all_hints(browse@), ds, width as int),
            ds == droppable(browse@),
        decreases drops@.len() - i,
    {
        if fits(&hints, width) {
            return hints;
        }
        assert(ds.skip(i as int)[0] == drops@[i as int]@);
        assert(ds.skip(i as int).skip(1) =~= ds.skip(i + 1));
        hints = drop_hint(&hints, drops[i]);
        i += 1;
    }
    assert(ds.skip(i as int).len() == 0);
    hints
}

proof fn lemma_without_keeps(hints: Seq<Seq<char>>, hint: Seq<char>, x: Seq<char>)
    requires
        hints.contains(x),
        x != hint,
    ensures
        without_hint(hints, hint).contains(x),
    decreases hints.len(),
{
    let w = without_hint(hints.drop_last(), hint);
    if hints.last() == x {
        assert(w.push(x)[w.len() as int] == x);
    } else {
        let i = choose|i: int| 0 <= i < hints.len() && hints[i] == x;
        assert(hints.drop_last()[i] == x);
        lemma_without_keeps(hints.drop_last(), hint, x);
        let j = choose|j: int| 0 <= j < w.len() && w[j] == x;
        if hints.last() != hint {
            assert(w.push(hints.last())[j] == x);
        }
    }
}

proof fn lemma_fitted_keeps(
    hints: Seq<Seq<char>>,
    drops: Seq<Seq<char>>,
    width: int,
    x: Seq<char>,
)
    requires
        hints.contains(x),
        !drops.contains(x),
    ensures
        fitted_hints(hints, drops, width).contains(x),
    decreases drops.len(),
{
    if drops.len() > 0 && columns_of(hints) > width {
        assert(drops.contains(drops[0]));
        lemma_without_keeps(hints, drops[0], x);
        let rest = drops.skip(1);
        if rest.contains(x) {
            let i = choose|i: int| 0 <= i < rest.len() && rest[i] == x;
            assert(drops[i + 1] == x);
        }
        lemma_fitted_keeps(without_hint(hints, drops[0]), rest, width, x);
    }
}

/// However narrow the line, it shows how to edit, how to save and how to get
/// out.
pub proof fn law_the_way_out_shows(browse: Seq<char>, width: int)
    requires
        browse != "Enter edit"@,
        browse != "^S save"@,
        browse != "Esc cancel"@,
    ensures
        fitted_hints(all_hints(browse), droppable(browse), width).contains("Enter edit"@),
        fitted_hints(all_hints(browse), droppable(browse), width).contains("^S save"@),
        fitted_hints(all_hints(browse), droppable(browse), width).contains("Esc cancel"@),
{
    reveal_strlit("Enter edit");
    reveal_strlit("^S save");
    reveal_strlit("Esc cancel");
    reveal_strlit("Tab move");
    reveal_strlit("v pane");
    reveal_strlit("? help");
    let all = all_hints(browse);
    let drops = droppable(browse);
    assert("Enter edit"@.len() == 10 && "^S save"@.len() == 7 && "Esc cancel"@.len() == 10);
    assert("Tab move"@.len() == 8 && "v pane"@.len() == 6 && "? help"@.len() == 6);
    assert(all[0] == "Enter edit"@ && all[5] == "^S save"@ && all[6] == "Esc cancel"@);
    assert forall|x: Seq<char>| (x == "Enter edit"@ || x == "^S save"@ || x == "Esc cancel"@)
        implies !#[trigger] drops.contains(x) by {
        if drops.contains(x) {
            let i = choose|i: int| 0 <= i < drops.len() && drops[i] == x;
            assert(i == 0 || i == 1 || i == 2 || i == 3);
            assert(drops[0].len() == 6 && drops[1].len() == 6 && drops[3].len() == 8);
        }
    }
    lemma_fitted_keeps(all, drops, width, "Enter edit"@);
    lemma_fitted_keeps(all, drops, width, "^S save"@);
    lemma_fitted_keeps(all, drops, width, "Esc cancel"@);
}

} // verus!
