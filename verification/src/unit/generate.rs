//! Rendering the model out as systemd unit files.
//!
//! The output ordering here is a contract: [`super::parse`] reconstructs the
//! model from it, and the round trip must be byte-for-byte stable.

use crate::parts;
use crate::text;
use crate::ui::trashview;
use crate::unit::model::{MountPreset, RestartPolicy};
use crate::unit::model::{
    Body, MountUnit, Schedule, ServiceOpts, StandaloneService, TimerJob, Unit, HOMEPAGE,
    MANUAL_HEADER, MARKER, X_MARKER,
};
use crate::unit::model::{
    BodyView, MountView, ScheduleView, ServiceView, StandaloneView, TimerView, UnitView,
};
use vstd::prelude::*;

verus! {

broadcast use vstd::string::group_string_axioms;

/// A file to write: name relative to the unit directory, plus its contents.
#[derive(Debug, PartialEq, Eq)]
pub struct RenderedFile {
    pub name: String,
    pub body: String,
}

/// The contents of a [`RenderedFile`].
#[verifier::ext_equal]
pub struct FileView {
    pub name: Seq<char>,
    pub body: Seq<char>,
}

impl View for RenderedFile {
    type V = FileView;

    open spec fn view(&self) -> FileView {
        FileView { name: self.name@, body: self.body@ }
    }
}

impl Clone for RenderedFile {
    fn clone(&self) -> (r: RenderedFile)
        ensures
            r@ == self@,
    {
        RenderedFile { name: self.name.clone(), body: self.body.clone() }
    }
}

/// The contents of a list of files.
pub open spec fn file_views(v: Seq<RenderedFile>) -> Seq<FileView> {
    Seq::new(v.len(), |i: int| v[i]@)
}

// ---------------------------------------------------------------------------
// The lines of a unit file
// ---------------------------------------------------------------------------

/// A directive.
pub open spec fn kv_of(key: Seq<char>, value: Seq<char>) -> Seq<char> {
    key + "="@ + value
}

/// A directive, where it has a value that is not blank.
pub open spec fn kv_opt_of(key: Seq<char>, value: Option<Seq<char>>) -> Seq<Seq<char>> {
    match value {
        Some(v) => if text::is_blank(v) {
            seq![]
        } else {
            seq![kv_of(key, v)]
        },
        None => seq![],
    }
}

/// A directive for each value that is not blank.
pub open spec fn kv_all_of(key: Seq<char>, values: Seq<Seq<char>>) -> Seq<Seq<char>>
    decreases values.len(),
{
    if values.len() == 0 {
        seq![]
    } else if text::is_blank(values.last()) {
        kv_all_of(key, values.drop_last())
    } else {
        kv_all_of(key, values.drop_last()).push(kv_of(key, values.last()))
    }
}

/// The comment lines at the head of a file.
pub open spec fn header_of(source: Seq<char>) -> Seq<Seq<char>> {
    if source.len() == 0 {
        seq![MARKER@, "# "@ + HOMEPAGE@]
    } else {
        seq![MARKER@, "# "@ + HOMEPAGE@, "# schedule: "@ + source]
    }
}

/// The `[Unit]` section.
pub open spec fn unit_section_of(description: Seq<char>) -> Seq<Seq<char>> {
    seq![seq![], "[Unit]"@, kv_of("Description"@, description), X_MARKER@]
}

/// `s` without the newlines, spaces and tabs at its end.
pub open spec fn trim_manual_of(s: Seq<char>) -> Seq<char>
    decreases s.len(),
{
    if s.len() > 0 && (s.last() == '\n' || s.last() == ' ' || s.last() == '\t') {
        trim_manual_of(s.drop_last())
    } else {
        s
    }
}

/// The free-text block, if there is any text.
pub open spec fn manual_of(s: Seq<char>) -> Seq<Seq<char>> {
    let t = trim_manual_of(s);
    if t.len() == 0 {
        seq![]
    } else {
        seq![seq![], MANUAL_HEADER@, t]
    }
}

/// The `[Service]` section up to what its kind of unit adds.
pub open spec fn service_section_of(s: ServiceView) -> Seq<Seq<char>> {
    seq![seq![], "[Service]"@, kv_of("Type"@, s.service_type.name())] + kv_opt_of(
        "ExecStartPre"@,
        s.exec_start_pre,
    ) + seq![kv_of("ExecStart"@, s.exec_start)] + kv_opt_of("ExecStopPost"@, s.exec_stop_post)
        + kv_opt_of("WorkingDirectory"@, s.working_directory) + kv_opt_of("User"@, s.run_as)
        + kv_opt_of("Group"@, s.group) + kv_all_of("Environment"@, s.environment)
}

/// Where the output of a service goes.
pub open spec fn output_of(stem: Seq<char>) -> Seq<Seq<char>> {
    seq![
        kv_of("StandardOutput"@, "journal"@),
        kv_of("StandardError"@, "journal"@),
        kv_of("SyslogIdentifier"@, stem),
    ]
}

/// The directives of a schedule.
pub open spec fn schedule_of(s: ScheduleView) -> Seq<Seq<char>> {
    match s {
        ScheduleView::Calendar(v) => kv_all_of("OnCalendar"@, v),
        ScheduleView::Every { every, boot } => seq![
            kv_of("OnBootSec"@, boot),
            kv_of("OnUnitActiveSec"@, every),
        ],
        ScheduleView::Boot { boot } => seq![kv_of("OnBootSec"@, boot)],
    }
}

/// `Persistent=`, which only has meaning for calendar timers.
pub open spec fn persistent_of(t: TimerView) -> Seq<Seq<char>> {
    if t.schedule is Calendar && t.persistent {
        seq![kv_of("Persistent"@, "true"@)]
    } else {
        seq![]
    }
}

/// The `[Install]` section.
pub open spec fn install_of(target: Seq<char>) -> Seq<Seq<char>> {
    seq![seq![], "[Install]"@, kv_of("WantedBy"@, target)]
}

/// The directive lines of a timer's `.timer` file.
pub open spec fn timer_lines(u: UnitView, t: TimerView, stem: Seq<char>) -> Seq<Seq<char>> {
    header_of(seq![]) + unit_section_of(u.description + " (timer)"@) + seq![seq![], "[Timer]"@]
        + schedule_of(t.schedule) + persistent_of(t) + kv_opt_of(
        "RandomizedDelaySec"@,
        t.randomized_delay,
    ) + seq![kv_of("AccuracySec"@, "1s"@), kv_of("Unit"@, stem + ".service"@)] + install_of(
        "timers.target"@,
    )
}

/// The directive lines of a timer's `.service` file.
pub open spec fn timer_service_lines(u: UnitView, t: TimerView, stem: Seq<char>) -> Seq<Seq<char>> {
    header_of(t.source) + unit_section_of(u.description) + service_section_of(t.service)
        + output_of(stem)
}

/// The directive lines of a standalone `.service` file.
pub open spec fn standalone_lines(u: UnitView, s: StandaloneView, stem: Seq<char>) -> Seq<Seq<char>> {
    header_of(seq![]) + unit_section_of(u.description) + service_section_of(s.service) + seq![
        kv_of("Restart"@, s.service.restart.name()),
    ] + kv_opt_of("RestartSec"@, s.service.restart_sec) + output_of(stem) + install_of(s.wanted_by)
}

/// The directive lines of a `.mount` file.
pub open spec fn mount_lines(u: UnitView, m: MountView) -> Seq<Seq<char>> {
    header_of(seq![]) + unit_section_of(u.description) + seq![
        seq![],
        "[Mount]"@,
        kv_of("What"@, m.what),
        kv_of("Where"@, m.where_),
        kv_of("Type"@, m.fstype),
    ] + kv_opt_of("Options"@, Some(m.options)) + install_of("multi-user.target"@)
}

/// The directive lines of an `.automount` file.
pub open spec fn automount_lines(u: UnitView, m: MountView) -> Seq<Seq<char>> {
    header_of(seq![]) + unit_section_of(u.description + " (automount)"@) + seq![
        seq![],
        "[Automount]"@,
        kv_of("Where"@, m.where_),
    ] + kv_opt_of("TimeoutIdleSec"@, m.timeout_idle) + install_of("multi-user.target"@)
}

/// The text of a file: its directive lines, then its free text.
pub open spec fn body_of(lines: Seq<Seq<char>>, free: Seq<char>) -> Seq<char> {
    parts::unlines_of(lines + manual_of(free))
}

impl UnitView {
    /// The file name without suffix; empty where there is none.
    pub open spec fn stem_or_empty(self) -> Seq<char> {
        match self.stem_of() {
            Ok(s) => s,
            Err(_) => seq![],
        }
    }
}

/// Every file of a unit, the primary one first.
pub open spec fn render_of(u: UnitView) -> Seq<FileView> {
    let stem = u.stem_or_empty();
    match u.body {
        BodyView::Timer(t) => seq![
            FileView {
                name: stem + ".timer"@,
                body: body_of(timer_lines(u, t, stem), t.timer_manual),
            },
            FileView {
                name: stem + ".service"@,
                body: body_of(timer_service_lines(u, t, stem), t.service_manual),
            },
        ],
        BodyView::Service(s) => seq![
            FileView {
                name: stem + ".service"@,
                body: body_of(standalone_lines(u, s, stem), s.manual),
            },
        ],
        BodyView::Mount(m) => {
            let mount = FileView {
                name: stem + ".mount"@,
                body: body_of(mount_lines(u, m), m.manual),
            };
            if m.automount {
                seq![
                    FileView {
                        name: stem + ".automount"@,
                        body: body_of(automount_lines(u, m), m.automount_manual),
                    },
                    mount,
                ]
            } else {
                seq![mount]
            }
        },
    }
}

/// The whole unit as one previewable text.
pub open spec fn preview_of(u: UnitView, dir: Seq<char>) -> Seq<char> {
    let files = render_of(u);
    parts::join_of(
        Seq::new(
            files.len(),
            |i: int| "# "@ + dir + "/"@ + files[i].name + "\n"@ + files[i].body,
        ),
        "\n"@,
    )
}

// ---------------------------------------------------------------------------
// Writing lines
// ---------------------------------------------------------------------------

fn put(out: &mut Vec<String>, line: String)
    ensures
        text::texts(final(out)@) == text::texts(old(out)@).push(line@),
{
    let ghost before = text::texts(out@);
    out.push(line);
    assert(text::texts(out@) =~= before.push(line@));
}

fn kv(out: &mut Vec<String>, key: &str, value: &str)
    ensures
        text::texts(final(out)@) == text::texts(old(out)@).push(kv_of(key@, value@)),
{
    put(out, text::cat3(key, "=", value));
}

fn kv_opt(out: &mut Vec<String>, key: &str, value: &Option<String>)
    ensures
        text::texts(final(out)@) == text::texts(old(out)@) + kv_opt_of(
            key@,
            text::opt_text(*value),
        ),
{
    let ghost before = text::texts(out@);
    if let Some(v) = value {
        if !text::blank(v.as_str()) {
            kv(out, key, v.as_str());
        }
    }
    assert(text::texts(out@) =~= before + kv_opt_of(key@, text::opt_text(*value)));
}

fn kv_all(out: &mut Vec<String>, key: &str, values: &Vec<String>)
    ensures
        text::texts(final(out)@) == text::texts(old(out)@) + kv_all_of(
            key@,
            text::texts(values@),
        ),
{
    let ghost before = text::texts(out@);
    let ghost all = text::texts(values@);
    let mut i: usize = 0;
    assert(all.take(0) =~= seq![]);
    assert(before + kv_all_of(key@, all.take(0)) =~= before);
    while i < values.len()
        invariant
            i <= values@.len(),
            all == text::texts(values@),
            text::texts(out@) == before + kv_all_of(key@, all.take(i as int)),
        decreases values@.len() - i,
    {
        proof {
            assert(all.take(i + 1).drop_last() =~= all.take(i as int));
            assert(all.take(i + 1).last() == values@[i as int]@);
        }
        let ghost done = kv_all_of(key@, all.take(i as int));
        if !text::blank(values[i].as_str()) {
            kv(out, key, values[i].as_str());
            assert((before + done).push(kv_of(key@, values@[i as int]@)) =~= before + done.push(
                kv_of(key@, values@[i as int]@),
            ));
        }
        i += 1;
    }
    assert(all.take(values@.len() as int) =~= all);
}

fn header(out: &mut Vec<String>, source: &str)
    ensures
        text::texts(final(out)@) == text::texts(old(out)@) + header_of(source@),
{
    let ghost before = text::texts(out@);
    put(out, MARKER.to_owned());
    put(out, text::cat2("# ", HOMEPAGE));
    if !source.is_empty() {
        put(out, text::cat2("# schedule: ", source));
    }
    assert(text::texts(out@) =~= before + header_of(source@));
}

fn unit_section(out: &mut Vec<String>, description: &str)
    ensures
        text::texts(final(out)@) == text::texts(old(out)@) + unit_section_of(description@),
{
    let ghost before = text::texts(out@);
    put(out, String::new());
    put(out, "[Unit]".to_owned());
    kv(out, "Description", description);
    put(out, X_MARKER.to_owned());
    assert(text::texts(out@) =~= before + unit_section_of(description@));
}

fn install_section(out: &mut Vec<String>, target: &str)
    ensures
        text::texts(final(out)@) == text::texts(old(out)@) + install_of(target@),
{
    let ghost before = text::texts(out@);
    put(out, String::new());
    put(out, "[Install]".to_owned());
    kv(out, "WantedBy", target);
    assert(text::texts(out@) =~= before + install_of(target@));
}

fn output_section(out: &mut Vec<String>, stem: &str)
    ensures
        text::texts(final(out)@) == text::texts(old(out)@) + output_of(stem@),
{
    let ghost before = text::texts(out@);
    kv(out, "StandardOutput", "journal");
    kv(out, "StandardError", "journal");
    kv(out, "SyslogIdentifier", stem);
    assert(text::texts(out@) =~= before + output_of(stem@));
}

/// `s` without the newlines, spaces and tabs at its end.
fn trim_manual(s: &str) -> (r: &str)
    ensures
        r@ == trim_manual_of(s@),
{
    let v = text::chars_of(s);
    let mut j: usize = v.len();
    assert(s@.take(j as int) =~= s@);
    while j > 0 && (v[j - 1] == '\n' || v[j - 1] == ' ' || v[j - 1] == '\t')
        invariant
            v@ == s@,
            j <= v@.len(),
            trim_manual_of(s@) == trim_manual_of(s@.take(j as int)),
        decreases j,
    {
        assert(s@.take(j as int).drop_last() =~= s@.take(j - 1));
        j -= 1;
    }
    assert(s@.take(j as int) =~= s@.subrange(0, j as int));
    s.substring_char(0, j)
}

/// Append the free-text block, if any. Trailing whitespace is trimmed so the
/// round trip is idempotent.
fn manual(out: &mut Vec<String>, free: &str)
    ensures
        text::texts(final(out)@) == text::texts(old(out)@) + manual_of(free@),
{
    let ghost before = text::texts(out@);
    let trimmed = trim_manual(free);
    if !trimmed.is_empty() {
        put(out, String::new());
        put(out, MANUAL_HEADER.to_owned());
        put(out, trimmed.to_owned());
    }
    assert(text::texts(out@) =~= before + manual_of(free@));
}

fn service_section(out: &mut Vec<String>, s: &ServiceOpts)
    ensures
        text::texts(final(out)@) == text::texts(old(out)@) + service_section_of(s@),
{
    let ghost before = text::texts(out@);
    put(out, String::new());
    put(out, "[Service]".to_owned());
    kv(out, "Type", s.service_type.as_str());
    kv_opt(out, "ExecStartPre", &s.exec_start_pre);
    kv(out, "ExecStart", s.exec_start.as_str());
    kv_opt(out, "ExecStopPost", &s.exec_stop_post);
    kv_opt(out, "WorkingDirectory", &s.working_directory);
    kv_opt(out, "User", &s.run_as);
    kv_opt(out, "Group", &s.group);
    kv_all(out, "Environment", &s.environment);
    assert(text::texts(out@) =~= before + service_section_of(s@));
}

fn schedule_section(out: &mut Vec<String>, s: &Schedule)
    ensures
        text::texts(final(out)@) == text::texts(old(out)@) + schedule_of(s@),
{
    let ghost before = text::texts(out@);
    match s {
        Schedule::Calendar(specs) => kv_all(out, "OnCalendar", specs),
        Schedule::Every { every, boot } => {
            kv(out, "OnBootSec", boot.as_str());
            kv(out, "OnUnitActiveSec", every.as_str());
        },
        Schedule::Boot { boot } => kv(out, "OnBootSec", boot.as_str()),
    }
    assert(text::texts(out@) =~= before + schedule_of(s@));
}

/// The file of some lines.
fn file(stem: &str, suffix: &str, lines: &Vec<String>) -> (r: RenderedFile)
    ensures
        r@ == (FileView {
            name: stem@ + suffix@,
            body: parts::unlines_of(text::texts(lines@)),
        }),
{
    RenderedFile { name: text::cat2(stem, suffix), body: parts::unlines(lines) }
}

fn render_timer_service(u: &Unit, t: &TimerJob, stem: &str) -> (r: RenderedFile)
    ensures
        r@ == (FileView {
            name: stem@ + ".service"@,
            body: body_of(timer_service_lines(u@, t@, stem@), t@.service_manual),
        }),
{
    let mut out: Vec<String> = Vec::new();
    header(&mut out, t.source.as_str());
    unit_section(&mut out, u.description.as_str());
    service_section(&mut out, &t.service);
    output_section(&mut out, stem);
    assert(text::texts(out@) =~= timer_service_lines(u@, t@, stem@));
    manual(&mut out, t.service_manual.as_str());
    file(stem, ".service", &out)
}

fn render_timer(u: &Unit, t: &TimerJob, stem: &str) -> (r: RenderedFile)
    ensures
        r@ == (FileView {
            name: stem@ + ".timer"@,
            body: body_of(timer_lines(u@, t@, stem@), t@.timer_manual),
        }),
{
    let mut out: Vec<String> = Vec::new();
    header(&mut out, "");
    assert(""@ =~= seq![]) by {
        reveal_strlit("");
    }
    unit_section(&mut out, text::cat2(u.description.as_str(), " (timer)").as_str());
    put(&mut out, String::new());
    put(&mut out, "[Timer]".to_owned());
    schedule_section(&mut out, &t.schedule);
    let calendar = match &t.schedule {
        Schedule::Calendar(_) => true,
        _ => false,
    };
    if calendar && t.persistent {
        kv(&mut out, "Persistent", "true");
    }
    kv_opt(&mut out, "RandomizedDelaySec", &t.randomized_delay);
    kv(&mut out, "AccuracySec", "1s");
    kv(&mut out, "Unit", text::cat2(stem, ".service").as_str());
    install_section(&mut out, "timers.target");
    assert(text::texts(out@) =~= timer_lines(u@, t@, stem@));
    manual(&mut out, t.timer_manual.as_str());
    file(stem, ".timer", &out)
}

fn render_standalone(u: &Unit, s: &StandaloneService, stem: &str) -> (r: RenderedFile)
    ensures
        r@ == (FileView {
            name: stem@ + ".service"@,
            body: body_of(standalone_lines(u@, s@, stem@), s@.manual),
        }),
{
    let mut out: Vec<String> = Vec::new();
    header(&mut out, "");
    assert(""@ =~= seq![]) by {
        reveal_strlit("");
    }
    unit_section(&mut out, u.description.as_str());
    service_section(&mut out, &s.service);
    kv(&mut out, "Restart", s.service.restart.as_str());
    kv_opt(&mut out, "RestartSec", &s.service.restart_sec);
    output_section(&mut out, stem);
    install_section(&mut out, s.wanted_by.as_str());
    assert(text::texts(out@) =~= standalone_lines(u@, s@, stem@));
    manual(&mut out, s.manual.as_str());
    file(stem, ".service", &out)
}

fn render_mount(u: &Unit, m: &MountUnit, stem: &str) -> (r: RenderedFile)
    ensures
        r@ == (FileView {
            name: stem@ + ".mount"@,
            body: body_of(mount_lines(u@, m@), m@.manual),
        }),
{
    let mut out: Vec<String> = Vec::new();
    header(&mut out, "");
    assert(""@ =~= seq![]) by {
        reveal_strlit("");
    }
    unit_section(&mut out, u.description.as_str());
    put(&mut out, String::new());
    put(&mut out, "[Mount]".to_owned());
    kv(&mut out, "What", m.what.as_str());
    kv(&mut out, "Where", m.where_.as_str());
    kv(&mut out, "Type", m.fstype.as_str());
    if !text::blank(m.options.as_str()) {
        kv(&mut out, "Options", m.options.as_str());
    }
    install_section(&mut out, "multi-user.target");
    assert(text::texts(out@) =~= mount_lines(u@, m@));
    manual(&mut out, m.manual.as_str());
    file(stem, ".mount", &out)
}

fn render_automount(u: &Unit, m: &MountUnit, stem: &str) -> (r: RenderedFile)
    ensures
        r@ == (FileView {
            name: stem@ + ".automount"@,
            body: body_of(automount_lines(u@, m@), m@.automount_manual),
        }),
{
    let mut out: Vec<String> = Vec::new();
    header(&mut out, "");
    assert(""@ =~= seq![]) by {
        reveal_strlit("");
    }
    unit_section(&mut out, text::cat2(u.description.as_str(), " (automount)").as_str());
    put(&mut out, String::new());
    put(&mut out, "[Automount]".to_owned());
    kv(&mut out, "Where", m.where_.as_str());
    kv_opt(&mut out, "TimeoutIdleSec", &m.timeout_idle);
    install_section(&mut out, "multi-user.target");
    assert(text::texts(out@) =~= automount_lines(u@, m@));
    manual(&mut out, m.automount_manual.as_str());
    file(stem, ".automount", &out)
}

/// Render every file for a unit. The order matches [`Unit::filenames`].
pub fn render(u: &Unit) -> (r: Vec<RenderedFile>)
    ensures
        file_views(r@) == render_of(u@),
{
    let stem = match u.stem() {
        Ok(s) => s,
        Err(_) => String::new(),
    };
    let stem = stem.as_str();
    let r = match &u.body {
        Body::Timer(t) => vec![render_timer(u, t, stem), render_timer_service(u, t, stem)],
        Body::Service(s) => vec![render_standalone(u, s, stem)],
        Body::Mount(m) => if m.automount {
            vec![render_automount(u, m, stem), render_mount(u, m, stem)]
        } else {
            vec![render_mount(u, m, stem)]
        },
    };
    assert(file_views(r@) =~= render_of(u@));
    r
}

/// The whole unit as one previewable text, with per-file headings.
pub fn preview(u: &Unit, dir: &str) -> (r: String)
    ensures
        r@ == preview_of(u@, dir@),
{
    let files = render(u);
    let ghost views = render_of(u@);
    let mut pieces: Vec<String> = Vec::new();
    let mut i: usize = 0;
    while i < files.len()
        invariant
            i <= files@.len(),
            views == file_views(files@),
            pieces@.len() == i,
            forall|k: int|
                0 <= k < i ==> (#[trigger] pieces@[k])@ == "# "@ + dir@ + "/"@ + views[k].name
                    + "\n"@ + views[k].body,
        decreases files@.len() - i,
    {
        let mut p = text::cat3("# ", dir, "/");
        p.push_str(files[i].name.as_str());
        p.push_str("\n");
        p.push_str(files[i].body.as_str());
        pieces.push(p);
        i += 1;
    }
    assert(text::texts(pieces@) =~= Seq::new(
        views.len(),
        |i: int| "# "@ + dir@ + "/"@ + views[i].name + "\n"@ + views[i].body,
    ));
    parts::join(&pieces, "\n")
}

// ---------------------------------------------------------------------------
// What leaves no trace
// ---------------------------------------------------------------------------

/// A timer that does not fire by the calendar catches up on nothing, so that
/// whether it is persistent leaves no trace in its files; nor do the restart
/// settings of a timer.
pub proof fn law_timers_write_what_applies(u: UnitView, t: TimerView, restart: RestartPolicy)
    requires
        u.body == BodyView::Timer(t),
    ensures
        ({
            let off = TimerView { persistent: false, ..t };
            !(t.schedule is Calendar) ==> render_of(u) == render_of(
                UnitView { body: BodyView::Timer(off), ..u },
            )
        }),
        ({
            let other = TimerView {
                service: ServiceView { restart, restart_sec: None, ..t.service },
                ..t
            };
            render_of(u) == render_of(UnitView { body: BodyView::Timer(other), ..u })
        }),
{
    let other = TimerView {
        service: ServiceView { restart, restart_sec: None, ..t.service },
        ..t
    };
    let v = UnitView { body: BodyView::Timer(other), ..u };
    assert(v.stem_of() == u.stem_of());
    assert(service_section_of(other.service) == service_section_of(t.service));
    assert(timer_lines(v, other, u.stem_or_empty()) == timer_lines(u, t, u.stem_or_empty()));
    assert(timer_service_lines(v, other, u.stem_or_empty()) == timer_service_lines(
        u,
        t,
        u.stem_or_empty(),
    ));
    let off = TimerView { persistent: false, ..t };
    let w = UnitView { body: BodyView::Timer(off), ..u };
    assert(w.stem_of() == u.stem_of());
    if !(t.schedule is Calendar) {
        assert(timer_lines(w, off, u.stem_or_empty()) == timer_lines(u, t, u.stem_or_empty()));
    }
}

/// A mount is written the same whatever its name and its preset; without an
/// automount, its idle timeout is not written.
pub proof fn law_mounts_write_what_applies(
    u: UnitView,
    m: MountView,
    name: Seq<char>,
    preset: MountPreset,
    idle: Option<Seq<char>>,
)
    requires
        u.body == BodyView::Mount(m),
    ensures
        render_of(u) == render_of(
            UnitView { name, body: BodyView::Mount(MountView { preset, ..m }), ..u },
        ),
        !m.automount ==> render_of(u) == render_of(
            UnitView { body: BodyView::Mount(MountView { timeout_idle: idle, ..m }), ..u },
        ),
{
    let a = MountView { preset, ..m };
    let b = MountView { timeout_idle: idle, ..m };
    let v = UnitView { name, body: BodyView::Mount(a), ..u };
    let w = UnitView { body: BodyView::Mount(b), ..u };
    assert(v.stem_of() == u.stem_of());
    assert(w.stem_of() == u.stem_of());
    assert(mount_lines(v, a) == mount_lines(u, m));
    assert(automount_lines(v, a) == automount_lines(u, m));
    assert(mount_lines(w, b) == mount_lines(u, m));
}

/// A setting that is blank is as good as none.
pub proof fn law_blank_settings_are_not_written(key: Seq<char>, v: Seq<char>, more: Seq<Seq<char>>)
    requires
        text::is_blank(v),
    ensures
        kv_opt_of(key, Some(v)) == kv_opt_of(key, None),
        kv_all_of(key, more.push(v)) == kv_all_of(key, more),
{
    assert(more.push(v).drop_last() =~= more);
}

/// The preview shows every file: where it will be, and all of its text.
pub proof fn law_preview_shows_every_file(u: UnitView, dir: Seq<char>, i: int)
    requires
        0 <= i < render_of(u).len(),
    ensures
        text::occurs(
            preview_of(u, dir),
            seq!['#', ' '] + dir + seq!['/'] + render_of(u)[i].name + seq!['\n']
                + render_of(u)[i].body,
        ),
{
    let files = render_of(u);
    let shown = Seq::new(
        files.len(),
        |i: int| "# "@ + dir + "/"@ + files[i].name + "\n"@ + files[i].body,
    );
    reveal_strlit("# ");
    reveal_strlit("/");
    reveal_strlit("\n");
    assert(shown[i] =~= seq!['#', ' '] + dir + seq!['/'] + files[i].name + seq!['\n']
        + files[i].body);
    trashview::lemma_join_names(shown, "\n"@, i);
}

} // verus!
