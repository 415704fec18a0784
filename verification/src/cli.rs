//! What the headless command line decides and prints. Six verbs only --
//! `list`, `remove`, `add`, `export`, `trash` and `restore` -- because the TUI
//! is the primary interface; these exist so notcron can be driven from a
//! provisioning script. `trash` and `restore` are the scriptable half of the
//! TUI's undo: whatever `remove` stashed can be listed and put back without a
//! terminal.

use crate::calendar;
use crate::cron;
use crate::cron::Translation;
use crate::number;
use crate::parts;
use crate::systemd;
use crate::systemd::{Entry, EntryView};
use crate::text;
use crate::trash;
use crate::trash::TrashEntry;
use crate::ui::trashview;
use crate::unit::escape;
use crate::unit::generate;
use crate::unit::model;
use crate::unit::model::{Body, Schedule, Scope, ServiceOpts, ServiceType, TimerJob, Unit};
use crate::unit::model::{BodyView, ScheduleView, ServiceView, TimerView, UnitView};
use crate::unit::roundtrip;
use crate::validate;
use vstd::prelude::*;

verus! {

broadcast use vstd::string::group_string_axioms;

// ---------------------------------------------------------------------------
// Arguments
// ---------------------------------------------------------------------------

/// What stands on the command line.
#[derive(Debug)]
pub struct Cli {
    /// start the TUI, draw one frame and exit (a smoke test for the terminal)
    pub self_check: bool,
    pub scope: ScopeArgs,
    pub command: Option<Command>,
}

/// The verb, with what it was given.
#[derive(Debug)]
pub enum Command {
    /// list the units notcron manages
    List(ListArgs),
    /// stop, disable and delete a notcron-managed unit
    Remove(RemoveArgs),
    /// create a timer + service pair from a cron expression
    Add(AddArgs),
    /// print a unit's files, or write them to a directory
    Export(ExportArgs),
    /// list the removals still held in the trash
    Trash(TrashArgs),
    /// put a removed unit back, files and state
    Restore(RestoreArgs),
}

/// `--user` (the default) or `--system`.
#[derive(Debug, Clone, Copy)]
pub struct ScopeArgs {
    /// operate on user units in ~/.config/systemd/user (default)
    pub user: bool,
    /// operate on system units in /etc/systemd/system (uses sudo)
    pub system: bool,
}

impl ScopeArgs {
    /// The chosen scope, or an error when both flags were given.
    pub fn scope(self) -> (r: Result<Scope, String>)
        ensures
            match r {
                Ok(s) => !(self.user && self.system) && s == if self.system {
                    Scope::System
                } else {
                    Scope::User
                },
                Err(e) => self.user && self.system && e@
                    == "--user and --system are mutually exclusive"@,
            },
    {
        if self.user && self.system {
            Err("--user and --system are mutually exclusive".to_owned())
        } else if self.system {
            Ok(Scope::System)
        } else {
            Ok(Scope::User)
        }
    }
}

#[derive(Debug)]
pub struct ListArgs {
    /// also list units notcron does not own (read-only)
    pub all: bool,
}

#[derive(Debug)]
pub struct RemoveArgs {
    /// unit name, with or without the notcron- prefix
    pub name: String,
}

#[derive(Debug)]
pub struct ExportArgs {
    /// write the files into this directory instead of printing them
    pub dir: Option<String>,
    /// overwrite files that already exist in the directory
    pub force: bool,
    /// unit name, with or without the notcron- prefix
    pub name: String,
}

/// `notcron trash` and `notcron trash list` are the same command.
#[derive(Debug)]
pub struct TrashArgs {
    pub what: Option<TrashCommand>,
}

#[derive(Debug, Clone, Copy)]
pub enum TrashCommand {
    /// list the removals still held in the trash (the default)
    List,
}

#[derive(Debug)]
pub struct RestoreArgs {
    /// put the files back but leave the unit neither enabled nor started
    pub no_enable: bool,
    /// overwrite unit files that exist again under the original names
    pub force: bool,
    /// trash id from `notcron trash`, or an unambiguous prefix of one
    pub id: String,
}

#[derive(Debug)]
pub struct AddArgs {
    /// unit name (default: derived from the command)
    pub name: Option<String>,
    /// unit Description=
    pub description: Option<String>,
    /// run the command through /bin/sh -c (implied by shell metacharacters)
    pub shell: bool,
    /// catch up on runs missed while powered off (default: on)
    pub persistent: bool,
    /// do not catch up on missed runs
    pub no_persistent: bool,
    /// RandomizedDelaySec=, e.g. 30s or 5m
    pub random_delay: Option<String>,
    /// WorkingDirectory=
    pub workdir: Option<String>,
    /// Environment=KEY=VALUE, repeatable
    pub env: Vec<String>,
    /// User= to run the command as (system units only)
    pub run_as: Option<String>,
    /// print the unit files instead of installing them
    pub dry_run: bool,
    /// 5-field cron expression, or @hourly/@daily/@weekly/@monthly/@yearly/@reboot
    pub schedule: String,
    /// the command to run, and its arguments
    pub command: Vec<String>,
}

// ---------------------------------------------------------------------------
// Finding units
// ---------------------------------------------------------------------------

/// Whether a name, as a user types it, names a unit.
pub open spec fn is_named(primary: Seq<char>, name: Seq<char>) -> bool {
    ||| primary == name
    ||| (match parts::rsplit_once_of(primary, '.') {
        Some((stem, _)) => stem == model::prefixed_of(name) || stem == name,
        None => false,
    })
}

/// Match a user-typed name against a listing, accepting the bare stem
/// (`backup`), the prefixed stem (`notcron-backup`) or the full unit name
/// (`notcron-backup.timer`).
pub fn matches_name(e: &Entry, name: &str) -> (r: bool)
    ensures
        r == is_named(e@.primary, name@),
{
    let wanted = model::prefixed(name);
    let stem_matches = match parts::rsplit_once(e.primary.as_str(), '.') {
        Some((stem, _)) => text::same(stem, wanted.as_str()) || text::same(stem, name),
        None => false,
    };
    text::same(e.primary.as_str(), name) || stem_matches
}

/// Whether `i` is the first of the rows that a name names.
pub open spec fn is_first_named(rows: Seq<EntryView>, name: Seq<char>, i: int) -> bool {
    &&& 0 <= i < rows.len()
    &&& is_named(rows[i].primary, name)
    &&& forall|k: int| 0 <= k < i ==> !is_named((#[trigger] rows[k]).primary, name)
}

/// Find one unit by name, or produce the "no such unit" message.
pub fn find(entries: &[Entry], scope: Scope, name: &str) -> (r: Result<usize, String>)
    ensures
        match r {
            Ok(i) => is_first_named(systemd::entry_views(entries@), name@, i as int),
            Err(e) => {
                &&& forall|k: int|
                    0 <= k < entries@.len() ==> !is_named((#[trigger] entries@[k])@.primary, name@)
                &&& e@ == "no unit named '"@ + name@ + "' in "@ + scope.name()
                    + " scope (try: notcron list)"@
            },
        },
{
    let ghost rows = systemd::entry_views(entries@);
    let mut i: usize = 0;
    while i < entries.len()
        invariant
            i <= entries@.len(),
            rows == systemd::entry_views(entries@),
            forall|k: int| 0 <= k < i ==> !is_named((#[trigger] entries@[k])@.primary, name@),
        decreases entries@.len() - i,
    {
        if matches_name(&entries[i], name) {
            proof {
                assert(rows[i as int] == entries@[i as int]@);
                assert forall|k: int| 0 <= k < i implies !is_named(
                    (#[trigger] rows[k]).primary,
                    name@,
                ) by {
                    assert(rows[k] == entries@[k]@);
                }
            }
            return Ok(i);
        }
        i += 1;
    }
    Err(text::cat5("no unit named '", name, "' in ", scope.as_str(), " scope (try: notcron list)"))
}

/// Whether a unit may be removed: only those the program made.
pub fn check_removable(e: &Entry) -> (r: Result<(), String>)
    ensures
        match r {
            Ok(_) => e@.owned,
            Err(m) => !e@.owned && m@ == "'"@ + e@.primary
                + "' was not created by notcron and will not be removed"@,
        },
{
    if e.owned {
        Ok(())
    } else {
        Err(
            text::cat3(
                "'",
                e.primary.as_str(),
                "' was not created by notcron and will not be removed",
            ),
        )
    }
}

/// The unit to export, or why there is none. Restricted to notcron-owned
/// units: the bytes are rendered from notcron's own model, so exporting a
/// foreign unit would hand back something subtly different from what is
/// installed.
pub fn check_exportable(e: &Entry) -> (r: Result<Unit, String>)
    ensures
        match r {
            Ok(u) => e@.owned && e@.unit == Some(u@),
            Err(m) => if !e@.owned {
                m@ == "'"@ + e@.primary
                    + "' was not created by notcron; export re-renders from notcron's model and would not reproduce it faithfully"@
            } else {
                e@.unit is None && m@ == "'"@ + e@.primary
                    + "' could not be modelled by notcron and cannot be exported"@
            },
        },
{
    if !e.owned {
        return Err(
            text::cat3(
                "'",
                e.primary.as_str(),
                "' was not created by notcron; export re-renders from notcron's model and would not reproduce it faithfully",
            ),
        );
    }
    match &e.unit {
        Some(u) => Ok(u.clone()),
        None => Err(
            text::cat3(
                "'",
                e.primary.as_str(),
                "' could not be modelled by notcron and cannot be exported",
            ),
        ),
    }
}

// ---------------------------------------------------------------------------
// The unit listing
// ---------------------------------------------------------------------------

/// One line of the listing.
pub open spec fn columns_of(
    unit: Seq<char>,
    kind: Seq<char>,
    active: Seq<char>,
    owned: Seq<char>,
    schedule: Seq<char>,
) -> Seq<char> {
    text::pad_right_of(unit, 34) + " "@ + text::pad_right_of(kind, 10) + " "@ + text::pad_right_of(
        active,
        10,
    ) + " "@ + text::pad_right_of(owned, 9) + " "@ + schedule
}

fn columns(unit: &str, kind: &str, active: &str, owned: &str, schedule: &str) -> (r: String)
    ensures
        r@ == columns_of(unit@, kind@, active@, owned@, schedule@),
{
    let mut out = text::pad_right(unit, 34);
    out.push_str(" ");
    let k = text::pad_right(kind, 10);
    out.push_str(k.as_str());
    out.push_str(" ");
    let a = text::pad_right(active, 10);
    out.push_str(a.as_str());
    out.push_str(" ");
    let o = text::pad_right(owned, 9);
    out.push_str(o.as_str());
    out.push_str(" ");
    out.push_str(schedule);
    out
}

/// The line above the listing.
pub fn list_header() -> (r: String)
    ensures
        r@ == columns_of("UNIT"@, "KIND"@, "ACTIVE"@, "OWNED"@, "SCHEDULE"@),
{
    columns("UNIT", "KIND", "ACTIVE", "OWNED", "SCHEDULE")
}

/// The line of one unit.
pub fn list_row(e: &Entry) -> (r: String)
    ensures
        r@ == columns_of(
            e@.primary,
            e@.kind,
            if e@.active.len() == 0 {
                "unknown"@
            } else {
                e@.active
            },
            if e@.owned {
                "notcron"@
            } else {
                "foreign"@
            },
            e@.schedule,
        ),
{
    let active = if e.active.as_str().is_empty() {
        "unknown"
    } else {
        e.active.as_str()
    };
    let owned = if e.owned {
        "notcron"
    } else {
        "foreign"
    };
    columns(e.primary.as_str(), e.kind, active, owned, e.schedule.as_str())
}

// ---------------------------------------------------------------------------
// trash / restore
// ---------------------------------------------------------------------------

/// What to append to a suggested command line so it stays in this scope.
/// User scope is the default, so it needs nothing.
pub fn scope_suffix(scope: Scope) -> (r: &'static str)
    ensures
        r@ == match scope {
            Scope::System => " --system"@,
            Scope::User => ""@,
        },
{
    match scope {
        Scope::System => " --system",
        Scope::User => "",
    }
}

/// An age as a single token: the largest whole unit among seconds, minutes,
/// hours and days.
pub open spec fn age_token_of(secs: nat) -> Seq<char> {
    if secs < 60 {
        number::decimal(secs) + "s"@
    } else if secs < 3600 {
        number::decimal(secs / 60) + "m"@
    } else if secs < 86_400 {
        number::decimal(secs / 3600) + "h"@
    } else {
        number::decimal(secs / 86_400) + "d"@
    }
}

/// An age as a single whitespace-free token, so `awk`-style column splitting
/// keeps working. The TUI's "3m ago" is friendlier to read and worse to parse.
pub fn age_token(secs: u64) -> (r: String)
    ensures
        r@ == age_token_of(secs as nat),
{
    if secs < 60 {
        let n = number::to_decimal(secs);
        text::cat2(n.as_str(), "s")
    } else if secs < 3600 {
        let n = number::to_decimal(secs / 60);
        text::cat2(n.as_str(), "m")
    } else if secs < 86_400 {
        let n = number::to_decimal(secs / 3600);
        text::cat2(n.as_str(), "h")
    } else {
        let n = number::to_decimal(secs / 86_400);
        text::cat2(n.as_str(), "d")
    }
}

/// The state a unit was in when it was removed, as one token.
pub open spec fn state_token_of(enabled: bool, active: bool) -> Seq<char> {
    if enabled && active {
        "enabled,active"@
    } else if enabled {
        "enabled"@
    } else if active {
        "active"@
    } else {
        "-"@
    }
}

/// The state a unit was in when it was removed, as one token: `enabled`,
/// `active`, `enabled,active` or `-`. Never empty, so the column is always
/// present for a script splitting on whitespace.
pub fn state_token(enabled: bool, active: bool) -> (r: String)
    ensures
        r@ == state_token_of(enabled, active),
{
    if enabled && active {
        "enabled,active".to_owned()
    } else if enabled {
        "enabled".to_owned()
    } else if active {
        "active".to_owned()
    } else {
        "-".to_owned()
    }
}

/// One line of the trash listing.
pub open spec fn trash_columns_of(
    id: Seq<char>,
    unit: Seq<char>,
    scope: Seq<char>,
    age: Seq<char>,
    files: Seq<char>,
    state: Seq<char>,
) -> Seq<char> {
    text::pad_right_of(id, 42) + " "@ + text::pad_right_of(unit, 26) + " "@ + text::pad_right_of(
        scope,
        6,
    ) + " "@ + text::pad_left_of(age, 4) + " "@ + text::pad_left_of(files, 5) + " "@ + state
}

fn trash_columns(id: &str, unit: &str, scope: &str, age: &str, files: &str, state: &str) -> (r:
    String)
    ensures
        r@ == trash_columns_of(id@, unit@, scope@, age@, files@, state@),
{
    let mut out = text::pad_right(id, 42);
    out.push_str(" ");
    let u = text::pad_right(unit, 26);
    out.push_str(u.as_str());
    out.push_str(" ");
    let s = text::pad_right(scope, 6);
    out.push_str(s.as_str());
    out.push_str(" ");
    let a = text::pad_left(age, 4);
    out.push_str(a.as_str());
    out.push_str(" ");
    let f = text::pad_left(files, 5);
    out.push_str(f.as_str());
    out.push_str(" ");
    out.push_str(state);
    out
}

/// The line above the trash listing.
pub fn trash_header() -> (r: String)
    ensures
        r@ == trash_columns_of("ID"@, "UNIT"@, "SCOPE"@, "AGE"@, "FILES"@, "STATE"@),
{
    trash_columns("ID", "UNIT", "SCOPE", "AGE", "FILES", "STATE")
}

/// One listing row. The id comes first and is never truncated: it is the
/// token `notcron restore` takes, so `notcron trash | awk '{print $1}'` has
/// to yield something usable.
pub fn trash_row(e: &TrashEntry, now: u64) -> (r: String)
    ensures
        r@ == trash_columns_of(
            e@.id,
            e@.unit,
            e@.scope.name(),
            age_token_of(trash::age_of(e@, now) as nat),
            number::decimal(e@.files.len()),
            state_token_of(e@.was_enabled, e@.was_active),
        ),
{
    let age = age_token(e.age_secs(now));
    let files = number::usize_decimal(e.files.len());
    let state = state_token(e.was_enabled, e.was_active);
    trash_columns(
        e.id.as_str(),
        e.unit.as_str(),
        e.scope.as_str(),
        age.as_str(),
        files.as_str(),
        state.as_str(),
    )
}

/// The row of a trash entry starts with its id.
pub proof fn law_trash_row_starts_with_the_id(
    id: Seq<char>,
    unit: Seq<char>,
    scope: Seq<char>,
    age: Seq<char>,
    files: Seq<char>,
    state: Seq<char>,
)
    ensures
        id.is_prefix_of(trash_columns_of(id, unit, scope, age, files, state)),
{
    let row = trash_columns_of(id, unit, scope, age, files, state);
    assert(row.subrange(0, id.len() as int) =~= id);
    assert(row.take(id.len() as int) =~= id);
}

/// The ids that start with a token.
pub open spec fn ids_with(entries: Seq<trash::EntryView>, token: Seq<char>) -> Seq<Seq<char>>
    decreases entries.len(),
{
    if entries.len() == 0 {
        seq![]
    } else if token.is_prefix_of(entries.last().id) {
        ids_with(entries.drop_last(), token).push(entries.last().id)
    } else {
        ids_with(entries.drop_last(), token)
    }
}

/// Whether an entry has that id.
pub open spec fn has_id(entries: Seq<trash::EntryView>, token: Seq<char>) -> bool {
    exists|i: int| 0 <= i < entries.len() && (#[trigger] entries[i]).id == token
}

/// The id that a token stands for, or why it stands for none.
pub open spec fn resolved_of(entries: Seq<trash::EntryView>, token: Seq<char>) -> Result<
    Seq<char>,
    Seq<char>,
> {
    let hits = ids_with(entries, token);
    if token.len() == 0 {
        Err("no trash id given (try: notcron trash)"@)
    } else if has_id(entries, token) {
        Ok(token)
    } else if hits.len() == 0 {
        Err("no trash entry matching '"@ + token + "' (try: notcron trash)"@)
    } else if hits.len() == 1 {
        Ok(hits[0])
    } else {
        Err(
            "'"@ + token + "' matches "@ + number::decimal(hits.len())
                + " entries; use a longer id:\n  "@ + parts::join_of(hits, "\n  "@),
        )
    }
}

/// Turn what the user typed into exactly one trash id.
///
/// An exact id always wins. Otherwise the token is treated as a prefix --
/// ids are timestamped and long, and the timestamp alone usually picks out
/// one removal. An ambiguous prefix is an error listing the candidates:
/// guessing which of two removals to undo is not a decision notcron may make
/// on the user's behalf.
pub fn resolve_trash_id(entries: &[TrashEntry], token: &str) -> (r: Result<String, String>)
    ensures
        model::same_result(r, resolved_of(trash::entry_views(entries@), token@)),
{
    if token.is_empty() {
        return Err("no trash id given (try: notcron trash)".to_owned());
    }
    let ghost all = trash::entry_views(entries@);
    let mut hits: Vec<String> = Vec::new();
    let mut i: usize = 0;
    assert(all.take(0) =~= seq![]);
    assert(text::texts(hits@) =~= seq![]);
    while i < entries.len()
        invariant
            i <= entries@.len(),
            token@.len() > 0,
            all == trash::entry_views(entries@),
            text::texts(hits@) == ids_with(all.take(i as int), token@),
            forall|k: int| 0 <= k < i ==> (#[trigger] all[k]).id != token@,
        decreases entries@.len() - i,
    {
        proof {
            assert(all.take(i + 1).drop_last() =~= all.take(i as int));
            assert(all.take(i + 1).last() == entries@[i as int]@);
            assert(all[i as int] == entries@[i as int]@);
        }
        if text::same(entries[i].id.as_str(), token) {
            assert(has_id(all, token@));
            return Ok(entries[i].id.clone());
        }
        if text::starts_with(entries[i].id.as_str(), token) {
            let ghost before = text::texts(hits@);
            hits.push(entries[i].id.clone());
            assert(text::texts(hits@) =~= before.push(entries@[i as int]@.id));
        }
        i += 1;
    }
    assert(all.take(entries@.len() as int) =~= all);
    let n: usize = hits.len();
    assert(text::texts(hits@).len() == n);
    if n == 0 {
        Err(text::cat3("no trash entry matching '", token, "' (try: notcron trash)"))
    } else if n == 1 {
        assert(text::texts(hits@)[0] == hits@[0]@);
        Ok(hits[0].clone())
    } else {
        let count = number::usize_decimal(n);
        let names = parts::join(&hits, "\n  ");
        let mut m = text::cat3("'", token, "' matches ");
        m.push_str(count.as_str());
        m.push_str(" entries; use a longer id:\n  ");
        m.push_str(names.as_str());
        Err(m)
    }
}

proof fn lemma_ids_with(entries: Seq<trash::EntryView>, token: Seq<char>)
    ensures
        forall|k: int|
            0 <= k < ids_with(entries, token).len() ==> token.is_prefix_of(
                #[trigger] ids_with(entries, token)[k],
            ) && has_id(entries, ids_with(entries, token)[k]),
    decreases entries.len(),
{
    if entries.len() > 0 {
        let rest = entries.drop_last();
        lemma_ids_with(rest, token);
        let all = ids_with(entries, token);
        assert forall|k: int| 0 <= k < all.len() implies token.is_prefix_of(#[trigger] all[k])
            && has_id(entries, all[k]) by {
            if k < ids_with(rest, token).len() {
                assert(all[k] == ids_with(rest, token)[k]);
                assert(has_id(rest, all[k]));
                let i = choose|i: int| 0 <= i < rest.len() && (#[trigger] rest[i]).id == all[k];
                assert(entries[i].id == all[k]);
            } else {
                assert(entries[entries.len() - 1].id == all[k]);
            }
        }
    }
}

/// What a token resolves to is the id of an entry, and starts with the token;
/// an entry's own id resolves to itself, whatever other ids start with it.
pub proof fn law_resolved(entries: Seq<trash::EntryView>, token: Seq<char>)
    ensures
        resolved_of(entries, token) matches Ok(id) ==> has_id(entries, id) && token.is_prefix_of(id),
        token.len() > 0 && has_id(entries, token) ==> resolved_of(entries, token) == Ok::<
            Seq<char>,
            Seq<char>,
        >(token),
{
    lemma_ids_with(entries, token);
    let hits = ids_with(entries, token);
    if hits.len() > 0 {
        assert(has_id(entries, hits[0]));
    }
    assert(token.subrange(0, token.len() as int) =~= token);
}

/// What a restore that moved its files back still has to do.
#[derive(Debug, PartialEq, Eq)]
pub enum Revival {
    /// The unit was neither enabled nor running: nothing.
    Nothing,
    /// Its state is left alone, and this is said about it.
    LeftAlone(String),
    /// `systemctl` is called with these arguments.
    Call(Vec<String>),
}

/// What is left to do for a unit whose files are back. Restoring puts the
/// unit back the way it was, enabled and running included: a unit that is on
/// disk but inert is the failure mode that goes unnoticed until the job
/// silently stops running.
pub fn revival(unit: &str, was_enabled: bool, was_active: bool, no_enable: bool) -> (r: Revival)
    ensures
        if !was_enabled && !was_active {
            r is Nothing
        } else if no_enable {
            &&& r matches Revival::LeftAlone(m)
            &&& m@ == unit@ + " was "@ + trashview::state_text(was_enabled, was_active)
                + " when removed; --no-enable left it alone"@
        } else {
            &&& r matches Revival::Call(args)
            &&& text::texts(args@) == (if was_enabled && was_active {
                seq!["enable"@, "--now"@]
            } else if was_enabled {
                seq!["enable"@]
            } else {
                seq!["start"@]
            }).push(unit@)
        },
{
    if !was_enabled && !was_active {
        return Revival::Nothing;
    }
    if no_enable {
        let state = trashview::describe_state(was_enabled, was_active);
        let head = text::cat3(unit, " was ", state);
        return Revival::LeftAlone(
            text::cat2(head.as_str(), " when removed; --no-enable left it alone"),
        );
    }
    let mut args: Vec<String> = Vec::new();
    if was_enabled {
        args.push("enable".to_owned());
        if was_active {
            args.push("--now".to_owned());
        }
    } else {
        args.push("start".to_owned());
    }
    args.push(unit.to_owned());
    assert(text::texts(args@) =~= (if was_enabled && was_active {
        seq!["enable"@, "--now"@]
    } else if was_enabled {
        seq!["enable"@]
    } else {
        seq!["start"@]
    }).push(unit@));
    Revival::Call(args)
}

// ---------------------------------------------------------------------------
// add
// ---------------------------------------------------------------------------

/// The text behind the last `/`.
pub open spec fn base_name_of(s: Seq<char>) -> Seq<char> {
    match parts::rsplit_once_of(s, '/') {
        Some((_, base)) => base,
        None => s,
    }
}

fn base_name(s: &str) -> (r: String)
    ensures
        r@ == base_name_of(s@),
{
    match parts::rsplit_once(s, '/') {
        Some((_, base)) => base.to_owned(),
        None => s.to_owned(),
    }
}

/// Whether a command is handed to a shell.
pub open spec fn is_shell(command: Seq<Seq<char>>, force: bool) -> bool {
    force || (command.len() == 1 && escape::needs_shell_of(parts::join_of(command, " "@)))
}

/// The `ExecStart=` value for a command.
pub open spec fn exec_of(command: Seq<Seq<char>>, force: bool) -> Seq<char> {
    if is_shell(command, force) {
        "/bin/sh -c "@ + escape::exec_quote_of(parts::join_of(command, " "@))
    } else {
        parts::join_of(validate::quoted_of(command), " "@)
    }
}

/// The name that a command suggests: that of its program.
pub open spec fn hint_of(command: Seq<Seq<char>>, force: bool) -> Seq<char> {
    if is_shell(command, force) {
        let words = parts::words_of(parts::join_of(command, " "@));
        base_name_of(
            if words.len() > 0 {
                words[0]
            } else {
                "job"@
            },
        )
    } else {
        base_name_of(command[0])
    }
}

/// Build the `ExecStart=` value and a name hint from a command line.
pub fn build_exec(command: &[String], force_shell: bool) -> (r: (String, String))
    requires
        command@.len() > 0 || force_shell,
    ensures
        r.0@ == exec_of(text::texts(command@), force_shell),
        r.1@ == hint_of(text::texts(command@), force_shell),
{
    let ghost all = text::texts(command@);
    let joined = parts::join(command, " ");
    if force_shell || (command.len() == 1 && escape::needs_shell(joined.as_str())) {
        let words = parts::words(joined.as_str());
        let hint = if words.len() > 0 {
            assert(text::texts(words@)[0] == words@[0]@);
            base_name(words[0].as_str())
        } else {
            base_name("job")
        };
        let quoted = escape::exec_quote(joined.as_str());
        return (text::cat2("/bin/sh -c ", quoted.as_str()), hint);
    }
    assert(all[0] == command@[0]@);
    let hint = base_name(command[0].as_str());
    let ghost want = validate::quoted_of(all);
    let mut quoted: Vec<String> = Vec::new();
    let mut i: usize = 0;
    while i < command.len()
        invariant
            i <= command@.len(),
            all == text::texts(command@),
            want == validate::quoted_of(all),
            text::texts(quoted@) == want.take(i as int),
        decreases command@.len() - i,
    {
        assert(all[i as int] == command@[i as int]@);
        let ghost before = text::texts(quoted@);
        quoted.push(escape::exec_quote(command[i].as_str()));
        assert(text::texts(quoted@) =~= before.push(want[i as int]));
        assert(before.push(want[i as int]) =~= want.take(i + 1));
        i += 1;
    }
    assert(text::texts(quoted@) =~= want);
    (parts::join(&quoted, " "), hint)
}

/// An `ExecStart=` value splits back into the command it was built from, or
/// into the shell call that runs it.
pub proof fn law_exec_splits_back(command: Seq<Seq<char>>, force: bool)
    ensures
        validate::split_exec_of(exec_of(command, force)) == if is_shell(command, force) {
            seq!["/bin/sh"@, "-c"@, parts::join_of(command, " "@)]
        } else {
            command
        },
{
    if is_shell(command, force) {
        let joined = parts::join_of(command, " "@);
        let call = seq!["/bin/sh"@, "-c"@, joined];
        let q = validate::quoted_of(call);
        reveal_strlit("/bin/sh");
        reveal_strlit("-c");
        reveal_strlit(" ");
        reveal_strlit("/bin/sh -c ");
        assert(escape::exec_quote_of("/bin/sh"@) == "/bin/sh"@);
        assert(escape::exec_quote_of("-c"@) == "-c"@);
        assert(q.drop_last().drop_last() =~= seq![q[0]]);
        assert(q.drop_last().last() == "-c"@);
        assert(q.last() == escape::exec_quote_of(joined));
        reveal_with_fuel(parts::join_of, 4);
        assert(parts::join_of(q, " "@) =~= "/bin/sh"@ + " "@ + "-c"@ + " "@
            + escape::exec_quote_of(joined));
        assert(exec_of(command, force) =~= parts::join_of(q, " "@));
        validate::law_split_quoted(call);
    } else {
        validate::law_split_quoted(command);
    }
}

/// The contents of [`AddArgs`], as far as they make the unit.
#[verifier::ext_equal]
pub struct AddView {
    pub name: Option<Seq<char>>,
    pub description: Option<Seq<char>>,
    pub shell: bool,
    pub no_persistent: bool,
    pub random_delay: Option<Seq<char>>,
    pub workdir: Option<Seq<char>>,
    pub env: Seq<Seq<char>>,
    pub run_as: Option<Seq<char>>,
    pub schedule: Seq<char>,
    pub command: Seq<Seq<char>>,
}

impl View for AddArgs {
    type V = AddView;

    open spec fn view(&self) -> AddView {
        AddView {
            name: text::opt_text(self.name),
            description: text::opt_text(self.description),
            shell: self.shell,
            no_persistent: self.no_persistent,
            random_delay: text::opt_text(self.random_delay),
            workdir: text::opt_text(self.workdir),
            env: text::texts(self.env@),
            run_as: text::opt_text(self.run_as),
            schedule: self.schedule@,
            command: text::texts(self.command@),
        }
    }
}

/// The calendar specs of a schedule, for systemd to check; none for
/// `@reboot`.
pub fn specs_to_check(schedule: &str) -> (r: Result<Vec<String>, String>)
    ensures
        match r {
            Ok(v) => cron::translation_of(schedule@) is Ok && text::texts(v@)
                == match cron::translation_of(schedule@)->Ok_0 {
                Some(specs) => specs,
                None => seq![],
            },
            Err(e) => cron::translation_of(schedule@) == Err::<Option<Seq<Seq<char>>>, Seq<char>>(
                e@,
            ),
        },
{
    match cron::to_calendar(schedule) {
        Ok(Translation::Calendar(specs)) => Ok(specs),
        Ok(Translation::Reboot) => {
            let none: Vec<String> = Vec::new();
            assert(text::texts(none@) =~= seq![]);
            Ok(none)
        },
        Err(e) => Err(e.to_string()),
    }
}

/// The complaint about the first spec that systemd refused, if it refused one.
pub open spec fn refused_spec(specs: Seq<Seq<char>>, errors: Seq<Option<Seq<char>>>) -> Option<
    Seq<char>,
>
    decreases specs.len(),
{
    if specs.len() == 0 || errors.len() == 0 {
        None
    } else if errors[0] is Some {
        Some("generated calendar spec '"@ + specs[0] + "' is invalid: "@ + errors[0]->0)
    } else {
        refused_spec(specs.skip(1), errors.skip(1))
    }
}

/// The first assignment without a `=`, if there is one.
pub open spec fn bad_env(env: Seq<Seq<char>>) -> Option<Seq<char>>
    decreases env.len(),
{
    if env.len() == 0 {
        None
    } else if !env[0].contains('=') {
        Some(env[0])
    } else {
        bad_env(env.skip(1))
    }
}

/// What is written down as the source of a schedule.
pub open spec fn source_text(schedule: Seq<char>, specs: Option<Seq<Seq<char>>>) -> Seq<char> {
    match specs {
        Some(_) => "cron: "@ + text::trim_of(schedule),
        None => "@reboot"@,
    }
}

/// The unit that a valid call makes.
pub open spec fn add_unit_of(a: AddView, scope: Scope, specs: Option<Seq<Seq<char>>>) -> UnitView {
    let source = source_text(a.schedule, specs);
    let name = escape::slug_of(
        match a.name {
            Some(n) => n,
            None => hint_of(a.command, a.shell),
        },
    );
    UnitView {
        name,
        description: match a.description {
            Some(d) => d,
            None => name + " ("@ + source + ")"@,
        },
        scope,
        body: BodyView::Timer(
            TimerView {
                schedule: match specs {
                    Some(v) => ScheduleView::Calendar(v),
                    None => ScheduleView::Boot { boot: "1min"@ },
                },
                source,
                persistent: !a.no_persistent,
                randomized_delay: a.random_delay,
                service: ServiceView {
                    exec_start: exec_of(a.command, a.shell),
                    working_directory: a.workdir,
                    run_as: a.run_as,
                    environment: a.env,
                    ..model::blank_service(ServiceType::Oneshot)
                },
                ..model::blank_timer()
            },
        ),
    }
}

/// The unit that a call makes, or the first complaint about it: a schedule
/// that is none, a spec or a delay that systemd refuses, an assignment
/// without a `=`, or a unit that is not valid.
pub open spec fn add_of(
    a: AddView,
    scope: Scope,
    spec_errors: Seq<Option<Seq<char>>>,
    delay_error: Option<Seq<char>>,
) -> Result<UnitView, Seq<char>> {
    match cron::translation_of(a.schedule) {
        Err(e) => Err(e),
        Ok(specs) => {
            let refused = match specs {
                Some(v) => refused_spec(v, spec_errors),
                None => None,
            };
            let u = add_unit_of(a, scope, specs);
            if refused is Some {
                Err(refused->0)
            } else if a.random_delay is Some && delay_error is Some {
                Err(delay_error->0)
            } else if bad_env(a.env) is Some {
                Err("--env expects KEY=VALUE, got '"@ + bad_env(a.env)->0 + "'"@)
            } else if u.error_of() is Some {
                Err(u.error_of()->0)
            } else {
                Ok(u)
            }
        },
    }
}

/// The views of a sequence of optional strings.
pub open spec fn opt_texts(v: Seq<Option<String>>) -> Seq<Option<Seq<char>>> {
    Seq::new(v.len(), |i: int| text::opt_text(v[i]))
}

fn first_refusal(specs: &[String], errors: &[Option<String>]) -> (r: Option<String>)
    ensures
        text::opt_text(r) == refused_spec(text::texts(specs@), opt_texts(errors@)),
{
    let ghost a = text::texts(specs@);
    let ghost b = opt_texts(errors@);
    let mut i: usize = 0;
    assert(a.skip(0) =~= a);
    assert(b.skip(0) =~= b);
    while i < specs.len() && i < errors.len()
        invariant
            i <= specs@.len(),
            i <= errors@.len(),
            a == text::texts(specs@),
            b == opt_texts(errors@),
            refused_spec(a, b) == refused_spec(a.skip(i as int), b.skip(i as int)),
        decreases specs@.len() - i,
    {
        proof {
            assert(a.skip(i as int)[0] == specs@[i as int]@);
            assert(b.skip(i as int)[0] == text::opt_text(errors@[i as int]));
            assert(a.skip(i as int).skip(1) =~= a.skip(i + 1));
            assert(b.skip(i as int).skip(1) =~= b.skip(i + 1));
        }
        if let Some(e) = &errors[i] {
            let head = text::cat3(
                "generated calendar spec '",
                specs[i].as_str(),
                "' is invalid: ",
            );
            return Some(text::cat2(head.as_str(), e.as_str()));
        }
        i += 1;
    }
    None
}

fn first_bad_env(env: &[String]) -> (r: Option<String>)
    ensures
        text::opt_text(r) == bad_env(text::texts(env@)),
{
    let ghost all = text::texts(env@);
    let mut i: usize = 0;
    assert(all.skip(0) =~= all);
    while i < env.len()
        invariant
            i <= env@.len(),
            all == text::texts(env@),
            bad_env(all) == bad_env(all.skip(i as int)),
        decreases env@.len() - i,
    {
        assert(all.skip(i as int)[0] == env@[i as int]@);
        if !text::has_char(env[i].as_str(), '=') {
            return Some(env[i].clone());
        }
        assert(all.skip(i as int).skip(1) =~= all.skip(i + 1));
        i += 1;
    }
    None
}

/// The unit that `notcron add` creates, or the first complaint about the
/// call. `spec_errors` holds what systemd said against each of
/// [`specs_to_check`], and `delay_error` what it said against the delay.
pub fn add(
    a: &AddArgs,
    scope: Scope,
    spec_errors: &[Option<String>],
    delay_error: &Option<String>,
) -> (r: Result<Unit, String>)
    requires
        a@.command.len() > 0 || a.shell,
    ensures
        match r {
            Ok(u) => add_of(a@, scope, opt_texts(spec_errors@), text::opt_text(*delay_error))
                == Ok::<UnitView, Seq<char>>(u@),
            Err(e) => add_of(a@, scope, opt_texts(spec_errors@), text::opt_text(*delay_error))
                == Err::<UnitView, Seq<char>>(e@),
        },
{
    let (schedule, source) = match cron::to_calendar(a.schedule.as_str()) {
        Ok(Translation::Calendar(specs)) => {
            if let Some(e) = first_refusal(&specs, spec_errors) {
                return Err(e);
            }
            (
                Schedule::Calendar(specs),
                text::cat2("cron: ", text::trim(a.schedule.as_str())),
            )
        },
        Ok(Translation::Reboot) => (Schedule::Boot { boot: "1min".to_owned() }, "@reboot".to_owned()),
        Err(e) => {
            return Err(e.to_string());
        },
    };
    if a.random_delay.is_some() {
        if let Some(e) = delay_error {
            return Err(e.clone());
        }
    }
    if let Some(e) = first_bad_env(&a.env) {
        return Err(text::cat3("--env expects KEY=VALUE, got '", e.as_str(), "'"));
    }
    let (exec, hint) = build_exec(&a.command, a.shell);
    let name = match &a.name {
        Some(n) => escape::slugify(n.as_str()),
        None => escape::slugify(hint.as_str()),
    };
    let description = match &a.description {
        Some(d) => d.clone(),
        None => {
            let head = text::cat3(name.as_str(), " (", source.as_str());
            text::cat2(head.as_str(), ")")
        },
    };
    let mut service = ServiceOpts::blank(ServiceType::Oneshot);
    service.exec_start = exec;
    service.working_directory = text::clone_opt(&a.workdir);
    service.run_as = text::clone_opt(&a.run_as);
    service.environment = text::clone_strings(&a.env);
    let t = TimerJob {
        source,
        schedule,
        persistent: !a.no_persistent,
        randomized_delay: text::clone_opt(&a.random_delay),
        service,
        timer_manual: String::new(),
        service_manual: String::new(),
    };
    let u = Unit { name, description, scope, body: Body::Timer(Box::new(t)) };
    proof {
        let specs = cron::translation_of(a@.schedule)->Ok_0;
        let want = add_unit_of(a@, scope, specs);
        assert(u@.body->Timer_0.service =~= want.body->Timer_0.service);
        assert(u@.body->Timer_0 =~= want.body->Timer_0);
        assert(u@ =~= want);
    }
    match u.validate() {
        Ok(_) => Ok(u),
        Err(e) => Err(e),
    }
}

// ---------------------------------------------------------------------------
// What an added timer holds
// ---------------------------------------------------------------------------

proof fn lemma_bad_env(env: Seq<Seq<char>>)
    ensures
        bad_env(env) is None <==> forall|i: int|
            0 <= i < env.len() ==> (#[trigger] env[i]).contains('='),
    decreases env.len(),
{
    if env.len() > 0 {
        let rest = env.skip(1);
        lemma_bad_env(rest);
        if env[0].contains('=') {
            if forall|i: int| 0 <= i < rest.len() ==> (#[trigger] rest[i]).contains('=') {
                assert forall|i: int| 0 <= i < env.len() implies (#[trigger] env[i]).contains(
                    '=',
                ) by {
                    if i > 0 {
                        assert(rest[i - 1] == env[i]);
                    }
                }
            }
            if forall|i: int| 0 <= i < env.len() ==> (#[trigger] env[i]).contains('=') {
                assert forall|i: int| 0 <= i < rest.len() implies (#[trigger] rest[i]).contains(
                    '=',
                ) by {
                    assert(rest[i] == env[i + 1]);
                }
            }
        }
    }
}

proof fn lemma_refused_spec(specs: Seq<Seq<char>>, errors: Seq<Option<Seq<char>>>)
    ensures
        refused_spec(specs, errors) is None <==> forall|i: int|
            0 <= i < specs.len() && i < errors.len() ==> (#[trigger] errors[i]) is None,
    decreases specs.len(),
{
    if specs.len() > 0 && errors.len() > 0 {
        let rest = errors.skip(1);
        lemma_refused_spec(specs.skip(1), rest);
        if errors[0] is None {
            if refused_spec(specs, errors) is None {
                assert forall|i: int| 0 <= i < specs.len() && i < errors.len() implies (
                #[trigger] errors[i]) is None by {
                    if i > 0 {
                        assert(rest[i - 1] == errors[i]);
                    }
                }
            }
            if forall|i: int|
                0 <= i < specs.len() && i < errors.len() ==> (#[trigger] errors[i]) is None {
                assert forall|i: int| 0 <= i < specs.skip(1).len() && i < rest.len() implies (
                #[trigger] rest[i]) is None by {
                    assert(rest[i] == errors[i + 1]);
                }
            }
        }
    }
}

/// A timer that was added carries what the call said: its assignments in
/// order, its directory, its user, its delay, whether missed runs are caught
/// up, and a command line that splits back into the command. Nothing else is
/// set, and nothing that systemd refused or that is no assignment gets in.
pub proof fn law_added_timer_carries_the_call(
    a: AddView,
    scope: Scope,
    spec_errors: Seq<Option<Seq<char>>>,
    delay_error: Option<Seq<char>>,
)
    requires
        add_of(a, scope, spec_errors, delay_error) is Ok,
    ensures
        ({
            let u = add_of(a, scope, spec_errors, delay_error)->Ok_0;
            &&& u.scope == scope
            &&& u.error_of() is None
            &&& a.description matches Some(d) ==> u.description == d
            &&& a.name matches Some(n) ==> u.name == escape::slug_of(n)
            &&& u.body matches BodyView::Timer(t)
            &&& t.persistent != a.no_persistent
            &&& t.randomized_delay == a.random_delay
            &&& t.timer_manual.len() == 0 && t.service_manual.len() == 0
            &&& t.service.service_type == ServiceType::Oneshot
            &&& t.service.environment == a.env
            &&& t.service.working_directory == a.workdir
            &&& t.service.run_as == a.run_as
            &&& t.service.group is None
            &&& t.service.exec_start_pre is None
            &&& t.service.exec_stop_post is None
            &&& validate::split_exec_of(t.service.exec_start) == if is_shell(a.command, a.shell) {
                seq!["/bin/sh"@, "-c"@, parts::join_of(a.command, " "@)]
            } else {
                a.command
            }
            &&& a.shell ==> is_shell(a.command, a.shell)
            &&& !a.shell && a.command.len() != 1 ==> !is_shell(a.command, a.shell)
            &&& match cron::translation_of(a.schedule) {
                Ok(Some(specs)) => t.schedule == ScheduleView::Calendar(specs) && forall|i: int|
                    0 <= i < specs.len() && i < spec_errors.len() ==> (
                    #[trigger] spec_errors[i]) is None,
                Ok(None) => t.schedule is Boot,
                Err(_) => false,
            }
            &&& a.random_delay is Some ==> delay_error is None
            &&& forall|i: int| 0 <= i < a.env.len() ==> (#[trigger] a.env[i]).contains('=')
        }),
{
    law_exec_splits_back(a.command, a.shell);
    lemma_bad_env(a.env);
    if let Ok(Some(specs)) = cron::translation_of(a.schedule) {
        lemma_refused_spec(specs, spec_errors);
    }
}

/// A call is refused only for a reason: its schedule is none, systemd refused
/// a spec or the delay, an assignment is none, or the unit cannot be
/// installed.
pub proof fn law_add_refuses_for_a_reason(
    a: AddView,
    scope: Scope,
    spec_errors: Seq<Option<Seq<char>>>,
    delay_error: Option<Seq<char>>,
)
    requires
        add_of(a, scope, spec_errors, delay_error) is Err,
    ensures
        ({
            ||| cron::translation_of(a.schedule) is Err
            ||| exists|i: int| 0 <= i < spec_errors.len() && (#[trigger] spec_errors[i]) is Some
            ||| a.random_delay is Some && delay_error is Some
            ||| exists|i: int| 0 <= i < a.env.len() && !(#[trigger] a.env[i]).contains('=')
            ||| add_unit_of(a, scope, cron::translation_of(a.schedule)->Ok_0).error_of() is Some
        }),
{
    lemma_bad_env(a.env);
    if let Ok(Some(specs)) = cron::translation_of(a.schedule) {
        lemma_refused_spec(specs, spec_errors);
    }
}

/// A timer that was added from five fields fires when cron would.
pub proof fn law_added_timer_fires_as_cron(
    a: AddView,
    scope: Scope,
    spec_errors: Seq<Option<Seq<char>>>,
    delay_error: Option<Seq<char>>,
    at: calendar::Instant,
)
    requires
        add_of(a, scope, spec_errors, delay_error) is Ok,
        parts::words_of(a.schedule).len() == 5,
        at.is_valid(),
    ensures
        add_of(a, scope, spec_errors, delay_error)->Ok_0.body matches BodyView::Timer(t)
            && t.schedule matches ScheduleView::Calendar(specs) && (calendar::one_matches(
            specs,
            at,
        ) <==> calendar::cron_fires(parts::words_of(a.schedule), at)),
{
    calendar::law_translation_fires_as_cron(a.schedule, at);
}

/// The files of a timer that was added tell systemd what the call said.
pub proof fn law_added_files_tell_systemd(
    a: AddView,
    scope: Scope,
    spec_errors: Seq<Option<Seq<char>>>,
    delay_error: Option<Seq<char>>,
)
    requires
        add_of(a, scope, spec_errors, delay_error) is Ok,
        roundtrip::is_plain(add_of(a, scope, spec_errors, delay_error)->Ok_0),
    ensures
        ({
            let files = generate::render_of(add_of(a, scope, spec_errors, delay_error)->Ok_0);
            &&& files.len() == 2
            &&& roundtrip::told(files[1], "Service"@, "Environment"@) == a.env
            &&& roundtrip::told(files[1], "Service"@, "WorkingDirectory"@) == roundtrip::given(
                a.workdir,
            )
            &&& roundtrip::told(files[1], "Service"@, "User"@) == roundtrip::given(a.run_as)
            &&& roundtrip::told(files[0], "Timer"@, "RandomizedDelaySec"@) == roundtrip::given(
                a.random_delay,
            )
            &&& roundtrip::told(files[0], "Timer"@, "Persistent"@) == if a.no_persistent {
                seq![]
            } else {
                seq!["true"@]
            }
        }),
{
    roundtrip::law_timer_files_tell_systemd(add_of(a, scope, spec_errors, delay_error)->Ok_0);
}

/// A unit goes by the name of its file, by that name without its suffix, and
/// by the short name that it was given.
pub proof fn law_units_go_by_their_names(stem: Seq<char>, suffix: Seq<char>, name: Seq<char>)
    requires
        suffix.len() > 0,
        !suffix.contains('.'),
    ensures
        is_named(stem + seq!['.'] + suffix, stem + seq!['.'] + suffix),
        is_named(stem + seq!['.'] + suffix, stem),
        is_named(model::prefixed_of(name) + seq!['.'] + suffix, name),
        is_named(stem + seq!['.'] + suffix, name) ==> name == stem || model::prefixed_of(name)
            == stem || name == stem + seq!['.'] + suffix,
{
    lemma_suffix_splits(stem, suffix);
    lemma_suffix_splits(model::prefixed_of(name), suffix);
}

proof fn lemma_suffix_splits(stem: Seq<char>, suffix: Seq<char>)
    requires
        !suffix.contains('.'),
    ensures
        parts::rsplit_once_of(stem + seq!['.'] + suffix, '.') == Some((stem, suffix)),
{
    let s = stem + seq!['.'] + suffix;
    let k = stem.len() as int;
    assert(s[k] == '.');
    assert forall|j: int| k < j < s.len() implies #[trigger] s[j] != '.' by {
        assert(s[j] == suffix[j - k - 1]);
        assert(suffix.contains(suffix[j - k - 1]));
    }
    text::lemma_last_index_at(s, '.', k);
    assert(s.take(k) =~= stem);
    assert(s.skip(k + 1) =~= suffix);
}

} // verus!
