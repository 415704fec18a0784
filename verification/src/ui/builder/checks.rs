//! The advisory checks on the form: the fix that belongs to a row, applying
//! it, reviewing all of them, and the status line under the form.

use crate::number;
use crate::parts;
use crate::text;
use crate::ui::builder::fields;
use crate::ui::builder::pane;
use crate::ui::builder::pane::{Derived, DerivedView, Runs, RunsView};
use crate::ui::builder::rows;
use crate::ui::builder::rows::Id;
use crate::ui::wrap;
use crate::unit::model::{ServiceOpts, ServiceView, Unit, UnitView};
use crate::validate;
use crate::validate::{Diagnostic, DiagnosticView, Fix, FixView, Level};
use vstd::prelude::*;

verus! {

broadcast use vstd::string::group_string_axioms;

/// The value of a directive that a fix can change.
pub open spec fn value_of(u: UnitView, field: Seq<char>) -> Option<Seq<char>> {
    match validate::service_of(u) {
        None => None,
        Some(s) => if field == "ExecStart"@ {
            Some(s.exec_start)
        } else if field == "ExecStartPre"@ {
            Some(fields::or_empty(s.exec_start_pre))
        } else if field == "ExecStopPost"@ {
            Some(fields::or_empty(s.exec_stop_post))
        } else {
            None
        },
    }
}

/// The current value of the directive a fix applies to.
pub fn directive_value(u: &Unit, field: &str) -> (r: Option<String>)
    ensures
        text::opt_text(r) == value_of(u@, field@),
{
    match validate::service(u) {
        None => None,
        Some(s) => if text::same(field, "ExecStart") {
            Some(s.exec_start.clone())
        } else if text::same(field, "ExecStartPre") {
            Some(fields::opt_or_empty(&s.exec_start_pre))
        } else if text::same(field, "ExecStopPost") {
            Some(fields::opt_or_empty(&s.exec_stop_post))
        } else {
            None
        },
    }
}

/// Service settings with another value for a directive.
pub open spec fn with_value(s: ServiceView, field: Seq<char>, v: Seq<char>) -> ServiceView {
    if field == "ExecStart"@ {
        ServiceView { exec_start: v, ..s }
    } else if field == "ExecStartPre"@ {
        ServiceView { exec_start_pre: Some(v), ..s }
    } else {
        ServiceView { exec_stop_post: Some(v), ..s }
    }
}

/// The unit after a fix, where the fix changes anything.
pub open spec fn fixed_of(u: UnitView, fix: FixView) -> Option<UnitView> {
    match value_of(u, fix.directive) {
        None => None,
        Some(current) => if fix.applied_to(current) == current {
            None
        } else {
            Some(
                fields::with_service(
                    u,
                    with_value(
                        validate::service_of(u).unwrap(),
                        fix.directive,
                        fix.applied_to(current),
                    ),
                ),
            )
        },
    }
}

/// What a fix changed, in words.
pub open spec fn fix_text(fix: FixView) -> Seq<char> {
    fix.directive + "=: "@ + fix.label_of()
}

/// Apply a suggested fix. Returns what changed, for the status line.
pub fn apply_fix(u: &mut Unit, fix: &Fix) -> (r: Option<String>)
    ensures
        match fixed_of(old(u)@, fix@) {
            Some(n) => final(u)@ == n && text::opt_text(r) == Some(fix_text(fix@)),
            None => final(u)@ == old(u)@ && r is None,
        },
{
    let field = fix.field();
    let current = match directive_value(u, field) {
        Some(v) => v,
        None => {
            return None;
        },
    };
    let new = fix.apply(current.as_str());
    if text::same(new.as_str(), current.as_str()) {
        return None;
    }
    let mut s: ServiceOpts = match validate::service(u) {
        Some(s) => s.clone(),
        None => {
            return None;
        },
    };
    if text::same(field, "ExecStart") {
        s.exec_start = new;
    } else if text::same(field, "ExecStartPre") {
        s.exec_start_pre = Some(new);
    } else {
        s.exec_stop_post = Some(new);
    }
    fields::set_service(u, s);
    let label = fix.label();
    Some(text::cat3(field, "=: ", label.as_str()))
}

/// A fix that was applied does not apply again, unless it moved the program
/// to a path that itself begins with the old one.
pub proof fn law_fixes_settle(u: UnitView, fix: FixView)
    requires
        fixed_of(u, fix) is Some,
        fix.from.len() > 0,
        !text::is_white(fix.from[0]),
        fix.to.len() > 0,
        !text::is_white(fix.to[0]),
        fix.to[0] != fix.from[0],
    ensures
        fixed_of(fixed_of(u, fix).unwrap(), fix) is None,
{
    let current = value_of(u, fix.directive).unwrap();
    let new = fix.applied_to(current);
    let rest = text::after_prefix(text::trim_start_of(current), fix.from).unwrap();
    assert(new[0] == fix.to[0]);
    assert(text::trim_start_of(new) == new);
    assert(text::after_prefix(new, fix.from) is None);
    assert(value_of(fixed_of(u, fix).unwrap(), fix.directive) == Some(new));
}

// ---------------------------------------------------------------------------
// The fix of a row
// ---------------------------------------------------------------------------

/// The first advisory with a fix of a directive.
pub open spec fn fix_from(diags: Seq<DiagnosticView>, field: Seq<char>) -> Option<
    (DiagnosticView, FixView),
>
    decreases diags.len(),
{
    if diags.len() == 0 {
        None
    } else if diags[0].fix is Some && diags[0].fix.unwrap().directive == field {
        Some((diags[0], diags[0].fix.unwrap()))
    } else {
        fix_from(diags.skip(1), field)
    }
}

/// The fixable advisory that belongs to a row.
pub open spec fn row_fix(diags: Seq<DiagnosticView>, id: Id) -> Option<(DiagnosticView, FixView)> {
    match rows::directive_of(id) {
        Some(field) => fix_from(diags, field),
        None => None,
    }
}

/// The fixable advisory that belongs to the focused row, if any.
pub fn fix_for_row(d: &Derived, id: Id) -> (r: Option<(&Diagnostic, Fix)>)
    ensures
        match r {
            Some((x, f)) => row_fix(d@.diags, id) == Some((x@, f@)),
            None => row_fix(d@.diags, id) is None,
        },
{
    let field = match rows::directive(id) {
        Some(f) => f,
        None => {
            return None;
        },
    };
    let ghost all = d@.diags;
    let ghost want = row_fix(all, id);
    let mut i: usize = 0;
    assert(all.skip(0) =~= all);
    while i < d.diags.len()
        invariant
            i <= d.diags@.len(),
            all == d@.diags,
            want == row_fix(d@.diags, id),
            want == fix_from(all.skip(i as int), field@),
        decreases d.diags@.len() - i,
    {
        assert(all.skip(i as int)[0] == d.diags@[i as int]@);
        assert(all.skip(i as int).skip(1) =~= all.skip(i + 1));
        if let Some(fix) = validate::autofix(&d.diags[i]) {
            if text::same(fix.field(), field) {
                return Some((&d.diags[i], fix));
            }
        }
        i += 1;
    }
    None
}

/// What the fix key says.
pub open spec fn quick_fix_text(u: UnitView, d: DerivedView, id: Id) -> Seq<char> {
    match row_fix(d.diags, id) {
        Some((_, fix)) => if fixed_of(u, fix) is Some {
            "fixed: "@ + fix_text(fix)
        } else {
            "nothing to change"@
        },
        None => if pane::fixable_of(d.diags).len() == 0 {
            "no suggested fix for this field (c reviews all checks)"@
        } else {
            "no suggested fix for this field; c reviews the ones there are"@
        },
    }
}

/// What the fix key makes of the unit.
pub open spec fn quick_fixed(u: UnitView, d: DerivedView, id: Id) -> UnitView {
    match row_fix(d.diags, id) {
        Some((_, fix)) => match fixed_of(u, fix) {
            Some(n) => n,
            None => u,
        },
        None => u,
    }
}

/// Applies the focused row's suggested fix, and says what came of it.
pub fn quick_fix(u: &mut Unit, d: &Derived, id: Id) -> (r: String)
    ensures
        r@ == quick_fix_text(old(u)@, d@, id),
        final(u)@ == quick_fixed(old(u)@, d@, id),
{
    match fix_for_row(d, id) {
        Some((_, fix)) => match apply_fix(u, &fix) {
            Some(msg) => text::cat2("fixed: ", msg.as_str()),
            None => "nothing to change".to_owned(),
        },
        None => {
            let some = d.fixable();
            assert(Seq::new(some@.len(), |i: int| some@[i]@).len() == some@.len());
            if some.len() == 0 {
                "no suggested fix for this field (c reviews all checks)".to_owned()
            } else {
                "no suggested fix for this field; c reviews the ones there are".to_owned()
            }
        },
    }
}

// ---------------------------------------------------------------------------
// Reviewing
// ---------------------------------------------------------------------------

/// What is shown where there is nothing to review.
pub open spec fn no_advice() -> Seq<char> {
    "No advisories.\n\nThese checks are advice about what systemd will do differently from a shell. They never block a save."@
}

/// What is shown where there is nothing to review.
pub fn nothing_to_review() -> (r: &'static str)
    ensures
        r@ == no_advice(),
{
    "No advisories.\n\nThese checks are advice about what systemd will do differently from a shell. They never block a save."
}

/// One line of the review.
pub open spec fn label_of(d: DiagnosticView) -> Seq<char> {
    (if d.level == Level::Error {
        "error  "@
    } else {
        "warning"@
    }) + " "@ + rows::truncated_of(d.message, 90) + (if d.fix is Some {
        "   [Enter fixes]"@
    } else {
        ""@
    })
}

/// One line of the review.
pub fn label(d: &Diagnostic) -> (r: String)
    ensures
        r@ == label_of(d@),
{
    let head = if d.level == Level::Error {
        "error  "
    } else {
        "warning"
    };
    let tail = if d.fix.is_some() {
        "   [Enter fixes]"
    } else {
        ""
    };
    let body = rows::truncate(d.message.as_str(), 90);
    let left = text::cat3(head, " ", body.as_str());
    text::cat2(left.as_str(), tail)
}

/// The lines of the review.
pub fn labels(diags: &[Diagnostic]) -> (r: Vec<String>)
    ensures
        text::texts(r@) == Seq::new(diags@.len(), |i: int| label_of(diags@[i]@)),
{
    let mut out: Vec<String> = Vec::new();
    let mut i: usize = 0;
    while i < diags.len()
        invariant
            i <= diags@.len(),
            out@.len() == i,
            forall|k: int| 0 <= k < i ==> (#[trigger] out@[k])@ == label_of(diags@[k]@),
        decreases diags@.len() - i,
    {
        out.push(label(&diags[i]));
        i += 1;
    }
    assert(text::texts(out@) =~= Seq::new(diags@.len(), |i: int| label_of(diags@[i]@)));
    out
}

/// What came of choosing an advisory in the review.
#[derive(Debug, PartialEq, Eq)]
pub enum Reviewed {
    /// Its fix was applied.
    Fixed,
    /// Its fix changes nothing: show this under "Cannot apply".
    Stuck(String),
    /// It has no fix: show this text under that title.
    Shown(&'static str, String),
}

/// Chooses an advisory in the review: applies its fix, or gives what to show.
pub fn review(u: &mut Unit, d: &Diagnostic) -> (r: Reviewed)
    ensures
        final(u)@ == (match d@.fix {
            Some(fix) => match fixed_of(old(u)@, fix) {
                Some(n) => n,
                None => old(u)@,
            },
            None => old(u)@,
        }),
        match d@.fix {
            Some(fix) => if fixed_of(old(u)@, fix) is Some {
                r is Fixed
            } else {
                r matches Reviewed::Stuck(s) && s@ == d@.level.name() + ": "@ + d@.message
            },
            None => r matches Reviewed::Shown(t, s) && t@ == d@.level.name() && s@
                == parts::join_of(wrap::wrapped_of(d@.message, 66), "\n"@),
        },
{
    match validate::autofix(d) {
        Some(fix) => match apply_fix(u, &fix) {
            Some(_) => Reviewed::Fixed,
            None => Reviewed::Stuck(d.to_string()),
        },
        None => {
            let lines = wrap::wrap_lines(d.message.as_str(), 66);
            Reviewed::Shown(d.level.as_str(), parts::join(&lines, "\n"))
        },
    }
}

// ---------------------------------------------------------------------------
// The status line
// ---------------------------------------------------------------------------

/// How many of the advisories are errors.
pub open spec fn error_count(diags: Seq<DiagnosticView>) -> nat
    decreases diags.len(),
{
    if diags.len() == 0 {
        0
    } else {
        error_count(diags.drop_last()) + (if diags.last().level == Level::Error {
            1nat
        } else {
            0nat
        })
    }
}

fn errors_in(diags: &[Diagnostic]) -> (r: usize)
    ensures
        r == error_count(validate::diagnostic_views(diags@)),
        r <= diags@.len(),
{
    let ghost all = validate::diagnostic_views(diags@);
    let mut n: usize = 0;
    let mut i: usize = 0;
    assert(all.take(0) =~= seq![]);
    while i < diags.len()
        invariant
            n <= i <= diags@.len(),
            all == validate::diagnostic_views(diags@),
            n == error_count(all.take(i as int)),
        decreases diags@.len() - i,
    {
        assert(all.take(i + 1).drop_last() =~= all.take(i as int));
        assert(all.take(i + 1).last() == diags@[i as int]@);
        if diags[i].level == Level::Error {
            n += 1;
        }
        i += 1;
    }
    assert(all.take(diags@.len() as int) =~= all);
    n
}

/// How many errors and warnings there are, in words.
pub open spec fn tally_of(errors: nat, warnings: nat) -> Seq<char> {
    if errors > 0 && warnings > 0 {
        number::decimal(errors) + " error(s)"@ + ", "@ + number::decimal(warnings) + " warning(s)"@
    } else if errors > 0 {
        number::decimal(errors) + " error(s)"@
    } else {
        number::decimal(warnings) + " warning(s)"@
    }
}

/// The line under the form: what stops the unit from being installed, then
/// the focused row's suggested fix, then advisories, then when the timer next
/// fires.
pub open spec fn status_of(u: UnitView, d: DerivedView, id: Id) -> Seq<char> {
    if u.error_of() is Some {
        "! "@ + u.error_of().unwrap()
    } else if row_fix(d.diags, id) is Some {
        row_fix(d.diags, id).unwrap().0.level.name() + ": "@ + row_fix(
            d.diags,
            id,
        ).unwrap().1.label_of() + " -- f applies it"@
    } else if d.diags.len() > 0 {
        tally_of(error_count(d.diags), (d.diags.len() - error_count(d.diags)) as nat)
            + " from the advisory checks -- c reviews them"@
    } else {
        match d.runs {
            RunsView::Times(v) => if v.len() == 0 {
                "ready to install"@
            } else if v[0].from_now.len() == 0 {
                "ready to install   next: "@ + v[0].local
            } else {
                "ready to install   next: "@ + v[0].local + " ("@ + v[0].from_now + ")"@
            },
            RunsView::Invalid(m) => "! "@ + (if parts::lines_of(m).len() > 0 {
                parts::lines_of(m)[0]
            } else {
                "invalid calendar spec"@
            }),
            RunsView::Unavailable =>
                "ready to install (systemd-analyze missing: schedules unchecked)"@,
            RunsView::NotCalendar(_) => "ready to install"@,
        }
    }
}

fn tally(errors: usize, warnings: usize) -> (r: String)
    ensures
        r@ == tally_of(errors as nat, warnings as nat),
{
    let e = number::usize_decimal(errors);
    let w = number::usize_decimal(warnings);
    if errors > 0 && warnings > 0 {
        text::cat5(e.as_str(), " error(s)", ", ", w.as_str(), " warning(s)")
    } else if errors > 0 {
        text::cat2(e.as_str(), " error(s)")
    } else {
        text::cat2(w.as_str(), " warning(s)")
    }
}

/// The line under the form.
pub fn status_line(u: &Unit, d: &Derived, id: Id) -> (r: String)
    ensures
        r@ == status_of(u@, d@, id),
{
    match u.validate() {
        Err(e) => {
            return text::cat2("! ", e.as_str());
        },
        Ok(_) => {},
    }
    if let Some((x, fix)) = fix_for_row(d, id) {
        let l = fix.label();
        let head = text::cat3(x.level.as_str(), ": ", l.as_str());
        return text::cat2(head.as_str(), " -- f applies it");
    }
    assert(d@.diags.len() == d.diags@.len());
    if d.diags.len() > 0 {
        let errors = errors_in(&d.diags);
        let t = tally(errors, d.diags.len() - errors);
        return text::cat2(t.as_str(), " from the advisory checks -- c reviews them");
    }
    match &d.runs {
        Runs::Times(v) => {
            if v.len() == 0 {
                return "ready to install".to_owned();
            }
            let next = &v[0];
            assert(d@.runs->Times_0[0] == next@);
            if next.from_now.as_str().unicode_len() == 0 {
                text::cat2("ready to install   next: ", next.local.as_str())
            } else {
                text::cat5(
                    "ready to install   next: ",
                    next.local.as_str(),
                    " (",
                    next.from_now.as_str(),
                    ")",
                )
            }
        },
        Runs::Invalid(m) => {
            let lines = parts::lines(m.as_str());
            let ghost all = text::texts(lines@);
            if lines.len() > 0 {
                assert(all[0] == lines@[0]@);
                text::cat2("! ", lines[0].as_str())
            } else {
                assert(all.len() == 0);
                text::cat2("! ", "invalid calendar spec")
            }
        },
        Runs::Unavailable =>
            "ready to install (systemd-analyze missing: schedules unchecked)".to_owned(),
        Runs::NotCalendar(_) => "ready to install".to_owned(),
    }
}

/// What stops the unit from being installed outranks every advisory.
pub proof fn law_what_is_missing_comes_first(u: UnitView, d: DerivedView, id: Id)
    requires
        u.error_of() is Some,
    ensures
        status_of(u, d, id) == "! "@ + u.error_of().unwrap(),
{
}

} // verus!
