//! Exporting a unit's files somewhere other than the unit directory: to a
//! directory of your choosing, or to stdout for pasting into a ticket or gist.
//!
//! Rendering is not done again here -- every path goes through
//! [`crate::unit::generate::render`], so an exported file is byte-for-byte
//! what an installation would have written. For entries that could not be
//! modelled, [`export_files`] and [`to_text`] take the raw file list directly.

use crate::parts;
use crate::paths;
use crate::text;
use crate::unit::generate;
use crate::unit::generate::{FileView, RenderedFile};
use crate::unit::model::Unit;
use vstd::prelude::*;

verus! {

broadcast use vstd::string::group_string_axioms;

/// What an export writes.
#[derive(Debug, PartialEq, Eq)]
pub struct ExportReport {
    /// Files written, in render order (primary unit first).
    pub written: Vec<String>,
    /// Files that already existed and are replaced because overwriting was
    /// asked for. A subset of `written`.
    pub replaced: Vec<String>,
    pub dir: String,
}

/// Why an export could not proceed.
#[derive(Debug, PartialEq, Eq)]
pub enum ExportError {
    /// The unit itself is not renderable; the message comes from
    /// [`Unit::validate`].
    Invalid(String),
    /// One or more destination files exist. Retry with overwriting once the
    /// user has confirmed; nothing was written.
    Exists(Vec<String>),
    /// Destination missing and uncreatable, not writable, disk full, and so
    /// on. Already phrased for the user.
    Io(String),
}

impl ExportError {
    pub fn to_string(&self) -> (r: String)
        ensures
            r@ == match *self {
                ExportError::Invalid(m) => "cannot export: "@ + m@,
                ExportError::Exists(p) => "already exists: "@ + parts::join_of(
                    text::texts(p@),
                    ", "@,
                ),
                ExportError::Io(m) => m@,
            },
    {
        match self {
            ExportError::Invalid(m) => text::cat2("cannot export: ", m.as_str()),
            ExportError::Exists(p) => {
                let names = parts::join(p, ", ");
                text::cat2("already exists: ", names.as_str())
            },
            ExportError::Io(m) => m.clone(),
        }
    }
}

/// The files a unit would export as. Validates first, so a half-built unit
/// fails here rather than producing nonsense files.
pub fn files(u: &Unit) -> (r: Result<Vec<RenderedFile>, ExportError>)
    ensures
        match r {
            Ok(f) => u@.error_of() is None && generate::file_views(f@) == generate::render_of(u@),
            Err(ExportError::Invalid(m)) => u@.error_of() == Some(m@),
            Err(_) => false,
        },
{
    match u.validate() {
        Ok(_) => Ok(generate::render(u)),
        Err(m) => Err(ExportError::Invalid(m)),
    }
}

/// The paths of some files under a directory.
pub open spec fn targets_of(files: Seq<FileView>, dir: Seq<char>) -> Seq<Seq<char>> {
    Seq::new(files.len(), |i: int| paths::join_of(dir, files[i].name))
}

/// Those of some paths that are among `taken`.
pub open spec fn taken_of(targets: Seq<Seq<char>>, taken: Seq<Seq<char>>) -> Seq<Seq<char>>
    decreases targets.len(),
{
    if targets.len() == 0 {
        seq![]
    } else if taken.contains(targets.last()) {
        taken_of(targets.drop_last(), taken).push(targets.last())
    } else {
        taken_of(targets.drop_last(), taken)
    }
}

fn is_taken(path: &str, taken: &[String]) -> (r: bool)
    ensures
        r == text::texts(taken@).contains(path@),
{
    let ghost all = text::texts(taken@);
    let mut i: usize = 0;
    while i < taken.len()
        invariant
            i <= taken@.len(),
            all == text::texts(taken@),
            forall|k: int| 0 <= k < i ==> #[trigger] all[k] != path@,
        decreases taken@.len() - i,
    {
        assert(all[i as int] == taken@[i as int]@);
        if text::same(taken[i].as_str(), path) {
            return true;
        }
        i += 1;
    }
    false
}

/// What an export of some files into `dir` comes to, where `taken` are the
/// paths that exist already.
pub open spec fn is_export(
    r: Result<ExportReport, ExportError>,
    files: Seq<FileView>,
    dir: Seq<char>,
    overwrite: bool,
    taken: Seq<Seq<char>>,
) -> bool {
    let targets = targets_of(files, dir);
    let existing = taken_of(targets, taken);
    if files.len() == 0 {
        &&& r matches Err(ExportError::Invalid(m))
        &&& m@ == "the unit has no files"@
    } else if existing.len() > 0 && !overwrite {
        &&& r matches Err(ExportError::Exists(p))
        &&& text::texts(p@) == existing
    } else {
        &&& r matches Ok(report)
        &&& text::texts(report.written@) == targets
        &&& text::texts(report.replaced@) == existing
        &&& report.dir@ == dir
    }
}

/// Which files an export writes into `dir`, each under its real unit
/// filename, or why it writes none. `taken` are the paths that exist already.
///
/// An existing destination file is an [`ExportError::Exists`] unless
/// `overwrite` is set -- nothing is clobbered silently, and the decision
/// covers all files before any is written, so a refused export leaves the
/// destination untouched.
pub fn export_files(rendered: &[RenderedFile], dir: &str, overwrite: bool, taken: &[String]) -> (r:
    Result<ExportReport, ExportError>)
    ensures
        is_export(r, generate::file_views(rendered@), dir@, overwrite, text::texts(taken@)),
{
    if rendered.len() == 0 {
        return Err(ExportError::Invalid("the unit has no files".to_owned()));
    }
    let ghost files = generate::file_views(rendered@);
    let ghost targets = targets_of(files, dir@);
    let mut written: Vec<String> = Vec::new();
    let mut replaced: Vec<String> = Vec::new();
    let mut i: usize = 0;
    assert(targets.take(0) =~= seq![]);
    assert(text::texts(written@) =~= targets.take(0));
    assert(text::texts(replaced@) =~= seq![]);
    while i < rendered.len()
        invariant
            i <= rendered@.len(),
            files == generate::file_views(rendered@),
            targets == targets_of(files, dir@),
            text::texts(written@) == targets.take(i as int),
            text::texts(replaced@) == taken_of(targets.take(i as int), text::texts(taken@)),
        decreases rendered@.len() - i,
    {
        let path = paths::join(dir, rendered[i].name.as_str());
        proof {
            assert(files[i as int] == rendered@[i as int]@);
            assert(path@ == targets[i as int]);
            assert(targets.take(i + 1).drop_last() =~= targets.take(i as int));
        }
        if is_taken(path.as_str(), taken) {
            let ghost before = text::texts(replaced@);
            replaced.push(path.clone());
            assert(text::texts(replaced@) =~= before.push(path@));
        }
        let ghost before = text::texts(written@);
        written.push(path);
        assert(text::texts(written@) =~= before.push(path@));
        assert(before.push(path@) =~= targets.take(i + 1));
        i += 1;
    }
    assert(targets.take(rendered@.len() as int) =~= targets);
    if replaced.len() > 0 && !overwrite {
        return Err(ExportError::Exists(replaced));
    }
    Ok(ExportReport { written, replaced, dir: dir.to_owned() })
}

/// [`export_files`] for a unit, validating it first.
pub fn export(u: &Unit, dir: &str, overwrite: bool, taken: &[String]) -> (r: Result<
    ExportReport,
    ExportError,
>)
    ensures
        match u@.error_of() {
            Some(m) => r matches Err(ExportError::Invalid(e)) && e@ == m,
            None => is_export(r, generate::render_of(u@), dir@, overwrite, text::texts(taken@)),
        },
{
    match files(u) {
        Ok(f) => export_files(&f, dir, overwrite, taken),
        Err(e) => Err(e),
    }
}

// ---------------------------------------------------------------------------
// The pasteable form
// ---------------------------------------------------------------------------

/// The line above a file.
pub open spec fn separator_of(name: Seq<char>) -> Seq<char> {
    "# ---- "@ + name + " ----\n"@
}

/// Every file below its separator, with an empty line between files.
pub open spec fn text_of(files: Seq<FileView>) -> Seq<char>
    decreases files.len(),
{
    if files.len() == 0 {
        seq![]
    } else {
        let before = text_of(files.drop_last());
        let gap: Seq<char> = if before.len() > 0 && !"\n\n"@.is_suffix_of(before) {
            "\n"@
        } else {
            seq![]
        };
        before + gap + separator_of(files.last().name) + files.last().body
    }
}

/// Every file concatenated with `# ---- <filename> ----` separators, ready to
/// paste into a ticket or a gist.
pub fn to_text(rendered: &[RenderedFile]) -> (r: String)
    ensures
        r@ == text_of(generate::file_views(rendered@)),
{
    let ghost files = generate::file_views(rendered@);
    let mut out = String::new();
    let mut i: usize = 0;
    assert(files.take(0) =~= seq![]);
    while i < rendered.len()
        invariant
            i <= rendered@.len(),
            files == generate::file_views(rendered@),
            out@ == text_of(files.take(i as int)),
        decreases rendered@.len() - i,
    {
        proof {
            assert(files.take(i + 1).drop_last() =~= files.take(i as int));
            assert(files.take(i + 1).last() == rendered@[i as int]@);
        }
        let ghost before = out@;
        assert(before + seq![] =~= before);
        if !out.as_str().is_empty() && !text::ends_with(out.as_str(), "\n\n") {
            out.push_str("\n");
        }
        let sep = text::cat3("# ---- ", rendered[i].name.as_str(), " ----\n");
        out.push_str(sep.as_str());
        out.push_str(rendered[i].body.as_str());
        i += 1;
    }
    assert(files.take(rendered@.len() as int) =~= files);
    out
}

/// [`to_text`] for a unit, validating it first.
pub fn text(u: &Unit) -> (r: Result<String, ExportError>)
    ensures
        match r {
            Ok(s) => u@.error_of() is None && s@ == text_of(generate::render_of(u@)),
            Err(ExportError::Invalid(m)) => u@.error_of() == Some(m@),
            Err(_) => false,
        },
{
    match files(u) {
        Ok(f) => Ok(to_text(&f)),
        Err(e) => Err(e),
    }
}

/// Every byte of every file survives the concatenation, below the file's
/// separator.
pub proof fn law_text_holds_every_file(files: Seq<FileView>, i: int)
    requires
        0 <= i < files.len(),
    ensures
        text::occurs(text_of(files), separator_of(files[i].name) + files[i].body),
    decreases files.len(),
{
    let rest = files.drop_last();
    let all = text_of(files);
    let p = separator_of(files[i].name) + files[i].body;
    if i == files.len() - 1 {
        let at = all.len() - p.len();
        assert(all.subrange(at, all.len() as int) =~= p);
        assert(text::matches_at(all, p, at));
    } else {
        assert(rest[i] == files[i]);
        law_text_holds_every_file(rest, i);
        let t = text_of(rest);
        let k = choose|k: int| #[trigger] text::matches_at(t, p, k);
        assert(all.subrange(k, k + p.len()) =~= t.subrange(k, k + p.len()));
        assert(text::matches_at(all, p, k));
    }
}

/// Why the file system refused, as far as it makes a difference.
#[derive(Debug, Clone, Copy, PartialEq, Eq, Structural)]
pub enum IoKind {
    PermissionDenied,
    NotFound,
    Other,
}

/// Turn an I/O error into something worth showing a user.
pub fn explain(path: &str, error: &str, kind: IoKind, verb: &str) -> (r: String)
    ensures
        r@ == verb@ + " "@ + path@ + ": "@ + error@ + match kind {
            IoKind::PermissionDenied => " (no write permission)"@,
            IoKind::NotFound => " (parent directory does not exist)"@,
            IoKind::Other => ""@,
        },
{
    let hint = match kind {
        IoKind::PermissionDenied => " (no write permission)",
        IoKind::NotFound => " (parent directory does not exist)",
        IoKind::Other => "",
    };
    let head = text::cat5(verb, " ", path, ": ", error);
    text::cat2(head.as_str(), hint)
}

proof fn lemma_taken_of(targets: Seq<Seq<char>>, taken: Seq<Seq<char>>, path: Seq<char>)
    ensures
        taken_of(targets, taken).contains(path) == (targets.contains(path) && taken.contains(path)),
    decreases targets.len(),
{
    let all = taken_of(targets, taken);
    if targets.len() > 0 {
        let less = targets.drop_last();
        let rest = taken_of(less, taken);
        lemma_taken_of(less, taken, path);
        if targets.contains(path) {
            let k = choose|k: int| 0 <= k < targets.len() && targets[k] == path;
            if k < less.len() {
                assert(less[k] == path);
            }
        }
        if less.contains(path) {
            let k = choose|k: int| 0 <= k < less.len() && less[k] == path;
            assert(targets[k] == path);
        }
        if all.contains(path) {
            let k = choose|k: int| 0 <= k < all.len() && all[k] == path;
            if k < rest.len() {
                assert(rest[k] == path);
            } else {
                assert(targets[targets.len() - 1] == path);
            }
        }
        if rest.contains(path) {
            let k = choose|k: int| 0 <= k < rest.len() && rest[k] == path;
            assert(all[k] == path);
        }
        if targets.last() == path && taken.contains(path) {
            assert(all[rest.len() as int] == path);
        }
    }
}

/// Nothing is replaced unasked: a file that exists already is named, and no
/// file is written.
pub proof fn law_nothing_is_replaced_unasked(
    r: Result<ExportReport, ExportError>,
    files: Seq<FileView>,
    dir: Seq<char>,
    taken: Seq<Seq<char>>,
    i: int,
)
    requires
        is_export(r, files, dir, false, taken),
        0 <= i < files.len(),
        taken.contains(paths::join_of(dir, files[i].name)),
    ensures
        r matches Err(ExportError::Exists(p)) && text::texts(p@).contains(
            paths::join_of(dir, files[i].name),
        ),
{
    let path = paths::join_of(dir, files[i].name);
    let targets = targets_of(files, dir);
    assert(targets[i] == path);
    lemma_taken_of(targets, taken, path);
    let all = taken_of(targets, taken);
    let k = choose|k: int| 0 <= k < all.len() && all[k] == path;
    assert(all.len() > 0);
}

/// What is replaced on request is what was there and is written again.
pub proof fn law_replaced_files_were_there(
    report: ExportReport,
    files: Seq<FileView>,
    dir: Seq<char>,
    overwrite: bool,
    taken: Seq<Seq<char>>,
    path: Seq<char>,
)
    requires
        is_export(Ok(report), files, dir, overwrite, taken),
    ensures
        text::texts(report.replaced@).contains(path) == (text::texts(report.written@).contains(path)
            && taken.contains(path)),
        text::texts(report.replaced@).len() > 0 ==> overwrite,
        text::texts(report.written@).len() == files.len(),
{
    lemma_taken_of(targets_of(files, dir), taken, path);
}

} // verus!
