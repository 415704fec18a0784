//! Undo for `remove`: instead of deleting a unit's files, stash them in a
//! trash directory together with a small metadata record, and put them back
//! on request.
//!
//! The trash is a plain directory of entries:
//!
//! ```text
//! <root>/20260815T113000Z-notcron-backup/
//!     meta                     <- the record described in [`TrashEntry`]
//!     notcron-backup.timer     <- the stashed files, under their real names
//!     notcron-backup.service
//! ```
//!
//! The record is plain `key=value` text: five scalar fields plus a repeated
//! `file=` line. See [`TrashEntry::encode`].

use crate::civil;
use crate::number;
use crate::parts;
use crate::paths;
use crate::text;
use crate::unit::model::Scope;
use vstd::prelude::*;

verus! {

broadcast use vstd::string::group_string_axioms;

/// First line of every metadata record, so a future format change can be
/// detected instead of mis-parsed.
pub const META_MAGIC: &'static str = "notcron-trash 1";

/// The name of the record inside an entry directory.
pub const META_NAME: &'static str = "meta";

// ---------------------------------------------------------------------------
// Locations
// ---------------------------------------------------------------------------

/// The directory that user data goes to, by the environment.
pub open spec fn data_home_of(xdg: Option<Seq<char>>, home: Option<Seq<char>>) -> Seq<char> {
    if xdg is Some && xdg->0.len() > 0 && xdg->0[0] == '/' {
        xdg->0
    } else {
        paths::join_of(
            match home {
                Some(h) => h,
                None => "."@,
            },
            ".local/share"@,
        )
    }
}

/// Where the trash for a scope lives.
pub open spec fn trash_dir_of(
    scope: Scope,
    xdg: Option<Seq<char>>,
    home: Option<Seq<char>>,
) -> Seq<char> {
    match scope {
        Scope::System => "/var/lib/notcron/trash"@,
        Scope::User => paths::join_of(data_home_of(xdg, home), "notcron/trash"@),
    }
}

/// Where the trash for a scope lives.
///
/// * user scope: `$XDG_DATA_HOME/notcron/trash`, falling back to
///   `~/.local/share/notcron/trash`. `XDG_DATA_HOME` is honoured only when it
///   is set, non-empty and absolute, as the XDG spec requires.
/// * system scope: `/var/lib/notcron/trash`.
pub fn trash_dir(scope: Scope, xdg: &Option<String>, home: &Option<String>) -> (r: String)
    ensures
        r@ == trash_dir_of(scope, text::opt_text(*xdg), text::opt_text(*home)),
{
    match scope {
        Scope::System => "/var/lib/notcron/trash".to_owned(),
        Scope::User => {
            let mut base = match home {
                Some(h) => paths::join(h.as_str(), ".local/share"),
                None => paths::join(".", ".local/share"),
            };
            if let Some(x) = xdg {
                if x.as_str().unicode_len() > 0 && x.as_str().get_char(0) == '/' {
                    base = x.clone();
                }
            }
            paths::join(base.as_str(), "notcron/trash")
        },
    }
}

// ---------------------------------------------------------------------------
// Escaping
// ---------------------------------------------------------------------------

/// A character as it stands in a record.
pub open spec fn esc_char(c: char) -> Seq<char> {
    if c == '\\' {
        seq!['\\', '\\']
    } else if c == '\n' {
        seq!['\\', 'n']
    } else if c == '\t' {
        seq!['\\', 't']
    } else {
        seq![c]
    }
}

/// A text as it stands in a record.
pub open spec fn esc_of(s: Seq<char>) -> Seq<char>
    decreases s.len(),
{
    if s.len() == 0 {
        seq![]
    } else {
        esc_char(s[0]) + esc_of(s.skip(1))
    }
}

/// The text that an escaped text stands for. A backslash before any other
/// character, or at the end, stands for itself.
pub open spec fn unesc_of(s: Seq<char>) -> Seq<char>
    decreases s.len(),
{
    if s.len() == 0 {
        seq![]
    } else if s[0] != '\\' || s.len() == 1 {
        seq![s[0]] + unesc_of(s.skip(1))
    } else if s[1] == 'n' {
        seq!['\n'] + unesc_of(s.skip(2))
    } else if s[1] == 't' {
        seq!['\t'] + unesc_of(s.skip(2))
    } else if s[1] == '\\' {
        seq!['\\'] + unesc_of(s.skip(2))
    } else {
        seq!['\\', s[1]] + unesc_of(s.skip(2))
    }
}

/// Escape the characters that would break the one-record-per-line format.
pub fn esc(s: &str) -> (r: String)
    ensures
        r@ == esc_of(s@),
{
    let v = text::chars_of(s);
    let mut out = String::new();
    let mut i: usize = 0;
    assert(s@.skip(0) =~= s@);
    assert(out@ + esc_of(s@) =~= esc_of(s@));
    while i < v.len()
        invariant
            v@ == s@,
            i <= v@.len(),
            out@ + esc_of(s@.skip(i as int)) == esc_of(s@),
        decreases v@.len() - i,
    {
        let ghost before = out@;
        let ghost rest = s@.skip(i as int);
        let c = v[i];
        if c == '\\' {
            out.push('\\');
            out.push('\\');
        } else if c == '\n' {
            out.push('\\');
            out.push('n');
        } else if c == '\t' {
            out.push('\\');
            out.push('t');
        } else {
            out.push(c);
        }
        proof {
            assert(out@ =~= before + esc_char(c));
            assert(rest.skip(1) =~= s@.skip(i + 1));
            assert(before + (esc_char(c) + esc_of(rest.skip(1))) =~= out@ + esc_of(s@.skip(i + 1)));
        }
        i += 1;
    }
    assert(out@ + esc_of(s@.skip(i as int)) =~= out@);
    out
}

/// Read an escaped text back.
pub fn unesc(s: &str) -> (r: String)
    ensures
        r@ == unesc_of(s@),
{
    let v = text::chars_of(s);
    let n: usize = v.len();
    let mut out = String::new();
    let mut i: usize = 0;
    assert(s@.skip(0) =~= s@);
    assert(out@ + unesc_of(s@) =~= unesc_of(s@));
    while i < n
        invariant
            v@ == s@,
            n == v@.len(),
            i <= n,
            out@ + unesc_of(s@.skip(i as int)) == unesc_of(s@),
        decreases n - i,
    {
        let ghost before = out@;
        let ghost rest = s@.skip(i as int);
        if v[i] != '\\' || n - i == 1 {
            out.push(v[i]);
            proof {
                assert(rest.skip(1) =~= s@.skip(i + 1));
                assert(before + (seq![rest[0]] + unesc_of(rest.skip(1))) =~= out@ + unesc_of(
                    s@.skip(i + 1),
                ));
            }
            i += 1;
        } else {
            let c = v[i + 1];
            if c == 'n' {
                out.push('\n');
            } else if c == 't' {
                out.push('\t');
            } else if c == '\\' {
                out.push('\\');
            } else {
                out.push('\\');
                out.push(c);
            }
            proof {
                assert(rest[1] == c);
                assert(rest.skip(2) =~= s@.skip(i + 2));
                let h = if c == 'n' {
                    seq!['\n']
                } else if c == 't' {
                    seq!['\t']
                } else if c == '\\' {
                    seq!['\\']
                } else {
                    seq!['\\', c]
                };
                assert(out@ =~= before + h);
                assert(before + (h + unesc_of(rest.skip(2))) =~= out@ + unesc_of(s@.skip(i + 2)));
            }
            i += 2;
        }
    }
    assert(out@ + unesc_of(s@.skip(i as int)) =~= out@);
    out
}

/// Reading back what was escaped gives the text.
pub proof fn law_unesc_esc(s: Seq<char>)
    ensures
        unesc_of(esc_of(s)) == s,
        !esc_of(s).contains('\n'),
        !esc_of(s).contains('\t'),
    decreases s.len(),
{
    let e = esc_of(s);
    if s.len() == 0 {
        assert(unesc_of(e) =~= s);
    } else {
        let t = esc_of(s.skip(1));
        let h = esc_char(s[0]);
        law_unesc_esc(s.skip(1));
        assert(e.skip(h.len() as int) =~= t);
        assert(e[0] == h[0]);
        if h.len() == 2 {
            assert(e[1] == h[1]);
            assert(unesc_of(e) =~= seq![s[0]] + unesc_of(t));
        } else {
            assert(unesc_of(e) =~= seq![s[0]] + unesc_of(t));
        }
        assert(seq![s[0]] + s.skip(1) =~= s);
        assert forall|i: int| 0 <= i < e.len() implies #[trigger] e[i] != '\n' && e[i] != '\t' by {
            if i < h.len() {
                assert(e[i] == h[i]);
            } else {
                assert(e[i] == t[i - h.len()]);
                assert(t.contains(e[i]));
            }
        }
    }
}

// ---------------------------------------------------------------------------
// Records
// ---------------------------------------------------------------------------

/// One stashed file: the name it has inside the entry directory, and the
/// absolute path it came from (and will go back to).
#[derive(Debug, PartialEq, Eq)]
pub struct TrashedFile {
    /// File name inside the entry directory.
    pub stored: String,
    /// Absolute path the file was removed from.
    pub original: String,
}

/// The contents of a [`TrashedFile`].
#[verifier::ext_equal]
pub struct FileView {
    pub stored: Seq<char>,
    pub original: Seq<char>,
}

impl View for TrashedFile {
    type V = FileView;

    open spec fn view(&self) -> FileView {
        FileView { stored: self.stored@, original: self.original@ }
    }
}

/// The contents of a list of stashed files.
pub open spec fn file_views(v: Seq<TrashedFile>) -> Seq<FileView> {
    Seq::new(v.len(), |i: int| v[i]@)
}

/// A trash entry: everything needed to list it in a table and to restore it.
#[derive(Debug, PartialEq, Eq)]
pub struct TrashEntry {
    /// Directory name under the trash root, and the handle that restoring and
    /// discarding go by. Sorts chronologically.
    pub id: String,
    /// The primary unit name at removal time, e.g. `notcron-backup.timer`.
    pub unit: String,
    pub scope: Scope,
    /// Removal time, seconds since the Unix epoch.
    pub removed_at: u64,
    /// Whether the unit was enabled when it was removed, so restore can offer
    /// to re-enable it.
    pub was_enabled: bool,
    /// Whether the unit was active when it was removed.
    pub was_active: bool,
    pub files: Vec<TrashedFile>,
}

/// The contents of a [`TrashEntry`].
#[verifier::ext_equal]
pub struct EntryView {
    pub id: Seq<char>,
    pub unit: Seq<char>,
    pub scope: Scope,
    pub removed_at: u64,
    pub was_enabled: bool,
    pub was_active: bool,
    pub files: Seq<FileView>,
}

impl View for TrashEntry {
    type V = EntryView;

    open spec fn view(&self) -> EntryView {
        EntryView {
            id: self.id@,
            unit: self.unit@,
            scope: self.scope,
            removed_at: self.removed_at,
            was_enabled: self.was_enabled,
            was_active: self.was_active,
            files: file_views(self.files@),
        }
    }
}

/// The contents of a list of entries.
pub open spec fn entry_views(v: Seq<TrashEntry>) -> Seq<EntryView> {
    Seq::new(v.len(), |i: int| v[i]@)
}

impl Clone for TrashedFile {
    fn clone(&self) -> (r: TrashedFile)
        ensures
            r@ == self@,
    {
        TrashedFile { stored: self.stored.clone(), original: self.original.clone() }
    }
}

impl Clone for TrashEntry {
    fn clone(&self) -> (r: TrashEntry)
        ensures
            r@ == self@,
    {
        let mut files: Vec<TrashedFile> = Vec::new();
        let mut i: usize = 0;
        while i < self.files.len()
            invariant
                i <= self.files@.len(),
                files@.len() == i,
                forall|k: int| 0 <= k < i ==> (#[trigger] files@[k])@ == self.files@[k]@,
            decreases self.files@.len() - i,
        {
            files.push(self.files[i].clone());
            i += 1;
        }
        assert(file_views(files@) =~= file_views(self.files@));
        TrashEntry {
            id: self.id.clone(),
            unit: self.unit.clone(),
            scope: self.scope,
            removed_at: self.removed_at,
            was_enabled: self.was_enabled,
            was_active: self.was_active,
            files,
        }
    }
}

/// `true` or `false`.
pub open spec fn bool_text(b: bool) -> Seq<char> {
    if b {
        "true"@
    } else {
        "false"@
    }
}

fn bool_str(b: bool) -> (r: &'static str)
    ensures
        r@ == bool_text(b),
{
    if b {
        "true"
    } else {
        "false"
    }
}

/// The line of a stashed file.
pub open spec fn file_line(f: FileView) -> Seq<char> {
    "file="@ + esc_of(f.stored) + "\t"@ + esc_of(f.original)
}

/// The lines of an entry's record.
pub open spec fn record_lines(e: EntryView) -> Seq<Seq<char>> {
    seq![
        META_MAGIC@,
        "unit="@ + esc_of(e.unit),
        "scope="@ + e.scope.name(),
        "removed_at="@ + number::decimal(e.removed_at as nat),
        "enabled="@ + bool_text(e.was_enabled),
        "active="@ + bool_text(e.was_active),
    ] + Seq::new(e.files.len(), |i: int| file_line(e.files[i]))
}

/// A line without the carriage returns at its end.
pub open spec fn strip_crs(s: Seq<char>) -> Seq<char>
    decreases s.len(),
{
    if s.len() > 0 && s.last() == '\r' {
        strip_crs(s.drop_last())
    } else {
        s
    }
}

/// What is known of an entry after one more line of its record.
pub open spec fn after_line(e: EntryView, raw: Seq<char>) -> Result<EntryView, Seq<char>> {
    let line = strip_crs(raw);
    if text::is_blank(line) {
        Ok(e)
    } else {
        match parts::split_once_of(line, '=') {
            None => Ok(e),
            Some((k, v)) => if k == "unit"@ {
                Ok(EntryView { unit: unesc_of(v), ..e })
            } else if k == "scope"@ {
                if v == "system"@ {
                    Ok(EntryView { scope: Scope::System, ..e })
                } else if v == "user"@ {
                    Ok(EntryView { scope: Scope::User, ..e })
                } else {
                    Err("unknown scope '"@ + v + "' in trash record"@)
                }
            } else if k == "removed_at"@ {
                match number::parse_number(text::trim_of(v), u64::MAX as nat) {
                    Some(n) => Ok(EntryView { removed_at: n as u64, ..e }),
                    None => Err("bad removal timestamp '"@ + v + "'"@),
                }
            } else if k == "enabled"@ {
                Ok(EntryView { was_enabled: text::trim_of(v) == "true"@, ..e })
            } else if k == "active"@ {
                Ok(EntryView { was_active: text::trim_of(v) == "true"@, ..e })
            } else if k == "file"@ {
                match parts::split_once_of(v, '\t') {
                    Some((s, o)) => Ok(
                        EntryView {
                            files: e.files.push(
                                FileView { stored: unesc_of(s), original: unesc_of(o) },
                            ),
                            ..e
                        },
                    ),
                    None => Err("bad file record '"@ + v + "'"@),
                }
            } else {
                Ok(e)
            },
        }
    }
}

/// What is known of an entry after some lines of its record.
pub open spec fn after_lines(e: EntryView, lines: Seq<Seq<char>>) -> Result<EntryView, Seq<char>>
    decreases lines.len(),
{
    if lines.len() == 0 {
        Ok(e)
    } else {
        match after_line(e, lines[0]) {
            Ok(f) => after_lines(f, lines.skip(1)),
            Err(m) => Err(m),
        }
    }
}

/// An entry of which nothing but the id is known.
pub open spec fn bare_entry(id: Seq<char>) -> EntryView {
    EntryView {
        id,
        unit: seq![],
        scope: Scope::User,
        removed_at: 0,
        was_enabled: false,
        was_active: false,
        files: seq![],
    }
}

/// The entry that a record describes, or why it describes none.
pub open spec fn decode_of(id: Seq<char>, record: Seq<char>) -> Result<EntryView, Seq<char>> {
    let lines = parts::lines_of(record);
    if lines.len() == 0 {
        Err("empty trash record"@)
    } else if text::trim_of(lines[0]) != META_MAGIC@ {
        Err("unrecognised trash record header '"@ + lines[0] + "'"@)
    } else {
        match after_lines(bare_entry(id), lines.skip(1)) {
            Err(m) => Err(m),
            Ok(e) => if e.unit.len() == 0 {
                Err("trash record has no unit name"@)
            } else if e.files.len() == 0 {
                Err("trash record lists no files"@)
            } else {
                Ok(e)
            },
        }
    }
}

/// A line without the carriage returns at its end.
fn strip_cr_end(s: &str) -> (r: &str)
    ensures
        r@ == strip_crs(s@),
{
    let v = text::chars_of(s);
    let mut j: usize = v.len();
    assert(s@.take(j as int) =~= s@);
    while j > 0 && v[j - 1] == '\r'
        invariant
            v@ == s@,
            j <= v@.len(),
            strip_crs(s@) == strip_crs(s@.take(j as int)),
        decreases j,
    {
        assert(s@.take(j as int).drop_last() =~= s@.take(j - 1));
        j -= 1;
    }
    assert(s@.take(j as int) =~= s@.subrange(0, j as int));
    s.substring_char(0, j)
}

/// Read one line of a record.
fn read_line(e: &mut TrashEntry, raw: &str) -> (r: Result<(), String>)
    ensures
        match r {
            Ok(_) => after_line(old(e)@, raw@) == Ok::<EntryView, Seq<char>>(final(e)@),
            Err(m) => after_line(old(e)@, raw@) == Err::<EntryView, Seq<char>>(m@),
        },
{
    let line = strip_cr_end(raw);
    if text::blank(line) {
        return Ok(());
    }
    let ghost before = e@;
    match parts::split_once(line, '=') {
        None => Ok(()),
        Some((k, v)) => {
            if text::same(k, "unit") {
                e.unit = unesc(v);
                Ok(())
            } else if text::same(k, "scope") {
                if text::same(v, "system") {
                    e.scope = Scope::System;
                    Ok(())
                } else if text::same(v, "user") {
                    e.scope = Scope::User;
                    Ok(())
                } else {
                    Err(text::cat3("unknown scope '", v, "' in trash record"))
                }
            } else if text::same(k, "removed_at") {
                match number::parse_up_to(text::trim(v), u64::MAX) {
                    Some(n) => {
                        e.removed_at = n;
                        Ok(())
                    },
                    None => Err(text::cat3("bad removal timestamp '", v, "'")),
                }
            } else if text::same(k, "enabled") {
                e.was_enabled = text::same(text::trim(v), "true");
                Ok(())
            } else if text::same(k, "active") {
                e.was_active = text::same(text::trim(v), "true");
                Ok(())
            } else if text::same(k, "file") {
                match parts::split_once(v, '\t') {
                    Some((s, o)) => {
                        let f = TrashedFile { stored: unesc(s), original: unesc(o) };
                        e.files.push(f);
                        assert(file_views(e.files@) =~= before.files.push(f@));
                        Ok(())
                    },
                    None => Err(text::cat3("bad file record '", v, "'")),
                }
            } else {
                Ok(())
            }
        },
    }
}

impl TrashEntry {
    /// `YYYY-MM-DD HH:MM:SS UTC`, for a table column.
    pub fn removed_at_utc(&self) -> (r: String)
        ensures
            r@ == civil::readable_of(self@.removed_at as int),
    {
        civil::format_utc(self.removed_at)
    }

    /// Age in seconds relative to `now` (saturating, so a clock that went
    /// backwards reads as zero rather than wrapping).
    pub fn age_secs(&self, now: u64) -> (r: u64)
        ensures
            r == age_of(self@, now),
    {
        if now >= self.removed_at {
            now - self.removed_at
        } else {
            0
        }
    }

    /// The metadata record as written to `<entry>/meta`.
    pub fn encode(&self) -> (r: String)
        ensures
            r@ == parts::unlines_of(record_lines(self@)),
    {
        let mut lines: Vec<String> = Vec::new();
        lines.push(META_MAGIC.to_owned());
        lines.push(text::cat2("unit=", esc(self.unit.as_str()).as_str()));
        lines.push(text::cat2("scope=", self.scope.as_str()));
        lines.push(text::cat2("removed_at=", number::to_decimal(self.removed_at).as_str()));
        lines.push(text::cat2("enabled=", bool_str(self.was_enabled)));
        lines.push(text::cat2("active=", bool_str(self.was_active)));
        let ghost want = record_lines(self@);
        assert(text::texts(lines@) =~= want.take(6));
        let mut i: usize = 0;
        while i < self.files.len()
            invariant
                i <= self.files@.len(),
                want == record_lines(self@),
                text::texts(lines@) == want.take(6 + i),
            decreases self.files@.len() - i,
        {
            let ghost before = text::texts(lines@);
            let mut l = text::cat2("file=", esc(self.files[i].stored.as_str()).as_str());
            l.push_str("\t");
            l.push_str(esc(self.files[i].original.as_str()).as_str());
            lines.push(l);
            proof {
                assert(want[6 + i] == file_line(self@.files[i as int]));
                assert(text::texts(lines@) =~= before.push(l@));
                assert(text::texts(lines@) =~= want.take(6 + i + 1));
            }
            i += 1;
        }
        assert(want.take(6 + self.files@.len() as int) =~= want);
        parts::unlines(&lines)
    }

    /// Parse a metadata record. `id` is the entry directory name, which is not
    /// stored in the record itself.
    pub fn decode(id: &str, record: &str) -> (r: Result<TrashEntry, String>)
        ensures
            match r {
                Ok(e) => decode_of(id@, record@) == Ok::<EntryView, Seq<char>>(e@),
                Err(m) => decode_of(id@, record@) == Err::<EntryView, Seq<char>>(m@),
            },
    {
        let lines = parts::lines(record);
        let ghost all = text::texts(lines@);
        if lines.len() == 0 {
            return Err("empty trash record".to_owned());
        }
        assert(all[0] == lines@[0]@);
        if !text::same(text::trim(lines[0].as_str()), META_MAGIC) {
            return Err(
                text::cat3("unrecognised trash record header '", lines[0].as_str(), "'"),
            );
        }
        let mut e = TrashEntry {
            id: id.to_owned(),
            unit: String::new(),
            scope: Scope::User,
            removed_at: 0,
            was_enabled: false,
            was_active: false,
            files: Vec::new(),
        };
        let ghost start = bare_entry(id@);
        let ghost rest = all.skip(1);
        assert(e@ =~= start);
        let mut i: usize = 1;
        while i < lines.len()
            invariant
                1 <= i <= lines@.len(),
                all == text::texts(lines@),
                all == parts::lines_of(record@),
                all.len() > 0,
                text::trim_of(all[0]) == META_MAGIC@,
                rest == all.skip(1),
                start == bare_entry(id@),
                after_lines(start, rest) == after_lines(e@, all.skip(i as int)),
            decreases lines@.len() - i,
        {
            let ghost now = e@;
            let l = lines[i].as_str();
            assert(all.skip(i as int)[0] == l@);
            match read_line(&mut e, l) {
                Ok(_) => {},
                Err(m) => {
                    return Err(m);
                },
            }
            assert(all.skip(i as int).skip(1) =~= all.skip(i + 1));
            i += 1;
        }
        if e.unit.as_str().is_empty() {
            return Err("trash record has no unit name".to_owned());
        }
        if e.files.len() == 0 {
            return Err("trash record lists no files".to_owned());
        }
        Ok(e)
    }
}

/// The age of an entry, 0 where the clock is behind its removal.
pub open spec fn age_of(e: EntryView, now: u64) -> int {
    if now >= e.removed_at {
        now - e.removed_at
    } else {
        0
    }
}

// ---------------------------------------------------------------------------
// The record reads back
// ---------------------------------------------------------------------------

/// A text that begins with something is not blank.
proof fn lemma_not_blank(s: Seq<char>)
    requires
        s.len() > 0,
        !text::is_white(s[0]),
    ensures
        !text::is_blank(s),
{
    text::lemma_trim_end(s);
    if text::trim_end_of(s).len() == 0 {
        assert(text::is_white(s[0]));
    }
}

/// A `key=value` line splits into its key and its value.
proof fn lemma_kv(key: Seq<char>, v: Seq<char>)
    requires
        key.len() > 0,
        !key.contains('='),
        !text::is_white(key[0]),
        v.len() > 0 ==> v.last() != '\r',
    ensures
        strip_crs(key + seq!['='] + v) == key + seq!['='] + v,
        !text::is_blank(key + seq!['='] + v),
        parts::split_once_of(key + seq!['='] + v, '=') == Some((key, v)),
{
    let line = key + seq!['='] + v;
    let k = key.len() as int;
    assert(line[0] == key[0]);
    lemma_not_blank(line);
    assert(line[k] == '=');
    assert forall|i: int| 0 <= i < k implies #[trigger] line[i] != '=' by {
        assert(key.contains(line[i]));
    }
    text::lemma_first_index_at(line, '=', k);
    assert(line.take(k) =~= key);
    assert(line.skip(k + 1) =~= v);
    if v.len() > 0 {
        assert(line.last() == v.last());
    } else {
        assert(line.last() == '=');
    }
}

/// Escaping keeps a carriage return at the end, and adds none.
proof fn lemma_esc_last(s: Seq<char>)
    requires
        s.len() > 0,
    ensures
        esc_of(s).len() > 0,
        esc_of(s).last() == '\r' <==> s.last() == '\r',
    decreases s.len(),
{
    let e = esc_of(s);
    let h = esc_char(s[0]);
    let t = esc_of(s.skip(1));
    if s.len() == 1 {
        assert(s.skip(1) =~= seq![]);
        assert(t =~= seq![]);
        assert(e =~= h);
    } else {
        lemma_esc_last(s.skip(1));
        assert(s.skip(1).last() == s.last());
        assert(e.last() == t.last());
    }
}

/// Whether the record of an entry can be read back: it names a unit and
/// files, and no carriage return stands where a line ends.
pub open spec fn is_recordable(e: EntryView) -> bool {
    &&& e.unit.len() > 0
    &&& e.unit.last() != '\r'
    &&& e.files.len() > 0
    &&& forall|i: int|
        0 <= i < e.files.len() && (#[trigger] e.files[i]).original.len() > 0
            ==> e.files[i].original.last() != '\r'
}

proof fn lemma_file_line(e: EntryView, f: FileView)
    requires
        f.original.len() > 0 ==> f.original.last() != '\r',
    ensures
        after_line(e, file_line(f)) == Ok::<EntryView, Seq<char>>(
            EntryView { files: e.files.push(f), ..e },
        ),
        parts::is_line(file_line(f)),
{
    law_unesc_esc(f.stored);
    law_unesc_esc(f.original);
    let a = esc_of(f.stored);
    let b = esc_of(f.original);
    reveal_strlit("file=");
    reveal_strlit("file");
    reveal_strlit("\t");
    reveal_strlit("unit");
    reveal_strlit("scope");
    reveal_strlit("removed_at");
    reveal_strlit("enabled");
    reveal_strlit("active");
    let v = a + seq!['\t'] + b;
    let key = "file"@;
    assert(file_line(f) =~= key + seq!['='] + v);
    if f.original.len() > 0 {
        lemma_esc_last(f.original);
        assert(v.last() == b.last());
    } else {
        assert(b =~= seq![]);
        assert(v.last() == '\t');
    }
    lemma_kv(key, v);
    let k = a.len() as int;
    assert(v[k] == '\t');
    assert forall|i: int| 0 <= i < k implies #[trigger] v[i] != '\t' by {
        assert(a.contains(v[i]));
    }
    text::lemma_first_index_at(v, '\t', k);
    assert(v.take(k) =~= a);
    assert(v.skip(k + 1) =~= b);
    let l = file_line(f);
    assert forall|i: int| 0 <= i < l.len() implies #[trigger] l[i] != '\n' by {
        if 5 <= i < 5 + k {
            assert(l[i] == a[i - 5]);
            assert(a.contains(l[i]));
        } else if i > 5 + k {
            assert(l[i] == b[i - 6 - k]);
            assert(b.contains(l[i]));
        }
    }
    assert(l.last() == v.last());
}

/// The record lines of the files from `k` on.
spec fn file_lines_from(files: Seq<FileView>, k: int) -> Seq<Seq<char>> {
    Seq::new((files.len() - k) as nat, |i: int| file_line(files[k + i]))
}

proof fn lemma_file_lines(e: EntryView, files: Seq<FileView>, k: int)
    requires
        0 <= k <= files.len(),
        e.files == files.take(k),
        forall|i: int|
            0 <= i < files.len() && (#[trigger] files[i]).original.len() > 0
                ==> files[i].original.last() != '\r',
    ensures
        after_lines(e, file_lines_from(files, k)) == Ok::<EntryView, Seq<char>>(
            EntryView { files, ..e },
        ),
    decreases files.len() - k,
{
    let ls = file_lines_from(files, k);
    if k == files.len() {
        assert(files.take(k) =~= files);
    } else {
        assert(ls[0] == file_line(files[k]));
        lemma_file_line(e, files[k]);
        let f = EntryView { files: e.files.push(files[k]), ..e };
        assert(f.files =~= files.take(k + 1));
        assert(ls.skip(1) =~= file_lines_from(files, k + 1));
        lemma_file_lines(f, files, k + 1);
    }
}

/// How the five scalar lines read back.
proof fn lemma_scalar_lines(e: EntryView, x: EntryView)
    requires
        e.unit.len() > 0,
        e.unit.last() != '\r',
    ensures
        ({
            let l = record_lines(e);
            &&& after_line(x, l[1]) == Ok::<EntryView, Seq<char>>(EntryView { unit: e.unit, ..x })
            &&& after_line(x, l[2]) == Ok::<EntryView, Seq<char>>(EntryView { scope: e.scope, ..x })
            &&& after_line(x, l[3]) == Ok::<EntryView, Seq<char>>(
                EntryView { removed_at: e.removed_at, ..x },
            )
            &&& after_line(x, l[4]) == Ok::<EntryView, Seq<char>>(
                EntryView { was_enabled: e.was_enabled, ..x },
            )
            &&& after_line(x, l[5]) == Ok::<EntryView, Seq<char>>(
                EntryView { was_active: e.was_active, ..x },
            )
            &&& forall|i: int| 0 <= i < 6 ==> parts::is_line(#[trigger] l[i])
        }),
{
    reveal_strlit("unit=");
    reveal_strlit("unit");
    reveal_strlit("scope=");
    reveal_strlit("scope");
    reveal_strlit("removed_at=");
    reveal_strlit("removed_at");
    reveal_strlit("enabled=");
    reveal_strlit("enabled");
    reveal_strlit("active=");
    reveal_strlit("active");
    reveal_strlit("file");
    reveal_strlit("true");
    reveal_strlit("false");
    reveal_strlit("user");
    reveal_strlit("system");
    reveal_strlit("notcron-trash 1");
    let l = record_lines(e);
    let unit = esc_of(e.unit);
    law_unesc_esc(e.unit);
    lemma_esc_last(e.unit);
    lemma_kv("unit"@, unit);
    assert(l[1] =~= "unit"@ + seq!['='] + unit);
    lemma_kv("scope"@, e.scope.name());
    assert(l[2] =~= "scope"@ + seq!['='] + e.scope.name());
    let n = number::decimal(e.removed_at as nat);
    number::lemma_decimal_digits(e.removed_at as nat);
    number::lemma_decimal_parses(e.removed_at as nat, u64::MAX as nat);
    assert(text::is_digit(n[n.len() - 1]) && text::is_digit(n[0]));
    text::lemma_trim_tight(n);
    lemma_kv("removed_at"@, n);
    assert(l[3] =~= "removed_at"@ + seq!['='] + n);
    let b = bool_text(e.was_enabled);
    text::lemma_trim_tight(b);
    lemma_kv("enabled"@, b);
    assert(l[4] =~= "enabled"@ + seq!['='] + b);
    let c = bool_text(e.was_active);
    text::lemma_trim_tight(c);
    lemma_kv("active"@, c);
    assert(l[5] =~= "active"@ + seq!['='] + c);
    assert forall|i: int| 0 <= i < 6 implies parts::is_line(#[trigger] l[i]) by {
        assert forall|j: int| 0 <= j < l[i].len() implies #[trigger] l[i][j] != '\n' by {
            if i == 1 && j >= 5 {
                assert(l[1][j] == unit[j - 5]);
                assert(unit.contains(l[1][j]));
            } else if i == 3 && j >= 11 {
                assert(l[3][j] == n[j - 11]);
                assert(text::is_digit(n[j - 11]));
            }
        }
        if i == 1 {
            assert(l[1].last() == unit.last());
        } else if i == 3 {
            assert(l[3].last() == n.last());
        } else if i == 4 {
            assert(l[4].last() == b.last());
        } else if i == 5 {
            assert(l[5].last() == c.last());
        } else if i == 2 {
            assert(l[2].last() == e.scope.name().last());
        }
    }
}

/// Decoding the record of an entry gives the entry back.
pub proof fn law_decode_encode(e: EntryView)
    requires
        is_recordable(e),
    ensures
        decode_of(e.id, parts::unlines_of(record_lines(e))) == Ok::<EntryView, Seq<char>>(e),
{
    let l = record_lines(e);
    let s = parts::unlines_of(l);
    lemma_scalar_lines(e, e);
    assert forall|i: int| 0 <= i < l.len() implies parts::is_line(#[trigger] l[i]) by {
        if i >= 6 {
            lemma_file_line(e, e.files[i - 6]);
            assert(l[i] == file_line(e.files[i - 6]));
        }
    }
    parts::lemma_lines_unlines(l, seq![]);
    assert(s + Seq::<char>::empty() =~= s);
    assert(parts::lines_of(seq![]) =~= seq![]);
    assert(l + Seq::<Seq<char>>::empty() =~= l);
    assert(parts::lines_of(s) == l);
    reveal_strlit("notcron-trash 1");
    text::lemma_trim_tight(META_MAGIC@);
    let e0 = bare_entry(e.id);
    let e1 = EntryView { unit: e.unit, ..e0 };
    let e2 = EntryView { scope: e.scope, ..e1 };
    let e3 = EntryView { removed_at: e.removed_at, ..e2 };
    let e4 = EntryView { was_enabled: e.was_enabled, ..e3 };
    let e5 = EntryView { was_active: e.was_active, ..e4 };
    lemma_scalar_lines(e, e0);
    lemma_scalar_lines(e, e1);
    lemma_scalar_lines(e, e2);
    lemma_scalar_lines(e, e3);
    lemma_scalar_lines(e, e4);
    assert(l.skip(1).skip(1) =~= l.skip(2));
    assert(l.skip(2).skip(1) =~= l.skip(3));
    assert(l.skip(3).skip(1) =~= l.skip(4));
    assert(l.skip(4).skip(1) =~= l.skip(5));
    assert(l.skip(5).skip(1) =~= l.skip(6));
    assert(after_lines(e0, l.skip(1)) == after_lines(e1, l.skip(2)));
    assert(after_lines(e1, l.skip(2)) == after_lines(e2, l.skip(3)));
    assert(after_lines(e2, l.skip(3)) == after_lines(e3, l.skip(4)));
    assert(after_lines(e3, l.skip(4)) == after_lines(e4, l.skip(5)));
    assert(after_lines(e4, l.skip(5)) == after_lines(e5, l.skip(6)));
    assert(l.skip(6) =~= file_lines_from(e.files, 0));
    assert(e5.files =~= e.files.take(0));
    lemma_file_lines(e5, e.files, 0);
    assert(EntryView { files: e.files, ..e5 } =~= e);
}

// ---------------------------------------------------------------------------
// Entry names
// ---------------------------------------------------------------------------

/// A character as it stands in an entry name.
pub open spec fn slug_char(c: char) -> char {
    if text::is_alnum(c) || c == '.' || c == '_' || c == '-' {
        c
    } else {
        '_'
    }
}

/// `s` without the dots at its start.
pub open spec fn strip_dots_start(s: Seq<char>) -> Seq<char>
    decreases s.len(),
{
    if s.len() > 0 && s[0] == '.' {
        strip_dots_start(s.skip(1))
    } else {
        s
    }
}

/// `s` without the dots at its end.
pub open spec fn strip_dots_end(s: Seq<char>) -> Seq<char>
    decreases s.len(),
{
    if s.len() > 0 && s.last() == '.' {
        strip_dots_end(s.drop_last())
    } else {
        s
    }
}

/// A unit name reduced to something safe and readable in a directory name.
pub open spec fn slug_of(unit: Seq<char>) -> Seq<char> {
    let s = strip_dots_end(strip_dots_start(Seq::new(unit.len(), |i: int| slug_char(unit[i]))));
    if s.len() == 0 {
        "unit"@
    } else if s.len() <= 80 {
        s
    } else {
        s.take(80)
    }
}

/// Reduce a unit name to something safe and readable in a directory name.
pub fn slug(unit: &str) -> (r: String)
    ensures
        r@ == slug_of(unit@),
{
    let v = text::chars_of(unit);
    let ghost all = Seq::new(unit@.len(), |i: int| slug_char(unit@[i]));
    let mut out: Vec<char> = Vec::new();
    let mut i: usize = 0;
    while i < v.len()
        invariant
            v@ == unit@,
            i <= v@.len(),
            all == Seq::new(unit@.len(), |i: int| slug_char(unit@[i])),
            out@ == all.take(i as int),
        decreases v@.len() - i,
    {
        let c = v[i];
        let d = if text::alnum(c) || c == '.' || c == '_' || c == '-' {
            c
        } else {
            '_'
        };
        out.push(d);
        assert(out@ =~= all.take(i + 1));
        i += 1;
    }
    assert(all.take(all.len() as int) =~= all);
    let mut a: usize = 0;
    assert(all.skip(0) =~= all);
    while a < out.len() && out[a] == '.'
        invariant
            out@ == all,
            a <= out@.len(),
            strip_dots_start(all) == strip_dots_start(all.skip(a as int)),
        decreases out@.len() - a,
    {
        assert(all.skip(a as int).skip(1) =~= all.skip(a + 1));
        a += 1;
    }
    let mut b: usize = out.len();
    let ghost mid = all.skip(a as int);
    assert(mid =~= all.subrange(a as int, b as int));
    while b > a && out[b - 1] == '.'
        invariant
            out@ == all,
            a <= b <= out@.len(),
            strip_dots_end(mid) == strip_dots_end(all.subrange(a as int, b as int)),
        decreases b,
    {
        assert(all.subrange(a as int, b as int).drop_last() =~= all.subrange(a as int, b - 1));
        b -= 1;
    }
    if a == b {
        return "unit".to_owned();
    }
    let whole = text::string_of(&out);
    let s = whole.as_str().substring_char(a, b);
    let n: usize = b - a;
    if n <= 80 {
        s.to_owned()
    } else {
        assert(s@.subrange(0, 80) =~= s@.take(80));
        s.substring_char(0, 80).to_owned()
    }
}

/// The name of the `n`-th try at an entry directory.
pub open spec fn entry_name_of(unit: Seq<char>, now: int, n: nat) -> Seq<char> {
    let base = civil::compact_of(now) + "-"@ + slug_of(unit);
    if n == 0 {
        base
    } else {
        base + "-"@ + number::decimal(n)
    }
}

/// The name of the `n`-th try at an entry directory: the UTC timestamp plus
/// the unit name, with a counter appended if two removals land in the same
/// second.
pub fn entry_name(unit: &str, now: u64, n: u64) -> (r: String)
    ensures
        r@ == entry_name_of(unit@, now as int, n as nat),
{
    let mut s = text::cat3(civil::compact_utc(now).as_str(), "-", slug(unit).as_str());
    if n > 0 {
        s.push_str("-");
        s.push_str(number::to_decimal(n).as_str());
    }
    s
}

/// How many entry directories are tried before a removal gives up.
pub const MOST_TRIES: u64 = 1000;

/// The entry directory to try after `tried` others were found to be taken, or
/// why there is none.
pub fn next_entry(unit: &str, now: u64, tried: u64) -> (r: Result<String, String>)
    ensures
        match r {
            Ok(name) => tried < MOST_TRIES && name@ == entry_name_of(
                unit@,
                now as int,
                tried as nat,
            ),
            Err(e) => tried >= MOST_TRIES && e@ == "could not allocate a trash entry directory"@,
        },
{
    if tried < MOST_TRIES {
        Ok(entry_name(unit, now, tried))
    } else {
        Err("could not allocate a trash entry directory".to_owned())
    }
}

/// The name under which the `i`-th file of a request is stored: its own,
/// unless an earlier file has that name.
pub open spec fn stored_name_of(files: Seq<FileView>, base: Seq<char>, i: nat) -> Seq<char> {
    if is_stored(files, base) {
        number::decimal(i) + "-"@ + base
    } else {
        base
    }
}

/// Whether a file is stored under that name.
pub open spec fn is_stored(files: Seq<FileView>, name: Seq<char>) -> bool {
    exists|k: int| 0 <= k < files.len() && (#[trigger] files[k]).stored == name
}

/// The name under which the `i`-th file of a request is stored.
fn stored_name(files: &[TrashedFile], base: &str, i: usize) -> (r: String)
    ensures
        r@ == stored_name_of(file_views(files@), base@, i as nat),
{
    let ghost all = file_views(files@);
    let mut k: usize = 0;
    while k < files.len()
        invariant
            k <= files@.len(),
            all == file_views(files@),
            forall|j: int| 0 <= j < k ==> (#[trigger] all[j]).stored != base@,
        decreases files@.len() - k,
    {
        if text::same(files[k].stored.as_str(), base) {
            assert(all[k as int].stored == base@);
            assert(is_stored(all, base@));
            return text::cat3(number::usize_decimal(i).as_str(), "-", base);
        }
        k += 1;
    }
    base.to_owned()
}

/// What to stash. `files` are absolute paths.
#[derive(Debug)]
pub struct StashRequest {
    pub scope: Scope,
    /// Primary unit name, used for the entry id and the list table.
    pub unit: String,
    pub files: Vec<String>,
    pub was_enabled: bool,
    pub was_active: bool,
}

/// The entry of a request whose files were moved, or why there is none: an
/// entry with no files cannot be restored.
fn stashed(req: &StashRequest, id: &str, now: u64, files: Vec<TrashedFile>) -> (r: Result<
    TrashEntry,
    String,
>)
    ensures
        match r {
            Ok(e) => req.files@.len() > 0 && files@.len() > 0 && e@ == (EntryView {
                id: id@,
                unit: req.unit@,
                scope: req.scope,
                removed_at: now,
                was_enabled: req.was_enabled,
                was_active: req.was_active,
                files: file_views(files@),
            }),
            Err(m) => if req.files@.len() == 0 {
                m@ == "nothing to stash: no files given"@
            } else {
                files@.len() == 0 && m@ == "nothing to stash: none of the unit's files exist"@
            },
        },
{
    if req.files.len() == 0 {
        return Err("nothing to stash: no files given".to_owned());
    }
    if files.len() == 0 {
        return Err("nothing to stash: none of the unit's files exist".to_owned());
    }
    Ok(
        TrashEntry {
            id: id.to_owned(),
            unit: req.unit.clone(),
            scope: req.scope,
            removed_at: now,
            was_enabled: req.was_enabled,
            was_active: req.was_active,
            files,
        },
    )
}

// ---------------------------------------------------------------------------
// Listing
// ---------------------------------------------------------------------------

/// Whether `a` is listed before `b`: it was removed later, or at the same
/// time and its id comes first, in the order that `ascending` says.
pub open spec fn before_of(a: EntryView, b: EntryView, ascending: bool) -> bool {
    if a.removed_at != b.removed_at {
        a.removed_at > b.removed_at
    } else if ascending {
        text::less_of(a.id, b.id)
    } else {
        text::less_of(b.id, a.id)
    }
}

/// How many entries at the start of `s` stay before `x`.
pub open spec fn rank_of(s: Seq<EntryView>, x: EntryView, ascending: bool) -> int
    decreases s.len(),
{
    if s.len() == 0 || before_of(x, s[0], ascending) {
        0
    } else {
        1 + rank_of(s.skip(1), x, ascending)
    }
}

/// The entries in order; entries that neither precedes keep their order.
pub open spec fn sorted_of(s: Seq<EntryView>, ascending: bool) -> Seq<EntryView>
    decreases s.len(),
{
    if s.len() == 0 {
        seq![]
    } else {
        let t = sorted_of(s.drop_last(), ascending);
        t.insert(rank_of(t, s.last(), ascending), s.last())
    }
}

fn before(a: &TrashEntry, b: &TrashEntry, ascending: bool) -> (r: bool)
    ensures
        r == before_of(a@, b@, ascending),
{
    if a.removed_at != b.removed_at {
        a.removed_at > b.removed_at
    } else if ascending {
        text::less(a.id.as_str(), b.id.as_str())
    } else {
        text::less(b.id.as_str(), a.id.as_str())
    }
}

/// The entries in order.
pub fn sorted(entries: &[TrashEntry], ascending: bool) -> (r: Vec<TrashEntry>)
    ensures
        entry_views(r@) == sorted_of(entry_views(entries@), ascending),
{
    let ghost all = entry_views(entries@);
    let mut out: Vec<TrashEntry> = Vec::new();
    let mut i: usize = 0;
    assert(all.take(0) =~= seq![]);
    assert(entry_views(out@) =~= seq![]);
    while i < entries.len()
        invariant
            i <= entries@.len(),
            all == entry_views(entries@),
            entry_views(out@) == sorted_of(all.take(i as int), ascending),
        decreases entries@.len() - i,
    {
        let x = entries[i].clone();
        let ghost t = entry_views(out@);
        let mut k: usize = 0;
        assert(t.skip(0) =~= t);
        while k < out.len() && !before(&x, &out[k], ascending)
            invariant
                k <= out@.len(),
                t == entry_views(out@),
                rank_of(t, x@, ascending) == k + rank_of(t.skip(k as int), x@, ascending),
            decreases out@.len() - k,
        {
            assert(t.skip(k as int)[0] == out@[k as int]@);
            assert(t.skip(k as int).skip(1) =~= t.skip(k + 1));
            k += 1;
        }
        if k < out.len() {
            assert(t.skip(k as int)[0] == out@[k as int]@);
        }
        out.insert(k, x);
        proof {
            assert(entry_views(out@) =~= t.insert(k as int, x@));
            assert(all.take(i + 1).drop_last() =~= all.take(i as int));
        }
        i += 1;
    }
    assert(all.take(all.len() as int) =~= all);
    out
}

/// The entries of a trash directory, newest first.
pub fn listed(entries: &[TrashEntry]) -> (r: Vec<TrashEntry>)
    ensures
        entry_views(r@) == sorted_of(entry_views(entries@), false),
{
    sorted(entries, false)
}

proof fn lemma_rank(s: Seq<EntryView>, x: EntryView, ascending: bool)
    ensures
        0 <= rank_of(s, x, ascending) <= s.len(),
        rank_of(s, x, ascending) < s.len() ==> before_of(
            x,
            s[rank_of(s, x, ascending)],
            ascending,
        ),
        forall|i: int|
            0 <= i < rank_of(s, x, ascending) ==> !before_of(x, #[trigger] s[i], ascending),
    decreases s.len(),
{
    if s.len() > 0 && !before_of(x, s[0], ascending) {
        lemma_rank(s.skip(1), x, ascending);
        assert forall|i: int| 0 <= i < rank_of(s, x, ascending) implies !before_of(
            x,
            #[trigger] s[i],
            ascending,
        ) by {
            if i > 0 {
                assert(s[i] == s.skip(1)[i - 1]);
            }
        }
    }
}

/// What does not precede and is not preceded takes the other's place in the
/// order.
proof fn lemma_before_transitive(a: EntryView, b: EntryView, c: EntryView, ascending: bool)
    requires
        !before_of(b, a, ascending),
        before_of(c, b, ascending) ==> false,
    ensures
        !before_of(c, a, ascending),
{
    text::lemma_less_total(a.id, b.id);
    text::lemma_less_total(b.id, c.id);
    text::lemma_less_total(a.id, c.id);
    if before_of(c, a, ascending) {
        if ascending {
            if text::less_of(c.id, a.id) && text::less_of(a.id, b.id) {
                text::lemma_less_transitive(c.id, a.id, b.id);
            }
        } else {
            if text::less_of(a.id, c.id) && text::less_of(b.id, a.id) {
                text::lemma_less_transitive(b.id, a.id, c.id);
            }
        }
    }
}

/// A listing holds the entries it was given and nothing else, and no entry
/// stands behind one that it precedes: the newest comes first.
pub proof fn law_sorted(s: Seq<EntryView>, ascending: bool)
    ensures
        sorted_of(s, ascending).to_multiset() == s.to_multiset(),
        forall|i: int, j: int|
            0 <= i < j < sorted_of(s, ascending).len() ==> !before_of(
                sorted_of(s, ascending)[j],
                sorted_of(s, ascending)[i],
                ascending,
            ),
    decreases s.len(),
{
    broadcast use vstd::seq_lib::group_to_multiset_ensures;

    if s.len() > 0 {
        let d = s.drop_last();
        let x = s.last();
        law_sorted(d, ascending);
        let t = sorted_of(d, ascending);
        let k = rank_of(t, x, ascending);
        lemma_rank(t, x, ascending);
        let r = t.insert(k, x);
        vstd::seq_lib::to_multiset_insert(t, k, x);
        assert(s =~= d.push(x));
        assert forall|i: int, j: int| 0 <= i < j < r.len() implies !before_of(
            r[j],
            r[i],
            ascending,
        ) by {
            if j < k {
            } else if j == k {
                assert(r[i] == t[i]);
            } else if i == k {
                assert(r[j] == t[j - 1]);
                if before_of(t[j - 1], x, ascending) {
                    text::lemma_less_total(x.id, t[k].id);
                    if k < j - 1 {
                        lemma_before_transitive(x, t[k], t[j - 1], ascending);
                    }
                }
            } else if i < k {
                assert(r[i] == t[i] && r[j] == t[j - 1]);
            } else {
                assert(r[i] == t[i - 1] && r[j] == t[j - 1]);
            }
        }
    } else {
        assert(s =~= seq![]);
    }
}

// ---------------------------------------------------------------------------
// Restoring
// ---------------------------------------------------------------------------

/// A successful restore.
#[derive(Debug)]
pub struct RestoreReport {
    pub unit: String,
    pub scope: Scope,
    /// Paths put back, in the order they were stashed (primary first).
    pub restored: Vec<String>,
    /// Subset of `restored` that overwrote an existing file.
    pub overwritten: Vec<String>,
    /// Whether the unit was enabled before removal, so the caller can offer
    /// to re-enable it.
    pub was_enabled: bool,
    pub was_active: bool,
}

/// Why a restore could not proceed.
#[derive(Debug, PartialEq, Eq)]
pub enum RestoreError {
    /// No such entry id in the trash.
    NotFound(String),
    /// One or more target paths already exist. Retry with `overwrite = true`
    /// once the user has confirmed.
    Conflict(Vec<String>),
    /// Anything else: unreadable record, permission denied, and so on.
    Io(String),
}

impl RestoreError {
    /// The message for the user.
    pub open spec fn message(self) -> Seq<char> {
        match self {
            RestoreError::NotFound(id) => "no trash entry '"@ + id@ + "'"@,
            RestoreError::Conflict(paths) => "already exists: "@ + parts::join_of(
                text::texts(paths@),
                ", "@,
            ),
            RestoreError::Io(m) => m@,
        }
    }

    /// The message for the user.
    pub fn to_string(&self) -> (r: String)
        ensures
            r@ == self.message(),
    {
        match self {
            RestoreError::NotFound(id) => text::cat3("no trash entry '", id.as_str(), "'"),
            RestoreError::Conflict(paths) => text::cat2(
                "already exists: ",
                parts::join(paths, ", ").as_str(),
            ),
            RestoreError::Io(m) => m.clone(),
        }
    }
}

/// Whether an id can name a directory inside the trash and nothing outside it.
pub open spec fn is_safe_id(id: Seq<char>) -> bool {
    id.len() > 0 && !id.contains('/') && !text::occurs(id, ".."@)
}

/// Refuse an id that could lead out of the trash.
pub fn check_id(id: &str) -> (r: Result<(), RestoreError>)
    ensures
        match r {
            Ok(_) => is_safe_id(id@),
            Err(e) => !is_safe_id(id@) && (e matches RestoreError::NotFound(i) && i@ == id@),
        },
{
    if id.is_empty() || text::has_char(id, '/') || text::contains_str(id, "..") {
        Err(RestoreError::NotFound(id.to_owned()))
    } else {
        Ok(())
    }
}

/// The original paths of the files among the first `n` that are in the way.
pub open spec fn in_the_way(files: Seq<FileView>, exists_now: Seq<bool>, n: int) -> Seq<Seq<char>>
    decreases n,
{
    if n <= 0 {
        seq![]
    } else if exists_now[n - 1] {
        in_the_way(files, exists_now, n - 1).push(files[n - 1].original)
    } else {
        in_the_way(files, exists_now, n - 1)
    }
}

/// Original paths that already exist on disk and would be clobbered by a
/// restore, given for each file whether its path exists. Empty means the
/// restore is clean.
pub fn conflicts(entry: &TrashEntry, exists_now: &[bool]) -> (r: Vec<String>)
    requires
        exists_now@.len() == entry.files@.len(),
    ensures
        text::texts(r@) == in_the_way(entry@.files, exists_now@, entry@.files.len() as int),
{
    let mut out: Vec<String> = Vec::new();
    let mut i: usize = 0;
    assert(text::texts(out@) =~= seq![]);
    while i < entry.files.len()
        invariant
            i <= entry.files@.len(),
            exists_now@.len() == entry.files@.len(),
            text::texts(out@) == in_the_way(entry@.files, exists_now@, i as int),
        decreases entry.files@.len() - i,
    {
        let ghost before = text::texts(out@);
        if exists_now[i] {
            out.push(entry.files[i].original.clone());
            assert(text::texts(out@) =~= before.push(entry@.files[i as int].original));
        }
        i += 1;
    }
    out
}

/// Decide whether a restore may go ahead: an existing target aborts it before
/// anything is moved, unless overwriting was agreed to.
fn check_restore(existing: Vec<String>, overwrite: bool) -> (r: Result<
    Vec<String>,
    RestoreError,
>)
    ensures
        match r {
            Ok(v) => v == existing && (existing@.len() == 0 || overwrite),
            Err(e) => e == RestoreError::Conflict(existing) && existing@.len() > 0 && !overwrite,
        },
{
    if existing.len() > 0 && !overwrite {
        Err(RestoreError::Conflict(existing))
    } else {
        Ok(existing)
    }
}

/// The report of a restore that put every file of an entry back.
fn restored(entry: &TrashEntry, overwritten: Vec<String>) -> (r: RestoreReport)
    ensures
        r.unit@ == entry@.unit,
        r.scope == entry@.scope,
        text::texts(r.restored@) == Seq::new(
            entry@.files.len(),
            |i: int| entry@.files[i].original,
        ),
        r.overwritten == overwritten,
        r.was_enabled == entry@.was_enabled,
        r.was_active == entry@.was_active,
{
    let mut paths: Vec<String> = Vec::new();
    let mut i: usize = 0;
    while i < entry.files.len()
        invariant
            i <= entry.files@.len(),
            paths@.len() == i,
            forall|k: int| 0 <= k < i ==> (#[trigger] paths@[k])@ == entry@.files[k].original,
        decreases entry.files@.len() - i,
    {
        paths.push(entry.files[i].original.clone());
        i += 1;
    }
    assert(text::texts(paths@) =~= Seq::new(
        entry@.files.len(),
        |i: int| entry@.files[i].original,
    ));
    RestoreReport {
        unit: entry.unit.clone(),
        scope: entry.scope,
        restored: paths,
        overwritten,
        was_enabled: entry.was_enabled,
        was_active: entry.was_active,
    }
}

/// What is said of a stashed file that is no longer there.
pub fn missing_file(entry: &TrashEntry, stored: &str) -> (r: RestoreError)
    ensures
        r matches RestoreError::Io(m) && m@ == "trash entry "@ + entry@.id + " is missing "@
            + stored@,
{
    let mut m = text::cat3("trash entry ", entry.id.as_str(), " is missing ");
    m.push_str(stored);
    RestoreError::Io(m)
}

// ---------------------------------------------------------------------------
// Retention
// ---------------------------------------------------------------------------

/// How much history the trash keeps. Both limits are optional and applied
/// together: an entry is dropped if it fails *either* one.
#[derive(Debug, Clone, Copy, PartialEq, Eq, Structural)]
pub struct PrunePolicy {
    /// Keep at most this many entries, newest first.
    pub max_entries: Option<usize>,
    /// Drop entries older than this many seconds.
    pub max_age_secs: Option<u64>,
}

impl PrunePolicy {
    /// Keep everything.
    pub fn unlimited() -> (r: PrunePolicy)
        ensures
            r.max_entries is None,
            r.max_age_secs is None,
    {
        PrunePolicy { max_entries: None, max_age_secs: None }
    }
}

impl Default for PrunePolicy {
    /// The last 50 removals, nothing older than 30 days.
    fn default() -> (r: PrunePolicy)
        ensures
            r.max_entries == Some(50usize),
            r.max_age_secs == Some(2_592_000u64),
    {
        PrunePolicy { max_entries: Some(50), max_age_secs: Some(2_592_000) }
    }
}

/// Whether a policy excludes the entry at position `i` of a listing.
pub open spec fn is_doomed(e: EntryView, i: int, policy: PrunePolicy, now: u64) -> bool {
    ||| policy.max_entries is Some && i >= policy.max_entries->0
    ||| policy.max_age_secs is Some && age_of(e, now) > policy.max_age_secs->0
}

/// The ids of the entries among the first `n` that a policy excludes.
pub open spec fn doomed_of(entries: Seq<EntryView>, policy: PrunePolicy, now: u64, n: int) -> Seq<
    Seq<char>,
>
    decreases n,
{
    if n <= 0 {
        seq![]
    } else if is_doomed(entries[n - 1], n - 1, policy, now) {
        doomed_of(entries, policy, now, n - 1).push(entries[n - 1].id)
    } else {
        doomed_of(entries, policy, now, n - 1)
    }
}

/// Which entries a policy excludes, by id. `entries` is newest first.
pub fn select_for_prune(entries: &[TrashEntry], policy: PrunePolicy, now: u64) -> (r: Vec<String>)
    ensures
        text::texts(r@) == doomed_of(
            entry_views(entries@),
            policy,
            now,
            entries@.len() as int,
        ),
{
    let ghost all = entry_views(entries@);
    let mut out: Vec<String> = Vec::new();
    let mut i: usize = 0;
    assert(text::texts(out@) =~= seq![]);
    while i < entries.len()
        invariant
            i <= entries@.len(),
            all == entry_views(entries@),
            text::texts(out@) == doomed_of(all, policy, now, i as int),
        decreases entries@.len() - i,
    {
        let ghost before = text::texts(out@);
        let over_count = match policy.max_entries {
            Some(max) => i >= max,
            None => false,
        };
        let too_old = match policy.max_age_secs {
            Some(max) => entries[i].age_secs(now) > max,
            None => false,
        };
        if over_count || too_old {
            out.push(entries[i].id.clone());
            assert(text::texts(out@) =~= before.push(all[i as int].id));
        }
        i += 1;
    }
    out
}

/// A policy with a limit leaves no more entries than that limit, and one
/// without limits excludes nothing.
pub proof fn law_prune_respects_the_limit(
    entries: Seq<EntryView>,
    policy: PrunePolicy,
    now: u64,
    n: int,
)
    requires
        0 <= n <= entries.len(),
    ensures
        doomed_of(entries, policy, now, n).len() <= n,
        policy.max_entries is Some ==> n - doomed_of(entries, policy, now, n).len()
            <= policy.max_entries->0,
        policy.max_entries is None && policy.max_age_secs is None ==> doomed_of(
            entries,
            policy,
            now,
            n,
        ).len() == 0,
    decreases n,
{
    if n > 0 {
        law_prune_respects_the_limit(entries, policy, now, n - 1);
    }
}

/// The entries a policy spares are the young ones among the newest: an entry
/// within both limits is never excluded, and only its own id could be named
/// for it.
pub proof fn law_prune_spares(
    entries: Seq<EntryView>,
    policy: PrunePolicy,
    now: u64,
    n: int,
    id: Seq<char>,
)
    requires
        0 <= n <= entries.len(),
    ensures
        doomed_of(entries, policy, now, n).contains(id) <==> exists|i: int|
            0 <= i < n && (#[trigger] entries[i]).id == id && is_doomed(entries[i], i, policy, now),
    decreases n,
{
    if n > 0 {
        law_prune_spares(entries, policy, now, n - 1, id);
        let d = doomed_of(entries, policy, now, n - 1);
        let e = doomed_of(entries, policy, now, n);
        if is_doomed(entries[n - 1], n - 1, policy, now) {
            assert(e == d.push(entries[n - 1].id));
            if d.contains(id) {
                let k = choose|k: int| 0 <= k < d.len() && d[k] == id;
                assert(e[k] == id);
            }
            if entries[n - 1].id == id {
                assert(e[d.len() as int] == id);
            }
            if e.contains(id) && !d.contains(id) {
                let k = choose|k: int| 0 <= k < e.len() && e[k] == id;
                if k < d.len() {
                    assert(d[k] == id);
                }
                assert(entries[n - 1].id == id);
            }
        }
        if exists|i: int|
            0 <= i < n && (#[trigger] entries[i]).id == id && is_doomed(entries[i], i, policy, now) {
            let i = choose|i: int|
                0 <= i < n && (#[trigger] entries[i]).id == id && is_doomed(
                    entries[i],
                    i,
                    policy,
                    now,
                );
            if i < n - 1 {
                assert(d.contains(id));
            }
        }
    }
}

// ---------------------------------------------------------------------------
// Moving files
// ---------------------------------------------------------------------------

/// A file to move from one path to another.
#[derive(Debug)]
pub struct Move {
    pub from: String,
    pub to: String,
}

/// The contents of a [`Move`].
#[verifier::ext_equal]
pub struct MoveView {
    pub from: Seq<char>,
    pub to: Seq<char>,
}

impl View for Move {
    type V = MoveView;

    open spec fn view(&self) -> MoveView {
        MoveView { from: self.from@, to: self.to@ }
    }
}

/// The contents of moves.
pub open spec fn move_views(v: Seq<Move>) -> Seq<MoveView> {
    Seq::new(v.len(), |i: int| v[i]@)
}

/// The name a file is stored under unless that is taken: its own, or a made-up
/// one where its path ends in none.
pub open spec fn base_of(path: Seq<char>, i: nat) -> Seq<char> {
    match paths::file_name_of(path) {
        Some(name) => name,
        None => "file"@ + number::decimal(i),
    }
}

/// Whether a path is among the files.
pub open spec fn is_original(files: Seq<FileView>, path: Seq<char>) -> bool {
    exists|k: int| 0 <= k < files.len() && (#[trigger] files[k]).original == path
}

/// What is stashed of the first `n` paths: each that is there, once.
pub open spec fn stashed_of(wanted: Seq<Seq<char>>, present: Seq<bool>, n: int) -> Seq<FileView>
    decreases n,
{
    if n <= 0 {
        seq![]
    } else {
        let files = stashed_of(wanted, present, n - 1);
        let path = wanted[n - 1];
        if !present[n - 1] || is_original(files, path) {
            files
        } else {
            files.push(
                FileView {
                    stored: stored_name_of(files, base_of(path, (n - 1) as nat), (n - 1) as nat),
                    original: path,
                },
            )
        }
    }
}

/// The moves that put files into an entry directory.
pub open spec fn moves_in(dir: Seq<char>, files: Seq<FileView>) -> Seq<MoveView> {
    Seq::new(
        files.len(),
        |i: int|
            MoveView { from: files[i].original, to: paths::join_of(dir, files[i].stored) },
    )
}

/// The moves that take them out again.
pub open spec fn moves_out(dir: Seq<char>, files: Seq<FileView>) -> Seq<MoveView> {
    Seq::new(
        files.len(),
        |i: int|
            MoveView { from: paths::join_of(dir, files[i].stored), to: files[i].original },
    )
}

/// The moves that undo the first `n` of some moves, the last of them first.
pub open spec fn undone_of(moves: Seq<MoveView>, n: int) -> Seq<MoveView>
    decreases n,
{
    if n <= 0 {
        seq![]
    } else {
        seq![MoveView { from: moves[n - 1].to, to: moves[n - 1].from }] + undone_of(moves, n - 1)
    }
}

/// The moves that undo the first `done` of some moves, for when the next one
/// failed: a removal moves all of its files or none.
pub fn undone(moves: &[Move], done: usize) -> (r: Vec<Move>)
    requires
        done <= moves@.len(),
    ensures
        move_views(r@) == undone_of(move_views(moves@), done as int),
{
    let ghost all = move_views(moves@);
    let mut out: Vec<Move> = Vec::new();
    let mut n: usize = done;
    assert(move_views(out@) =~= seq![]);
    assert(seq![] + undone_of(all, done as int) =~= undone_of(all, done as int));
    while n > 0
        invariant
            n <= done <= moves@.len(),
            all == move_views(moves@),
            undone_of(all, done as int) == move_views(out@) + undone_of(all, n as int),
        decreases n,
    {
        n -= 1;
        let ghost before = move_views(out@);
        out.push(Move { from: moves[n].to.clone(), to: moves[n].from.clone() });
        proof {
            assert(all[n as int] == moves@[n as int]@);
            let back = MoveView { from: all[n as int].to, to: all[n as int].from };
            assert(move_views(out@) =~= before.push(back));
            assert(before + undone_of(all, n + 1) =~= before.push(back) + undone_of(all, n as int));
        }
    }
    assert(move_views(out@) + undone_of(all, 0) =~= move_views(out@));
    out
}

/// Whether a path is among the files.
fn has_original(files: &[TrashedFile], path: &str) -> (r: bool)
    ensures
        r == is_original(file_views(files@), path@),
{
    let ghost all = file_views(files@);
    let mut k: usize = 0;
    while k < files.len()
        invariant
            k <= files@.len(),
            all == file_views(files@),
            forall|j: int| 0 <= j < k ==> (#[trigger] all[j]).original != path@,
        decreases files@.len() - k,
    {
        if text::same(files[k].original.as_str(), path) {
            assert(all[k as int].original == path@);
            return true;
        }
        k += 1;
    }
    false
}

/// A trash directory.
#[derive(Debug)]
pub struct Trash {
    pub root: String,
}

impl Trash {
    /// The trash in a directory of its own.
    pub fn at(root: &str) -> (r: Trash)
        ensures
            r.root@ == root@,
    {
        Trash { root: root.to_owned() }
    }

    /// The trash of a scope, by `$XDG_DATA_HOME` and `$HOME`.
    pub fn for_scope(scope: Scope, xdg: &Option<String>, home: &Option<String>) -> (r: Trash)
        ensures
            r.root@ == trash_dir_of(scope, text::opt_text(*xdg), text::opt_text(*home)),
    {
        Trash { root: trash_dir(scope, xdg, home) }
    }

    /// The directory that holds the entries.
    pub fn root(&self) -> (r: &str)
        ensures
            r@ == self.root@,
    {
        self.root.as_str()
    }

    /// The directory of an entry.
    pub open spec fn dir_of(self, id: Seq<char>) -> Seq<char> {
        paths::join_of(self.root@, id)
    }

    /// The directory of an entry.
    pub fn entry_dir(&self, id: &str) -> (r: String)
        ensures
            r@ == self.dir_of(id@),
    {
        paths::join(self.root.as_str(), id)
    }

    /// The path of an entry's record.
    pub open spec fn record_of(self, id: Seq<char>) -> Seq<char> {
        paths::join_of(self.dir_of(id), META_NAME@)
    }

    /// The path of an entry's record.
    pub fn record_path(&self, id: &str) -> (r: String)
        ensures
            r@ == self.record_of(id@),
    {
        paths::join(self.entry_dir(id).as_str(), META_NAME)
    }

    /// The entry `id` that a request comes to, and which files go where for
    /// it; or why nothing is stashed. `present` says of each file whether it
    /// is there: one that is already gone is not a reason to fail a removal.
    pub fn stash_at(&self, req: &StashRequest, present: &[bool], id: &str, now: u64) -> (r: Result<
        (TrashEntry, Vec<Move>),
        String,
    >)
        requires
            present@.len() == req.files@.len(),
        ensures
            ({
                let wanted = text::texts(req.files@);
                let files = stashed_of(wanted, present@, wanted.len() as int);
                match r {
                    Ok((e, moves)) => {
                        &&& files.len() > 0
                        &&& e@ == (EntryView {
                            id: id@,
                            unit: req.unit@,
                            scope: req.scope,
                            removed_at: now,
                            was_enabled: req.was_enabled,
                            was_active: req.was_active,
                            files,
                        })
                        &&& move_views(moves@) == moves_in(self.dir_of(id@), files)
                    },
                    Err(m) => if wanted.len() == 0 {
                        m@ == "nothing to stash: no files given"@
                    } else {
                        files.len() == 0 && m@
                            == "nothing to stash: none of the unit's files exist"@
                    },
                }
            }),
    {
        let ghost wanted = text::texts(req.files@);
        let dir = self.entry_dir(id);
        let mut files: Vec<TrashedFile> = Vec::new();
        let mut moves: Vec<Move> = Vec::new();
        let mut i: usize = 0;
        assert(file_views(files@) =~= seq![]);
        assert(move_views(moves@) =~= moves_in(dir@, seq![]));
        while i < req.files.len()
            invariant
                i <= req.files@.len(),
                present@.len() == req.files@.len(),
                wanted == text::texts(req.files@),
                file_views(files@) == stashed_of(wanted, present@, i as int),
                move_views(moves@) == moves_in(dir@, file_views(files@)),
            decreases req.files@.len() - i,
        {
            let ghost before = file_views(files@);
            let path = req.files[i].as_str();
            assert(path@ == wanted[i as int]);
            if present[i] && !has_original(&files, path) {
                let base = match paths::file_name(path) {
                    Some(name) => name,
                    None => text::cat2("file", number::usize_decimal(i).as_str()),
                };
                let stored = stored_name(&files, base.as_str(), i);
                moves.push(
                    Move { from: path.to_owned(), to: paths::join(dir.as_str(), stored.as_str()) },
                );
                files.push(TrashedFile { stored, original: path.to_owned() });
                assert(file_views(files@) =~= stashed_of(wanted, present@, i + 1));
                let ghost all = file_views(files@);
                assert(all =~= before.push(all.last()));
                assert(move_views(moves@) =~= moves_in(dir@, before).push(
                    MoveView { from: all.last().original, to: paths::join_of(dir@, all.last().stored) },
                ));
                assert(moves_in(dir@, all) =~= moves_in(dir@, before).push(
                    MoveView { from: all.last().original, to: paths::join_of(dir@, all.last().stored) },
                ));
            }
            i += 1;
        }
        match stashed(req, id, now, files) {
            Ok(e) => Ok((e, moves)),
            Err(m) => Err(m),
        }
    }

    /// What restoring an entry reports, and which files go where for it; or
    /// that files are in the way. `exists_now` says of each file's path
    /// whether there is something again.
    ///
    /// The decision covers all files before any is moved, so a refused
    /// restore leaves everything as it is.
    pub fn restore(&self, entry: &TrashEntry, exists_now: &[bool], overwrite: bool) -> (r: Result<
        (RestoreReport, Vec<Move>),
        RestoreError,
    >)
        requires
            exists_now@.len() == entry.files@.len(),
        ensures
            ({
                let taken = in_the_way(entry@.files, exists_now@, entry@.files.len() as int);
                match r {
                    Ok((report, moves)) => {
                        &&& taken.len() == 0 || overwrite
                        &&& report.unit@ == entry@.unit
                        &&& report.scope == entry@.scope
                        &&& text::texts(report.restored@) == Seq::new(
                            entry@.files.len(),
                            |i: int| entry@.files[i].original,
                        )
                        &&& text::texts(report.overwritten@) == taken
                        &&& report.was_enabled == entry@.was_enabled
                        &&& report.was_active == entry@.was_active
                        &&& move_views(moves@) == moves_out(self.dir_of(entry@.id), entry@.files)
                    },
                    Err(e) => {
                        &&& taken.len() > 0
                        &&& !overwrite
                        &&& e matches RestoreError::Conflict(paths)
                        &&& text::texts(paths@) == taken
                    },
                }
            }),
    {
        let existing = conflicts(entry, exists_now);
        let ghost taken = text::texts(existing@);
        let existing = match check_restore(existing, overwrite) {
            Ok(v) => v,
            Err(e) => {
                return Err(e);
            },
        };
        let dir = self.entry_dir(entry.id.as_str());
        let mut moves: Vec<Move> = Vec::new();
        let mut i: usize = 0;
        while i < entry.files.len()
            invariant
                i <= entry.files@.len(),
                dir@ == self.dir_of(entry@.id),
                moves@.len() == i,
                forall|k: int|
                    0 <= k < i ==> (#[trigger] moves@[k])@ == moves_out(dir@, entry@.files)[k],
            decreases entry.files@.len() - i,
        {
            moves.push(
                Move {
                    from: paths::join(dir.as_str(), entry.files[i].stored.as_str()),
                    to: entry.files[i].original.clone(),
                },
            );
            assert(moves@[i as int]@ =~= moves_out(dir@, entry@.files)[i as int]);
            i += 1;
        }
        assert(move_views(moves@) =~= moves_out(dir@, entry@.files));
        Ok((restored(entry, existing), moves))
    }

    /// The ids of the entries that a policy lets go of, from all that are
    /// there: the newest stay.
    pub fn prune_at(&self, entries: &[TrashEntry], policy: PrunePolicy, now: u64) -> (r: Vec<
        String,
    >)
        ensures
            ({
                let all = sorted_of(entry_views(entries@), false);
                text::texts(r@) == doomed_of(all, policy, now, all.len() as int)
            }),
    {
        select_for_prune(&listed(entries), policy, now)
    }

    /// The directory to delete for discarding an entry, from what looking it
    /// up gave. An entry that is not there counts as discarded.
    pub fn discard(&self, found: &Result<TrashEntry, RestoreError>) -> (r: Result<
        Option<String>,
        String,
    >)
        ensures
            match *found {
                Ok(e) => r matches Ok(Some(dir)) && dir@ == self.dir_of(e@.id),
                Err(RestoreError::NotFound(_)) => r == Ok::<Option<String>, String>(None),
                Err(e) => r matches Err(m) && m@ == e.message(),
            },
    {
        match found {
            Ok(e) => Ok(Some(self.entry_dir(e.id.as_str()))),
            Err(RestoreError::NotFound(_)) => Ok(None),
            Err(e) => Err(e.to_string()),
        }
    }
}

/// The files of a file system after one of them was moved, over whatever was
/// there.
pub open spec fn moved(fs: Map<Seq<char>, Seq<u8>>, m: MoveView) -> Map<Seq<char>, Seq<u8>> {
    fs.remove(m.from).insert(m.to, fs[m.from])
}

/// The files of a file system after moves, the first of them first.
pub open spec fn all_moved(fs: Map<Seq<char>, Seq<u8>>, moves: Seq<MoveView>) -> Map<
    Seq<char>,
    Seq<u8>,
>
    decreases moves.len(),
{
    if moves.len() == 0 {
        fs
    } else {
        moved(all_moved(fs, moves.drop_last()), moves.last())
    }
}

/// Whether a path is where a move starts.
spec fn leaves(moves: Seq<MoveView>, path: Seq<char>) -> bool {
    exists|i: int| 0 <= i < moves.len() && (#[trigger] moves[i]).from == path
}

/// Whether a path is where a move ends.
spec fn receives(moves: Seq<MoveView>, path: Seq<char>) -> bool {
    exists|i: int| 0 <= i < moves.len() && (#[trigger] moves[i]).to == path
}

/// Whether moves take different files that exist to different places that are
/// free.
spec fn is_clean(fs: Map<Seq<char>, Seq<u8>>, moves: Seq<MoveView>) -> bool {
    &&& forall|i: int|
        0 <= i < moves.len() ==> fs.contains_key((#[trigger] moves[i]).from) && !fs.contains_key(
            moves[i].to,
        )
    &&& forall|i: int, j: int|
        0 <= i < j < moves.len() ==> (#[trigger] moves[i]).from != (#[trigger] moves[j]).from
            && moves[i].to != moves[j].to
}

proof fn lemma_all_moved(fs: Map<Seq<char>, Seq<u8>>, moves: Seq<MoveView>)
    requires
        is_clean(fs, moves),
    ensures
        forall|x: Seq<char>| #[trigger]
            all_moved(fs, moves).contains_key(x) == ((fs.contains_key(x) && !leaves(moves, x))
                || receives(moves, x)),
        forall|x: Seq<char>|
            fs.contains_key(x) && !leaves(moves, x) ==> #[trigger] all_moved(fs, moves)[x] == fs[x],
        forall|i: int|
            0 <= i < moves.len() ==> all_moved(fs, moves)[(#[trigger] moves[i]).to]
                == fs[moves[i].from],
    decreases moves.len(),
{
    if moves.len() > 0 {
        let rest = moves.drop_last();
        let m = moves.last();
        let before = all_moved(fs, rest);
        let after = all_moved(fs, moves);
        assert forall|i: int| 0 <= i < rest.len() implies #[trigger] rest[i] == moves[i] by {}
        lemma_all_moved(fs, rest);
        assert(!leaves(rest, m.from)) by {
            if leaves(rest, m.from) {
                let i = choose|i: int| 0 <= i < rest.len() && (#[trigger] rest[i]).from == m.from;
                assert(moves[i].from == moves[moves.len() - 1].from);
            }
        }
        assert(moves[moves.len() - 1] == m);
        assert(before[m.from] == fs[m.from]);
        assert forall|x: Seq<char>| leaves(moves, x) == (leaves(rest, x) || x == m.from) by {
            if leaves(moves, x) {
                let i = choose|i: int| 0 <= i < moves.len() && (#[trigger] moves[i]).from == x;
                if i < rest.len() {
                    assert(rest[i].from == x);
                }
            }
            if leaves(rest, x) {
                let i = choose|i: int| 0 <= i < rest.len() && (#[trigger] rest[i]).from == x;
                assert(moves[i].from == x);
            }
        }
        assert forall|x: Seq<char>| receives(moves, x) == (receives(rest, x) || x == m.to) by {
            if receives(moves, x) {
                let i = choose|i: int| 0 <= i < moves.len() && (#[trigger] moves[i]).to == x;
                if i < rest.len() {
                    assert(rest[i].to == x);
                }
            }
            if receives(rest, x) {
                let i = choose|i: int| 0 <= i < rest.len() && (#[trigger] rest[i]).to == x;
                assert(moves[i].to == x);
            }
        }
        assert(!receives(rest, m.from)) by {
            if receives(rest, m.from) {
                let i = choose|i: int| 0 <= i < rest.len() && (#[trigger] rest[i]).to == m.from;
                assert(moves[i].to == m.from);
            }
        }
        assert forall|i: int| 0 <= i < moves.len() implies after[(#[trigger] moves[i]).to]
            == fs[moves[i].from] by {
            if i < rest.len() {
                assert(rest[i].to == moves[i].to);
                assert(moves[i].to != m.to);
            }
        }
    }
}

/// Whether a name can stand for a file in a directory.
pub open spec fn is_name(s: Seq<char>) -> bool {
    !s.contains('/')
}

proof fn lemma_base_is_name(path: Seq<char>, i: nat)
    ensures
        is_name(base_of(path, i)),
{
    let b = base_of(path, i);
    reveal_strlit("file");
    match paths::file_name_of(path) {
        Some(name) => {
            let t = paths::settled_of(path);
            text::lemma_last_index(t, '/');
            let k = text::last_index(t, '/') + 1;
            assert forall|j: int| 0 <= j < b.len() implies b[j] != '/' by {
                assert(b[j] == t[k + j]);
            }
        },
        None => {
            number::lemma_decimal_digits(i);
            assert forall|j: int| 0 <= j < b.len() implies b[j] != '/' by {
                if j >= 4 {
                    assert(b[j] == number::decimal(i)[j - 4]);
                }
            }
        },
    }
}

proof fn lemma_stashed(wanted: Seq<Seq<char>>, present: Seq<bool>, n: int)
    requires
        0 <= n <= wanted.len(),
    ensures
        ({
            let files = stashed_of(wanted, present, n);
            &&& files.len() <= n
            &&& forall|k: int|
                0 <= k < files.len() ==> is_name((#[trigger] files[k]).stored) && exists|i: int|
                    0 <= i < n && present[i] && #[trigger] wanted[i] == files[k].original
            &&& forall|j: int, k: int|
                0 <= j < k < files.len() ==> (#[trigger] files[j]).original != (
                #[trigger] files[k]).original
        }),
    decreases n,
{
    if n > 0 {
        lemma_stashed(wanted, present, n - 1);
        let before = stashed_of(wanted, present, n - 1);
        let files = stashed_of(wanted, present, n);
        let path = wanted[n - 1];
        let i = (n - 1) as nat;
        if present[n - 1] && !is_original(before, path) {
            let stored = stored_name_of(before, base_of(path, i), i);
            lemma_base_is_name(path, i);
            number::lemma_decimal_digits(i);
            reveal_strlit("-");
            let d = number::decimal(i);
            assert(!stored.contains('/')) by {
                assert forall|j: int| 0 <= j < stored.len() implies stored[j] != '/' by {
                    if is_stored(before, base_of(path, i)) {
                        if j < d.len() {
                            assert(stored[j] == d[j]);
                        } else if j > d.len() {
                            assert(stored[j] == base_of(path, i)[j - d.len() - 1]);
                        }
                    }
                }
            }
            assert(files == before.push(FileView { stored, original: path }));
            assert forall|k: int| 0 <= k < files.len() implies is_name(
                (#[trigger] files[k]).stored,
            ) && exists|i: int|
                0 <= i < n && present[i] && #[trigger] wanted[i] == files[k].original by {
                if k < before.len() {
                    assert(files[k] == before[k]);
                    let w = choose|i: int|
                        0 <= i < n - 1 && present[i] && #[trigger] wanted[i] == before[k].original;
                    assert(wanted[w] == files[k].original);
                } else {
                    assert(wanted[n - 1] == files[k].original);
                }
            }
            assert forall|j: int, k: int| 0 <= j < k < files.len() implies (
            #[trigger] files[j]).original != (#[trigger] files[k]).original by {
                assert(files[j] == before[j]);
                if k < before.len() {
                    assert(files[k] == before[k]);
                }
            }
        } else {
            assert(files == before);
            assert forall|k: int| 0 <= k < files.len() implies is_name(
                (#[trigger] files[k]).stored,
            ) && exists|i: int|
                0 <= i < n && present[i] && #[trigger] wanted[i] == files[k].original by {
                let w = choose|i: int|
                    0 <= i < n - 1 && present[i] && #[trigger] wanted[i] == before[k].original;
                assert(wanted[w] == files[k].original);
            }
        }
    }
}

proof fn lemma_present_is_stashed(wanted: Seq<Seq<char>>, present: Seq<bool>, n: int, i: int)
    requires
        0 <= i < n <= wanted.len(),
        present[i],
    ensures
        is_original(stashed_of(wanted, present, n), wanted[i]),
    decreases n,
{
    let before = stashed_of(wanted, present, n - 1);
    let files = stashed_of(wanted, present, n);
    if i < n - 1 {
        lemma_present_is_stashed(wanted, present, n - 1, i);
        let k = choose|k: int|
            0 <= k < before.len() && (#[trigger] before[k]).original == wanted[i];
        assert(files[k] == before[k]);
    } else if !is_original(before, wanted[i]) {
        assert(files[before.len() as int].original == wanted[i]);
    }
}

proof fn lemma_join_injective(dir: Seq<char>, a: Seq<char>, b: Seq<char>)
    requires
        is_name(a),
        is_name(b),
        paths::join_of(dir, a) == paths::join_of(dir, b),
    ensures
        a == b,
{
    let head = if dir.len() == 0 {
        seq![]
    } else if dir.last() == '/' {
        dir
    } else {
        dir + "/"@
    };
    if a.len() > 0 {
        assert(a.contains(a[0]));
    }
    if b.len() > 0 {
        assert(b.contains(b[0]));
    }
    assert(paths::join_of(dir, a) =~= head + a);
    assert(paths::join_of(dir, b) =~= head + b);
    assert((head + a).skip(head.len() as int) =~= a);
    assert((head + b).skip(head.len() as int) =~= b);
}

/// Moving the files of a request into a fresh directory takes different files
/// to different free places.
proof fn lemma_stash_is_clean(
    fs: Map<Seq<char>, Seq<u8>>,
    dir: Seq<char>,
    wanted: Seq<Seq<char>>,
    present: Seq<bool>,
)
    requires
        present == Seq::new(wanted.len(), |i: int| fs.contains_key(wanted[i])),
        forall|name: Seq<char>|
            is_name(name) ==> !fs.contains_key(#[trigger] paths::join_of(dir, name)),
        ({
            let files = stashed_of(wanted, present, wanted.len() as int);
            forall|i: int, j: int|
                0 <= i < j < files.len() ==> (#[trigger] files[i]).stored != (
                #[trigger] files[j]).stored
        }),
    ensures
        is_clean(fs, moves_in(dir, stashed_of(wanted, present, wanted.len() as int))),
{
    let n = wanted.len() as int;
    let files = stashed_of(wanted, present, n);
    let ins = moves_in(dir, files);
    lemma_stashed(wanted, present, n);
    assert forall|i: int| 0 <= i < ins.len() implies fs.contains_key((#[trigger] ins[i]).from)
        && !fs.contains_key(ins[i].to) by {
        assert(ins[i].from == files[i].original);
        let w = choose|w: int|
            0 <= w < n && present[w] && #[trigger] wanted[w] == files[i].original;
        assert(fs.contains_key(wanted[w]));
        assert(is_name(files[i].stored));
    }
    assert forall|i: int, j: int| 0 <= i < j < ins.len() implies (#[trigger] ins[i]).from != (
    #[trigger] ins[j]).from && ins[i].to != ins[j].to by {
        assert(files[i].original != files[j].original);
        if ins[i].to == ins[j].to {
            assert(is_name(files[i].stored) && is_name(files[j].stored));
            lemma_join_injective(dir, files[i].stored, files[j].stored);
        }
    }
}

/// The first of some moves comes before the others.
proof fn lemma_first_move(fs: Map<Seq<char>, Seq<u8>>, m: MoveView, rest: Seq<MoveView>)
    ensures
        all_moved(fs, seq![m] + rest) == all_moved(moved(fs, m), rest),
    decreases rest.len(),
{
    let all = seq![m] + rest;
    if rest.len() == 0 {
        assert(all.drop_last() =~= seq![]);
        assert(all.last() == m);
        reveal_with_fuel(all_moved, 2);
    } else {
        lemma_first_move(fs, m, rest.drop_last());
        assert(all.drop_last() =~= seq![m] + rest.drop_last());
        assert(all.last() == rest.last());
    }
}

proof fn lemma_undone(fs: Map<Seq<char>, Seq<u8>>, moves: Seq<MoveView>, n: int)
    requires
        0 <= n <= moves.len(),
        is_clean(fs, moves),
    ensures
        all_moved(all_moved(fs, moves.take(n)), undone_of(moves, n)) == fs,
    decreases n,
{
    if n == 0 {
        assert(moves.take(0) =~= seq![]);
    } else {
        let less = moves.take(n - 1);
        let more = moves.take(n);
        let m = moves[n - 1];
        let back = MoveView { from: m.to, to: m.from };
        assert(more.drop_last() =~= less);
        assert(more.last() == m);
        assert forall|i: int| 0 <= i < less.len() implies #[trigger] less[i] == moves[i] by {}
        assert(is_clean(fs, less));
        lemma_all_moved(fs, less);
        lemma_undone(fs, moves, n - 1);
        let before = all_moved(fs, less);
        if leaves(less, m.from) {
            let i = choose|i: int| 0 <= i < less.len() && (#[trigger] less[i]).from == m.from;
            assert(moves[i].from != moves[n - 1].from);
        }
        if receives(less, m.to) {
            let i = choose|i: int| 0 <= i < less.len() && (#[trigger] less[i]).to == m.to;
            assert(moves[i].to != moves[n - 1].to);
        }
        assert(before.contains_key(m.from) && !before.contains_key(m.to));
        assert(moved(moved(before, m), back) =~= before);
        lemma_first_move(all_moved(fs, more), back, undone_of(moves, n - 1));
    }
}

/// A removal moves all of its files or none: where only the first `done` of
/// the files of a request were moved into a fresh entry directory, undoing
/// those moves leaves every file of the file system as it was.
///
/// This holds as long as no two files are stored under one name.
pub proof fn law_undoing_a_partial_stash(
    fs: Map<Seq<char>, Seq<u8>>,
    trash: Trash,
    id: Seq<char>,
    wanted: Seq<Seq<char>>,
    present: Seq<bool>,
    done: int,
)
    requires
        present == Seq::new(wanted.len(), |i: int| fs.contains_key(wanted[i])),
        forall|name: Seq<char>|
            is_name(name) ==> !fs.contains_key(
                #[trigger] paths::join_of(trash.dir_of(id), name),
            ),
        ({
            let files = stashed_of(wanted, present, wanted.len() as int);
            &&& 0 <= done <= files.len()
            &&& forall|i: int, j: int|
                0 <= i < j < files.len() ==> (#[trigger] files[i]).stored != (
                #[trigger] files[j]).stored
        }),
    ensures
        ({
            let moves = moves_in(
                trash.dir_of(id),
                stashed_of(wanted, present, wanted.len() as int),
            );
            all_moved(all_moved(fs, moves.take(done)), undone_of(moves, done)) == fs
        }),
{
    let dir = trash.dir_of(id);
    lemma_stash_is_clean(fs, dir, wanted, present);
    lemma_undone(fs, moves_in(dir, stashed_of(wanted, present, wanted.len() as int)), done);
}

/// A removal can be undone: where the files of a request were moved into a
/// fresh entry directory with its record beside them, moving them back and
/// dropping the record leaves every file of the file system as it was. While
/// they are in the trash, each of them holds what it held, and nothing is at
/// its old path.
///
/// This holds as long as no two files are stored under one name and none
/// under the record's.
pub proof fn law_restore_undoes_stash(
    fs: Map<Seq<char>, Seq<u8>>,
    trash: Trash,
    id: Seq<char>,
    wanted: Seq<Seq<char>>,
    present: Seq<bool>,
    record: Seq<u8>,
)
    requires
        present == Seq::new(wanted.len(), |i: int| fs.contains_key(wanted[i])),
        forall|name: Seq<char>|
            is_name(name) ==> !fs.contains_key(
                #[trigger] paths::join_of(trash.dir_of(id), name),
            ),
        ({
            let files = stashed_of(wanted, present, wanted.len() as int);
            &&& !is_stored(files, META_NAME@)
            &&& forall|i: int, j: int|
                0 <= i < j < files.len() ==> (#[trigger] files[i]).stored != (
                #[trigger] files[j]).stored
        }),
    ensures
        ({
            let files = stashed_of(wanted, present, wanted.len() as int);
            let dir = trash.dir_of(id);
            let there = trash.record_of(id);
            let during = all_moved(fs, moves_in(dir, files)).insert(there, record);
            &&& forall|i: int|
                0 <= i < wanted.len() && fs.contains_key(#[trigger] wanted[i])
                    ==> !during.contains_key(wanted[i])
            &&& forall|i: int|
                0 <= i < files.len() ==> during[paths::join_of(dir, (#[trigger] files[i]).stored)]
                    == fs[files[i].original]
            &&& all_moved(during, moves_out(dir, files)).remove(there) == fs
        }),
{
    let n = wanted.len() as int;
    let files = stashed_of(wanted, present, n);
    let dir = trash.dir_of(id);
    let there = trash.record_of(id);
    let ins = moves_in(dir, files);
    let outs = moves_out(dir, files);
    lemma_stashed(wanted, present, n);
    reveal_strlit("meta");
    assert(is_name(META_NAME@)) by {
        assert forall|j: int| 0 <= j < META_NAME@.len() implies META_NAME@[j] != '/' by {}
    }
    lemma_stash_is_clean(fs, dir, wanted, present);
    assert forall|i: int| 0 <= i < files.len() implies fs.contains_key(
        (#[trigger] files[i]).original,
    ) && !fs.contains_key(ins[i].to) && ins[i].to != there by {
        assert(ins[i].from == files[i].original);
        assert(is_name(files[i].stored));
        if ins[i].to == there {
            lemma_join_injective(dir, files[i].stored, META_NAME@);
            assert(is_stored(files, META_NAME@));
        }
    }
    lemma_all_moved(fs, ins);
    let mid = all_moved(fs, ins);
    let during = mid.insert(there, record);
    assert(!fs.contains_key(there));
    assert forall|i: int| 0 <= i < files.len() implies !during.contains_key(
        (#[trigger] files[i]).original,
    ) && during.contains_key(outs[i].from) && during[outs[i].from] == fs[files[i].original] by {
        assert(ins[i].from == files[i].original);
        assert(leaves(ins, files[i].original));
        assert(receives(ins, ins[i].to));
        if receives(ins, files[i].original) {
            let k = choose|k: int|
                0 <= k < ins.len() && (#[trigger] ins[k]).to == files[i].original;
            assert(!fs.contains_key(ins[k].to));
        }
        assert(outs[i].from == ins[i].to);
    }
    assert(is_clean(during, outs)) by {
        assert forall|i: int| 0 <= i < outs.len() implies during.contains_key(
            (#[trigger] outs[i]).from,
        ) && !during.contains_key(outs[i].to) by {
            assert(outs[i].to == files[i].original);
        }
        assert forall|i: int, j: int| 0 <= i < j < outs.len() implies (#[trigger] outs[i]).from != (
        #[trigger] outs[j]).from && outs[i].to != outs[j].to by {
            assert(ins[i].to != ins[j].to);
            assert(files[i].original != files[j].original);
        }
    }
    lemma_all_moved(during, outs);
    let after = all_moved(during, outs).remove(there);
    assert forall|x: Seq<char>| #![auto] leaves(outs, x) == receives(ins, x) && receives(outs, x)
        == leaves(ins, x) by {
        if leaves(outs, x) {
            let i = choose|i: int| 0 <= i < outs.len() && (#[trigger] outs[i]).from == x;
            assert(ins[i].to == x);
        }
        if receives(ins, x) {
            let i = choose|i: int| 0 <= i < ins.len() && (#[trigger] ins[i]).to == x;
            assert(outs[i].from == x);
        }
        if receives(outs, x) {
            let i = choose|i: int| 0 <= i < outs.len() && (#[trigger] outs[i]).to == x;
            assert(ins[i].from == x);
        }
        if leaves(ins, x) {
            let i = choose|i: int| 0 <= i < ins.len() && (#[trigger] ins[i]).from == x;
            assert(outs[i].to == x);
        }
    }
    assert forall|x: Seq<char>| leaves(ins, x) implies fs.contains_key(x) && after.contains_key(x)
        && after[x] == fs[x] by {
        let i = choose|i: int| 0 <= i < ins.len() && (#[trigger] ins[i]).from == x;
        assert(outs[i].to == x);
        assert(files[i].original == x);
    }
    assert forall|x: Seq<char>| receives(ins, x) implies !fs.contains_key(x) by {
        let i = choose|i: int| 0 <= i < ins.len() && (#[trigger] ins[i]).to == x;
    }
    assert(after =~= fs);
    assert forall|i: int|
        0 <= i < wanted.len() && fs.contains_key(
            #[trigger] wanted[i],
        ) implies !during.contains_key(wanted[i]) by {
        assert(present[i]);
        lemma_present_is_stashed(wanted, present, n, i);
        let k = choose|k: int| 0 <= k < files.len() && (#[trigger] files[k]).original == wanted[i];
        assert(!during.contains_key(files[k].original));
    }
}

/// Files whose names differ, as those of one directory do, keep their names
/// in the trash: no two of them are stored under one.
pub proof fn law_own_names_are_kept(wanted: Seq<Seq<char>>, present: Seq<bool>, n: int)
    requires
        0 <= n <= wanted.len(),
        forall|i: int, j: int|
            0 <= i < j < n ==> base_of(#[trigger] wanted[i], i as nat) != base_of(
                #[trigger] wanted[j],
                j as nat,
            ),
    ensures
        ({
            let files = stashed_of(wanted, present, n);
            &&& forall|k: int|
                0 <= k < files.len() ==> exists|i: int|
                    0 <= i < n && #[trigger] wanted[i] == (#[trigger] files[k]).original
                        && files[k].stored == base_of(wanted[i], i as nat)
            &&& forall|j: int, k: int|
                0 <= j < k < files.len() ==> (#[trigger] files[j]).stored != (
                #[trigger] files[k]).stored
        }),
    decreases n,
{
    if n > 0 {
        law_own_names_are_kept(wanted, present, n - 1);
        let before = stashed_of(wanted, present, n - 1);
        let files = stashed_of(wanted, present, n);
        let path = wanted[n - 1];
        let base = base_of(path, (n - 1) as nat);
        assert(!is_stored(before, base)) by {
            if is_stored(before, base) {
                let k = choose|k: int| 0 <= k < before.len() && (#[trigger] before[k]).stored == base;
                let i = choose|i: int|
                    0 <= i < n - 1 && #[trigger] wanted[i] == before[k].original
                        && before[k].stored == base_of(wanted[i], i as nat);
                assert(base_of(wanted[i], i as nat) != base_of(wanted[n - 1], (n - 1) as nat));
            }
        }
        assert forall|k: int| 0 <= k < files.len() implies exists|i: int|
            0 <= i < n && #[trigger] wanted[i] == (#[trigger] files[k]).original && files[k].stored
                == base_of(wanted[i], i as nat) by {
            if k < before.len() {
                assert(files[k] == before[k]);
                let i = choose|i: int|
                    0 <= i < n - 1 && #[trigger] wanted[i] == before[k].original
                        && before[k].stored == base_of(wanted[i], i as nat);
                assert(wanted[i] == files[k].original);
            } else {
                assert(wanted[n - 1] == files[k].original);
            }
        }
        assert forall|j: int, k: int| 0 <= j < k < files.len() implies (#[trigger] files[j]).stored
            != (#[trigger] files[k]).stored by {
            assert(files[j] == before[j]);
            if k < before.len() {
                assert(files[k] == before[k]);
            } else {
                assert(files[k].stored == base);
            }
        }
    }
}

// ---------------------------------------------------------------------------
// What stands in the way of restoring
// ---------------------------------------------------------------------------

/// A file stands in the way exactly if something is at its old place.
pub proof fn law_conflicts_are_what_exists(
    files: Seq<FileView>,
    exists_now: Seq<bool>,
    n: int,
    path: Seq<char>,
)
    requires
        0 <= n <= files.len(),
        files.len() == exists_now.len(),
    ensures
        in_the_way(files, exists_now, n).contains(path) <==> exists|i: int|
            0 <= i < n && exists_now[i] && (#[trigger] files[i]).original == path,
    decreases n,
{
    let all = in_the_way(files, exists_now, n);
    if n > 0 {
        let rest = in_the_way(files, exists_now, n - 1);
        law_conflicts_are_what_exists(files, exists_now, n - 1, path);
        if all.contains(path) {
            let k = choose|k: int| 0 <= k < all.len() && all[k] == path;
            if k < rest.len() {
                assert(rest[k] == path);
            } else {
                assert(files[n - 1].original == path);
            }
        }
        if exists|i: int| 0 <= i < n && exists_now[i] && (#[trigger] files[i]).original == path {
            let i = choose|i: int|
                0 <= i < n && exists_now[i] && (#[trigger] files[i]).original == path;
            if i < n - 1 {
                let k = choose|k: int| 0 <= k < rest.len() && rest[k] == path;
                assert(all[k] == path);
            } else {
                assert(all[rest.len() as int] == path);
            }
        }
    }
}

/// The name of an entry tells when the unit was removed, and entries of one
/// moment have names that differ.
pub proof fn law_entry_names_tell_the_time(unit: Seq<char>, now: int, n: nat, k: nat)
    ensures
        civil::compact_of(now).is_prefix_of(entry_name_of(unit, now, n)),
        n != k ==> entry_name_of(unit, now, n) != entry_name_of(unit, now, k),
{
    let c = civil::compact_of(now);
    let a = entry_name_of(unit, now, n);
    let b = entry_name_of(unit, now, k);
    assert(a.take(c.len() as int) =~= c);
    let base = c + "-"@ + slug_of(unit);
    reveal_strlit("-");
    number::lemma_decimal_digits(n);
    number::lemma_decimal_digits(k);
    number::lemma_decimal_value(n);
    number::lemma_decimal_value(k);
    if n != k && a == b {
        if n > 0 && k > 0 {
            assert(a.skip(base.len() as int + 1) =~= number::decimal(n));
            assert(b.skip(base.len() as int + 1) =~= number::decimal(k));
        } else if n > 0 {
            assert(a.len() > base.len());
        } else {
            assert(b.len() > base.len());
        }
    }
}

} // verus!
