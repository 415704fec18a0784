//! Completion sources for the builder's text fields.
//!
//! A caller asks for the completions of a partially typed string and gets
//! back the candidates plus the longest common prefix, which is the standard
//! tab-completion contract: complete to the common prefix first, list on the
//! second tab. What a directory or an account file holds is handed in.

use crate::calendar;
use crate::number;
use crate::order;
use crate::parts;
use crate::paths;
use crate::text;
use vstd::prelude::*;

verus! {

broadcast use vstd::string::group_string_axioms;

/// The result of completing a partial input.
#[derive(Debug, PartialEq, Eq)]
pub struct Completion {
    /// Every candidate, sorted, each a full replacement for the input.
    pub candidates: Vec<String>,
    /// The longest string every candidate starts with, also a full
    /// replacement for the input. Equal to the input when nothing matched,
    /// and equal to the single candidate when exactly one matched.
    pub common: String,
}

/// The contents of a [`Completion`].
#[verifier::ext_equal]
pub struct CompletionView {
    pub candidates: Seq<Seq<char>>,
    pub common: Seq<char>,
}

impl View for Completion {
    type V = CompletionView;

    open spec fn view(&self) -> CompletionView {
        CompletionView { candidates: text::texts(self.candidates@), common: self.common@ }
    }
}

impl Clone for Completion {
    fn clone(&self) -> (r: Completion)
        ensures
            r@ == self@,
    {
        Completion {
            candidates: text::clone_strings(&self.candidates),
            common: self.common.clone(),
        }
    }
}

impl Default for Completion {
    fn default() -> (r: Completion)
        ensures
            r@ == (CompletionView { candidates: seq![], common: seq![] }),
    {
        let r = Completion { candidates: Vec::new(), common: String::new() };
        assert(r@.candidates =~= seq![]);
        assert(r@.common =~= seq![]);
        r
    }
}

impl Completion {
    pub fn is_empty(&self) -> (r: bool)
        ensures
            r == (self@.candidates.len() == 0),
    {
        self.candidates.len() == 0
    }

    /// True when the input is already complete and unambiguous.
    pub fn is_unique(&self) -> (r: bool)
        ensures
            r == (self@.candidates.len() == 1),
    {
        self.candidates.len() == 1
    }
}

// ---------------------------------------------------------------------------
// Common prefixes
// ---------------------------------------------------------------------------

/// Whether every string starts with `p`.
pub open spec fn is_common_prefix(p: Seq<char>, items: Seq<Seq<char>>) -> bool {
    forall|i: int| 0 <= i < items.len() ==> p.is_prefix_of(#[trigger] items[i])
}

/// Whether `p` is the longest string that every one of `items` starts with.
pub open spec fn is_longest_common(p: Seq<char>, items: Seq<Seq<char>>) -> bool {
    &&& is_common_prefix(p, items)
    &&& forall|q: Seq<char>| #[trigger] is_common_prefix(q, items) ==> q.len() <= p.len()
}

/// Whether `c` is what completing `input` with these matches gives.
pub open spec fn is_completion(c: CompletionView, matches: Seq<Seq<char>>, input: Seq<char>) -> bool {
    &&& c.candidates == order::sorted_of(matches)
    &&& if matches.len() == 0 {
        c.common == input
    } else {
        is_longest_common(c.common, matches)
    }
}

/// How many leading characters two strings share.
fn shared(a: &[char], b: &[char], limit: usize) -> (r: usize)
    requires
        limit <= a@.len(),
    ensures
        r <= limit,
        r <= b@.len(),
        a@.take(r as int) == b@.take(r as int),
        r < limit && r < b@.len() ==> a@[r as int] != b@[r as int],
{
    let mut i: usize = 0;
    while i < limit && i < b.len() && a[i] == b[i]
        invariant
            i <= limit <= a@.len(),
            i <= b@.len(),
            forall|k: int| 0 <= k < i ==> a@[k] == b@[k],
        decreases limit - i,
    {
        i += 1;
    }
    assert(a@.take(i as int) =~= b@.take(i as int));
    i
}

/// The longest prefix shared by every string, or `None` for an empty slice.
pub fn longest_common_prefix(items: &[String]) -> (r: Option<String>)
    ensures
        match r {
            None => items@.len() == 0,
            Some(p) => items@.len() > 0 && is_longest_common(p@, text::texts(items@)),
        },
{
    if items.len() == 0 {
        return None;
    }
    let ghost all = text::texts(items@);
    let first = text::chars_of(items[0].as_str());
    let mut len: usize = first.len();
    let mut i: usize = 1;
    assert(first@ == all[0]);
    assert(all[0].take(len as int) =~= all[0]);
    while i < items.len()
        invariant
            1 <= i <= items@.len(),
            all == text::texts(items@),
            first@ == all[0],
            len <= first@.len(),
            forall|k: int|
                0 <= k < i ==> len <= (#[trigger] all[k]).len() && all[k].take(len as int)
                    == all[0].take(len as int),
            forall|q: Seq<char>| #[trigger] is_common_prefix(q, all) ==> q.len() <= len,
        decreases items@.len() - i,
    {
        let other = text::chars_of(items[i].as_str());
        assert(other@ == all[i as int]);
        let n = shared(&first, &other, len);
        proof {
            assert forall|k: int| 0 <= k < i + 1 implies n <= (#[trigger] all[k]).len()
                && all[k].take(n as int) == all[0].take(n as int) by {
                if k < i {
                    assert(all[k].take(n as int) =~= all[k].take(len as int).take(n as int));
                    assert(all[0].take(n as int) =~= all[0].take(len as int).take(n as int));
                }
            }
            assert forall|q: Seq<char>| #[trigger] is_common_prefix(q, all) implies q.len() <= n by {
                assert(q.is_prefix_of(all[0]));
                assert(q.is_prefix_of(all[i as int]));
                if q.len() > n {
                    assert(q[n as int] == all[0][n as int]);
                    assert(q[n as int] == all[i as int][n as int]);
                }
            }
        }
        len = n;
        i += 1;
    }
    let p = items[0].as_str().substring_char(0, len).to_owned();
    proof {
        assert(p@ =~= all[0].take(len as int));
        assert forall|k: int| 0 <= k < all.len() implies p@.is_prefix_of(#[trigger] all[k]) by {
            assert(all[k].take(len as int) == p@);
            assert(p@ =~= all[k].subrange(0, p@.len() as int));
        }
    }
    Some(p)
}

/// Build a [`Completion`] from matches plus the input to fall back on.
fn assemble(matches: &[String], input: &str) -> (r: Completion)
    ensures
        is_completion(r@, text::texts(matches@), input@),
{
    let candidates = order::sorted(matches);
    let ghost all = text::texts(matches@);
    let ghost kept = text::texts(candidates@);
    proof {
        order::law_sorted(all);
        lemma_common_of_sorted(all);
    }
    let common = match longest_common_prefix(&candidates) {
        Some(p) => p,
        None => input.to_owned(),
    };
    proof {
        if all.len() > 0 {
            assert(all.contains(all[0]));
            assert(kept.contains(all[0]));
            assert(is_longest_common(common@, all)) by {
                assert forall|q: Seq<char>| #[trigger] is_common_prefix(q, all) implies q.len()
                    <= common@.len() by {
                    assert(is_common_prefix(q, kept));
                }
            }
        } else if kept.len() > 0 {
            assert(kept.contains(kept[0]));
        }
    }
    Completion { candidates, common }
}

/// Sorting does not change which prefixes are common.
proof fn lemma_common_of_sorted(s: Seq<Seq<char>>)
    ensures
        forall|q: Seq<char>| #[trigger]
            is_common_prefix(q, order::sorted_of(s)) == is_common_prefix(q, s),
{
    order::law_sorted(s);
    let t = order::sorted_of(s);
    assert forall|q: Seq<char>| #[trigger] is_common_prefix(q, t) == is_common_prefix(q, s) by {
        if is_common_prefix(q, t) {
            assert forall|i: int| 0 <= i < s.len() implies q.is_prefix_of(#[trigger] s[i]) by {
                assert(s.contains(s[i]));
                assert(t.contains(s[i]));
                let k = choose|k: int| 0 <= k < t.len() && t[k] == s[i];
                assert(q.is_prefix_of(t[k]));
            }
        }
        if is_common_prefix(q, s) {
            assert forall|i: int| 0 <= i < t.len() implies q.is_prefix_of(#[trigger] t[i]) by {
                assert(t.contains(t[i]));
                assert(s.contains(t[i]));
                let k = choose|k: int| 0 <= k < s.len() && s[k] == t[i];
                assert(q.is_prefix_of(s[k]));
            }
        }
    }
}

/// A single match is completed in full.
pub proof fn law_unique_match_completes(c: CompletionView, m: Seq<char>, input: Seq<char>)
    requires
        is_completion(c, seq![m], input),
    ensures
        c.candidates == seq![m],
        c.common == m,
{
    let s = seq![m];
    assert(s.drop_last() =~= seq![]);
    reveal_with_fuel(order::sorted_of, 2);
    assert(s[0] == m);
    assert(c.common.is_prefix_of(m));
    assert(is_common_prefix(m, s));
    assert(c.common =~= m);
}

/// Where every match continues the input, so does what it is completed to.
pub proof fn law_completion_extends_the_input(
    c: CompletionView,
    matches: Seq<Seq<char>>,
    input: Seq<char>,
)
    requires
        is_completion(c, matches, input),
        is_common_prefix(input, matches),
    ensures
        input.is_prefix_of(c.common),
{
    if matches.len() > 0 {
        assert(input.is_prefix_of(matches[0]));
        assert(c.common.is_prefix_of(matches[0]));
        assert(input.len() <= c.common.len());
        assert(input =~= c.common.subrange(0, input.len() as int));
    } else {
        assert(input =~= c.common.subrange(0, input.len() as int));
    }
}

// ---------------------------------------------------------------------------
// Paths
// ---------------------------------------------------------------------------

/// A path with a leading `~` or `~/` taken from the home directory.
pub open spec fn expand_tilde_of(s: Seq<char>, home: Seq<char>) -> Seq<char> {
    if s == "~"@ {
        home
    } else {
        match text::after_prefix(s, "~/"@) {
            Some(rest) => paths::join_of(home, rest),
            None => s,
        }
    }
}

/// Expand a leading `~` or `~/` against the home directory. Other users'
/// homes (`~bob`) are deliberately not expanded.
pub fn expand_tilde(s: &str, home: &str) -> (r: String)
    ensures
        r@ == expand_tilde_of(s@, home@),
{
    if text::same(s, "~") {
        return home.to_owned();
    }
    match text::strip_prefix(s, "~/") {
        Some(rest) => paths::join(home, rest),
        None => s.to_owned(),
    }
}

/// The directory part of a partial path, up to and with its last `/`.
pub open spec fn dir_part_of(partial: Seq<char>) -> Seq<char> {
    match parts::rsplit_once_of(partial, '/') {
        Some((dir, _)) => dir + "/"@,
        None => seq![],
    }
}

/// The part of a partial path that a name has to start with.
pub open spec fn base_part_of(partial: Seq<char>) -> Seq<char> {
    match parts::rsplit_once_of(partial, '/') {
        Some((_, base)) => base,
        None => partial,
    }
}

/// Split a partial path into (directory to list, filename prefix to match).
/// A trailing `/` means "list this directory", with an empty prefix.
fn split_partial(partial: &str) -> (r: (String, String))
    ensures
        r.0@ == dir_part_of(partial@),
        r.1@ == base_part_of(partial@),
{
    match parts::rsplit_once(partial, '/') {
        Some((dir, base)) => (text::cat2(dir, "/"), base.to_owned()),
        None => (String::new(), partial.to_owned()),
    }
}

/// The directory to read for completing a partial path: tilde-expanded, and
/// `.` where the path names none.
pub fn lookup_dir(partial: &str, home: &str) -> (r: String)
    ensures
        r@ == if dir_part_of(partial@).len() == 0 {
            "."@
        } else {
            expand_tilde_of(dir_part_of(partial@), home@)
        },
{
    let (dir, _) = split_partial(partial);
    if dir.as_str().is_empty() {
        ".".to_owned()
    } else {
        expand_tilde(dir.as_str(), home)
    }
}

/// One entry of a directory that was read.
#[derive(Debug)]
pub struct Listed {
    pub name: String,
    /// Whether the entry is a directory, a link to one included.
    pub is_dir: bool,
    /// Whether the entry is a file that can be run.
    pub executable: bool,
}

/// Whether a directory entry completes `base`. Hidden entries only show up
/// once the dot has been typed.
pub open spec fn is_offered(e: Listed, base: Seq<char>, dirs_only: bool, runnable: bool) -> bool {
    &&& base.is_prefix_of(e.name@)
    &&& (e.name@.len() > 0 && e.name@[0] == '.' ==> base.len() > 0 && base[0] == '.')
    &&& (dirs_only ==> e.is_dir)
    &&& (runnable ==> e.is_dir || e.executable)
}

/// The path an entry completes to.
pub open spec fn path_of(dir: Seq<char>, e: Listed) -> Seq<char> {
    if e.is_dir {
        dir + e.name@ + "/"@
    } else {
        dir + e.name@
    }
}

/// The paths that a listing offers for a partial one.
pub open spec fn path_matches(
    partial: Seq<char>,
    listing: Seq<Listed>,
    dirs_only: bool,
    runnable: bool,
) -> Seq<Seq<char>>
    decreases listing.len(),
{
    if listing.len() == 0 {
        seq![]
    } else {
        let rest = path_matches(partial, listing.drop_last(), dirs_only, runnable);
        let e = listing.last();
        if is_offered(e, base_part_of(partial), dirs_only, runnable) {
            rest.push(path_of(dir_part_of(partial), e))
        } else {
            rest
        }
    }
}

/// The paths that a listing offers for a partial one; none where the
/// directory could not be read.
pub open spec fn listed_matches(
    partial: Seq<char>,
    listing: Option<Vec<Listed>>,
    dirs_only: bool,
    runnable: bool,
) -> Seq<Seq<char>> {
    match listing {
        Some(v) => path_matches(partial, v@, dirs_only, runnable),
        None => seq![],
    }
}

fn starts_with_dot(s: &str) -> (r: bool)
    ensures
        r == (s@.len() > 0 && s@[0] == '.'),
{
    s.unicode_len() > 0 && s.get_char(0) == '.'
}

fn matching_paths(
    partial: &str,
    listing: &Option<Vec<Listed>>,
    dirs_only: bool,
    runnable: bool,
) -> (r: Vec<String>)
    ensures
        text::texts(r@) == listed_matches(partial@, *listing, dirs_only, runnable),
{
    let mut out: Vec<String> = Vec::new();
    assert(text::texts(out@) =~= seq![]);
    if let Some(v) = listing {
        let (dir, base) = split_partial(partial);
        let hidden = starts_with_dot(base.as_str());
        let mut i: usize = 0;
        assert(v@.take(0) =~= seq![]);
        while i < v.len()
            invariant
                i <= v@.len(),
                dir@ == dir_part_of(partial@),
                base@ == base_part_of(partial@),
                hidden == (base@.len() > 0 && base@[0] == '.'),
                text::texts(out@) == path_matches(
                    partial@,
                    v@.take(i as int),
                    dirs_only,
                    runnable,
                ),
            decreases v@.len() - i,
        {
            proof {
                assert(v@.take(i + 1).drop_last() =~= v@.take(i as int));
                assert(v@.take(i + 1).last() == v@[i as int]);
            }
            let name = v[i].name.as_str();
            if text::starts_with(name, base.as_str()) && (!starts_with_dot(name) || hidden) && (
            !dirs_only || v[i].is_dir) && (!runnable || v[i].is_dir || v[i].executable) {
                let path = if v[i].is_dir {
                    text::cat3(dir.as_str(), name, "/")
                } else {
                    text::cat2(dir.as_str(), name)
                };
                let ghost before = text::texts(out@);
                out.push(path);
                assert(text::texts(out@) =~= before.push(path@));
            }
            i += 1;
        }
        assert(v@.take(v@.len() as int) =~= v@);
    }
    out
}

/// Complete a partial filesystem path from what its directory holds.
///
/// Candidates keep the shape the user typed: a `~/` stays a `~/`, a relative
/// path stays relative. Directories come back with a trailing `/` so a second
/// completion descends into them. An unreadable directory (`None`) yields no
/// candidates rather than an error.
///
/// `dirs_only` restricts the result to directories, for fields like
/// `WorkingDirectory=`.
pub fn complete_path(partial: &str, dirs_only: bool, listing: &Option<Vec<Listed>>) -> (r: Completion)
    ensures
        is_completion(r@, listed_matches(partial@, *listing, dirs_only, false), partial@),
{
    let found = matching_paths(partial, listing, dirs_only, false);
    assemble(&found, partial)
}

/// Complete a partial path to an executable file, for `ExecStart=` fields.
/// Directories stay, so that the user can keep descending.
pub fn complete_executable(partial: &str, listing: &Option<Vec<Listed>>) -> (r: Completion)
    ensures
        is_completion(r@, listed_matches(partial@, *listing, false, true), partial@),
{
    let found = matching_paths(partial, listing, false, true);
    assemble(&found, partial)
}

// ---------------------------------------------------------------------------
// Users and groups
// ---------------------------------------------------------------------------

/// Which accounts to offer.
#[derive(Debug, Clone, Copy, PartialEq, Eq, Structural)]
pub enum Accounts {
    /// Accounts a human could plausibly be running jobs as: `root`, plus
    /// anything with a real login shell and a uid at or above 1000. This is
    /// the default because `User=` on a timer is nearly always a person or a
    /// purpose-built service account, and offering all ~40 of a distro's
    /// system accounts buries them.
    Login,
    /// Every account in the file, system users included -- needed when the
    /// unit really should run as `www-data` or `nobody`.
    All,
}

impl Default for Accounts {
    fn default() -> (r: Accounts)
        ensures
            r == Accounts::Login,
    {
        Accounts::Login
    }
}

/// The last component of a shell's path.
pub open spec fn shell_name(shell: Seq<char>) -> Seq<char> {
    match parts::rsplit_once_of(shell, '/') {
        Some((_, base)) => base,
        None => shell,
    }
}

/// Shells that mean "this account cannot log in".
pub open spec fn is_nologin_of(shell: Seq<char>) -> bool {
    ||| shell.len() == 0
    ||| shell_name(shell) == "nologin"@
    ||| shell_name(shell) == "false"@
    ||| shell_name(shell) == "sync"@
}

fn is_nologin(shell: &str) -> (r: bool)
    ensures
        r == is_nologin_of(shell@),
{
    let base = match parts::rsplit_once(shell, '/') {
        Some((_, b)) => b,
        None => shell,
    };
    shell.is_empty() || text::same(base, "nologin") || text::same(base, "false") || text::same(
        base,
        "sync",
    )
}

/// Whether an id belongs to a person, or to `root`.
pub open spec fn is_personal(id: nat) -> bool {
    id == 0 || (id >= 1000 && id != 65534)
}

/// The name that a line of an account file offers, if it does. A line needs
/// `least` fields, a name and a number in its third field.
pub open spec fn account_of(line: Seq<char>, least: int, shells: bool, which: Accounts) -> Option<
    Seq<char>,
> {
    let t = text::trim_end_of(line);
    let f = parts::split_of(t, ':');
    if t.len() == 0 || t[0] == '#' || f.len() < least || f[0].len() == 0 {
        None
    } else {
        match number::parse_number(f[2], 0xffff_ffff) {
            None => None,
            Some(id) => if which == Accounts::Login && (!is_personal(id) || (shells && id != 0
                && is_nologin_of(f[6]))) {
                None
            } else {
                Some(f[0])
            },
        }
    }
}

/// The names that start with `prefix` among those the lines offer.
pub open spec fn account_names(
    lines: Seq<Seq<char>>,
    prefix: Seq<char>,
    least: int,
    shells: bool,
    which: Accounts,
) -> Seq<Seq<char>>
    decreases lines.len(),
{
    if lines.len() == 0 {
        seq![]
    } else {
        let rest = account_names(lines.drop_last(), prefix, least, shells, which);
        match account_of(lines.last(), least, shells, which) {
            Some(name) => if prefix.is_prefix_of(name) {
                rest.push(name)
            } else {
                rest
            },
            None => rest,
        }
    }
}

fn account(line: &str, least: usize, shells: bool, which: Accounts) -> (r: Option<String>)
    requires
        least >= 3,
        shells ==> least >= 7,
    ensures
        text::opt_text(r) == account_of(line@, least as int, shells, which),
{
    let t = text::trim_end(line);
    if t.unicode_len() == 0 || t.get_char(0) == '#' {
        return None;
    }
    let f = parts::split(t, ':');
    let ghost fields = text::texts(f@);
    assert(fields.len() == f@.len());
    if f.len() < least {
        return None;
    }
    assert(fields[0] == f@[0]@);
    assert(fields[2] == f@[2]@);
    if f[0].as_str().is_empty() {
        return None;
    }
    let id = match number::parse_up_to(f[2].as_str(), 0xffff_ffff) {
        Some(n) => n,
        None => {
            return None;
        },
    };
    if let Accounts::Login = which {
        if id != 0 && (id < 1000 || id == 65534) {
            return None;
        }
        if shells && id != 0 {
            assert(fields[6] == f@[6]@);
            if is_nologin(f[6].as_str()) {
                return None;
            }
        }
    }
    Some(f[0].clone())
}

fn accounts(contents: &str, prefix: &str, least: usize, shells: bool, which: Accounts) -> (r: Vec<
    String,
>)
    requires
        least >= 3,
        shells ==> least >= 7,
    ensures
        text::texts(r@) == account_names(
            parts::lines_of(contents@),
            prefix@,
            least as int,
            shells,
            which,
        ),
{
    let lines = parts::lines(contents);
    let ghost all = text::texts(lines@);
    let mut out: Vec<String> = Vec::new();
    let mut i: usize = 0;
    assert(all.take(0) =~= seq![]);
    assert(text::texts(out@) =~= seq![]);
    while i < lines.len()
        invariant
            i <= lines@.len(),
            all == text::texts(lines@),
            least >= 3,
            shells ==> least >= 7,
            text::texts(out@) == account_names(
                all.take(i as int),
                prefix@,
                least as int,
                shells,
                which,
            ),
        decreases lines@.len() - i,
    {
        proof {
            assert(all.take(i + 1).drop_last() =~= all.take(i as int));
            assert(all.take(i + 1).last() == lines@[i as int]@);
        }
        if let Some(name) = account(lines[i].as_str(), least, shells, which) {
            if text::starts_with(name.as_str(), prefix) {
                let ghost before = text::texts(out@);
                out.push(name);
                assert(text::texts(out@) =~= before.push(name@));
            }
        }
        i += 1;
    }
    assert(all.take(lines@.len() as int) =~= all);
    out
}

/// The user names that passwd contents offer for a prefix.
pub open spec fn users_of(contents: Seq<char>, prefix: Seq<char>, which: Accounts) -> Seq<
    Seq<char>,
> {
    account_names(parts::lines_of(contents), prefix, 7, true, which)
}

/// The group names that group contents offer for a prefix.
pub open spec fn groups_of(contents: Seq<char>, prefix: Seq<char>, which: Accounts) -> Seq<
    Seq<char>,
> {
    account_names(parts::lines_of(contents), prefix, 3, false, which)
}

/// Parse `/etc/passwd` content into matching user names.
///
/// Malformed lines (too few fields, non-numeric uid) and comments are
/// skipped; a corrupt line must not lose the rest of the file.
pub fn users_from_passwd(contents: &str, prefix: &str, which: Accounts) -> (r: Vec<String>)
    ensures
        text::texts(r@) == order::sorted_of(users_of(contents@, prefix@, which)),
{
    let names = accounts(contents, prefix, 7, true, which);
    order::sorted(&names)
}

/// Parse `/etc/group` content into matching group names. Groups have no
/// shell to judge them by, so [`Accounts::Login`] keeps `root` and gid >= 1000.
pub fn groups_from_group(contents: &str, prefix: &str, which: Accounts) -> (r: Vec<String>)
    ensures
        text::texts(r@) == order::sorted_of(groups_of(contents@, prefix@, which)),
{
    let names = accounts(contents, prefix, 3, false, which);
    order::sorted(&names)
}

/// Complete a user name against the contents of `/etc/passwd`.
pub fn complete_user(contents: &str, prefix: &str, which: Accounts) -> (r: Completion)
    ensures
        is_completion(r@, users_of(contents@, prefix@, which), prefix@),
{
    let names = accounts(contents, prefix, 7, true, which);
    assemble(&names, prefix)
}

/// Complete a group name against the contents of `/etc/group`.
pub fn complete_group(contents: &str, prefix: &str, which: Accounts) -> (r: Completion)
    ensures
        is_completion(r@, groups_of(contents@, prefix@, which), prefix@),
{
    let names = accounts(contents, prefix, 3, false, which);
    assemble(&names, prefix)
}

// ---------------------------------------------------------------------------
// Which accounts are offered
// ---------------------------------------------------------------------------

/// Whether jobs of people run under an account: root's, or one with a number
/// of its own and a shell to log in with.
pub open spec fn is_login(id: nat, shell: Seq<char>) -> bool {
    id == 0 || (1000 <= id && id != 65534 && shell != seq!['n', 'o', 'l', 'o', 'g', 'i', 'n']
        && shell != seq!['f', 'a', 'l', 's', 'e'] && shell != seq!['s', 'y', 'n', 'c'])
}

/// A line of the password file names an account: every account is offered on
/// request, and those to log in with otherwise. `dir` and `shell` are the
/// directory and the name of its shell.
pub proof fn law_accounts_are_offered(
    name: Seq<char>,
    id: nat,
    fields: Seq<Seq<char>>,
    dir: Seq<char>,
    shell: Seq<char>,
    which: Accounts,
)
    requires
        name.len() > 0,
        name[0] != '#',
        id <= 0xffff_ffff,
        fields.len() == 4,
        !name.contains(':'),
        forall|i: int| 0 <= i < 4 ==> !(#[trigger] fields[i]).contains(':'),
        !dir.contains(':'),
        !shell.contains(':'),
        !shell.contains('/'),
        shell.len() > 0,
        !text::is_white(shell.last()),
    ensures
        ({
            let line = parts::join_of(
                seq![
                    name,
                    fields[0],
                    number::decimal(id),
                    fields[1],
                    fields[2],
                    fields[3],
                    dir + seq!['/'] + shell,
                ],
                seq![':'],
            );
            account_of(line, 7, true, which) == if which == Accounts::All || is_login(id, shell) {
                Some(name)
            } else {
                None
            }
        }),
{
    let path = dir + seq!['/'] + shell;
    let p = seq![name, fields[0], number::decimal(id), fields[1], fields[2], fields[3], path];
    let sep = seq![':'];
    let line = parts::join_of(p, sep);
    calendar::lemma_decimal(id);
    assert(!number::decimal(id).contains(':'));
    assert(!path.contains(':')) by {
        if path.contains(':') {
            let i = choose|i: int| 0 <= i < path.len() && path[i] == ':';
            if i < dir.len() {
                assert(dir.contains(dir[i]));
            } else if i > dir.len() {
                assert(shell.contains(shell[i - dir.len() - 1]));
            }
        }
    }
    assert forall|i: int| 0 <= i < p.len() implies !(#[trigger] p[i]).contains(':') by {
        assert(i == 0 || i == 1 || i == 2 || i == 3 || i == 4 || i == 5 || i == 6);
    }
    parts::lemma_split_join(p, ':');
    parts::lemma_join_front(p, sep);
    assert(line[0] == name[0]);
    let less = p.drop_last();
    assert(line =~= parts::join_of(less, sep) + sep + path);
    assert(line.last() == shell.last());
    assert(text::trim_end_of(line) == line);
    number::lemma_decimal_parses(id, 0xffff_ffff);
    let k = dir.len() as int;
    assert(path[k] == '/');
    assert forall|j: int| k < j < path.len() implies #[trigger] path[j] != '/' by {
        assert(path[j] == shell[j - k - 1]);
        assert(shell.contains(shell[j - k - 1]));
    }
    text::lemma_last_index_at(path, '/', k);
    assert(path.skip(k + 1) =~= shell);
    assert(shell_name(path) == shell);
    reveal_strlit("nologin");
    reveal_strlit("false");
    reveal_strlit("sync");
    assert("nologin"@ =~= seq!['n', 'o', 'l', 'o', 'g', 'i', 'n']);
    assert("false"@ =~= seq!['f', 'a', 'l', 's', 'e']);
    assert("sync"@ =~= seq!['s', 'y', 'n', 'c']);
}

proof fn lemma_names_found(
    lines: Seq<Seq<char>>,
    prefix: Seq<char>,
    least: int,
    shells: bool,
    which: Accounts,
    name: Seq<char>,
)
    ensures
        account_names(lines, prefix, least, shells, which).contains(name) <==> prefix.is_prefix_of(
            name,
        ) && exists|i: int|
            0 <= i < lines.len() && account_of(#[trigger] lines[i], least, shells, which) == Some(
                name,
            ),
    decreases lines.len(),
{
    let all = account_names(lines, prefix, least, shells, which);
    if lines.len() > 0 {
        let less = lines.drop_last();
        let rest = account_names(less, prefix, least, shells, which);
        lemma_names_found(less, prefix, least, shells, which, name);
        if all.contains(name) {
            let k = choose|k: int| 0 <= k < all.len() && all[k] == name;
            if k < rest.len() {
                assert(rest[k] == name);
                let i = choose|i: int|
                    0 <= i < less.len() && account_of(#[trigger] less[i], least, shells, which)
                        == Some(name);
                assert(lines[i] == less[i]);
            } else {
                assert(lines[lines.len() - 1] == lines.last());
            }
        }
        if prefix.is_prefix_of(name) && exists|i: int|
            0 <= i < lines.len() && account_of(#[trigger] lines[i], least, shells, which) == Some(
                name,
            ) {
            let i = choose|i: int|
                0 <= i < lines.len() && account_of(#[trigger] lines[i], least, shells, which)
                    == Some(name);
            if i < less.len() {
                assert(less[i] == lines[i]);
                let k = choose|k: int| 0 <= k < rest.len() && rest[k] == name;
                assert(all[k] == name);
            } else {
                assert(all[rest.len() as int] == name);
            }
        }
    }
}

/// A user is offered exactly if a line of the file names them and their name
/// starts as was typed.
pub proof fn law_typed_users_are_offered(
    contents: Seq<char>,
    prefix: Seq<char>,
    which: Accounts,
    name: Seq<char>,
)
    ensures
        users_of(contents, prefix, which).contains(name) <==> prefix.is_prefix_of(name) && exists|
            i: int,
        |
            0 <= i < parts::lines_of(contents).len() && account_of(
                #[trigger] parts::lines_of(contents)[i],
                7,
                true,
                which,
            ) == Some(name),
        groups_of(contents, prefix, which).contains(name) <==> prefix.is_prefix_of(name) && exists|
            i: int,
        |
            0 <= i < parts::lines_of(contents).len() && account_of(
                #[trigger] parts::lines_of(contents)[i],
                3,
                false,
                which,
            ) == Some(name),
{
    let lines = parts::lines_of(contents);
    lemma_names_found(lines, prefix, 7, true, which, name);
    lemma_names_found(lines, prefix, 3, false, which, name);
}

/// A tilde stands for the home directory at the start of a path, and nowhere
/// else.
pub proof fn law_tildes_stand_for_home(rest: Seq<char>, home: Seq<char>, s: Seq<char>)
    requires
        home.len() > 0,
        home.last() != '/',
        rest.len() > 0 ==> rest[0] != '/',
    ensures
        expand_tilde_of(seq!['~'], home) == home,
        expand_tilde_of(seq!['~', '/'] + rest, home) == home + seq!['/'] + rest,
        s.len() > 0 && s[0] != '~' ==> expand_tilde_of(s, home) == s,
        s.len() > 1 && s[1] != '/' ==> expand_tilde_of(s, home) == s,
{
    reveal_strlit("~");
    reveal_strlit("~/");
    reveal_strlit("/");
    assert("~"@ =~= seq!['~']);
    assert("~/"@ =~= seq!['~', '/']);
    let t = seq!['~', '/'] + rest;
    assert(t.take(2) =~= "~/"@);
    assert("~/"@.is_prefix_of(t));
    assert(t.skip(2) =~= rest);
    assert(t.len() >= 2);
    assert(expand_tilde_of(t, home) =~= home + seq!['/'] + rest);
    if "~/"@.is_prefix_of(s) {
        assert(s[0] == "~/"@[0] && s[1] == "~/"@[1]);
    }
}

} // verus!
