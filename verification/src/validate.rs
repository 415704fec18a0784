//! Taking command lines apart, and advice on them. The advice never blocks a
//! save: whether a unit can be installed is decided by the unit itself.

use crate::parts;
use crate::strmap::StrMap;
use crate::text;
use crate::unit::escape;
use crate::unit::model::{Body, BodyView, ServiceOpts, ServiceView, Unit, UnitView};
use vstd::prelude::*;

verus! {

broadcast use vstd::string::group_string_axioms;

/// Where a reader of a command line is.
#[derive(Debug, Clone, Copy, PartialEq, Eq, Structural)]
pub enum Quoting {
    Bare,
    Single,
    Double,
}

/// A word that may not have begun yet, with one more character.
pub open spec fn grown(word: Option<Seq<char>>, c: char) -> Option<Seq<char>> {
    Some(begun(word).push(c))
}

/// The characters of a word that may not have begun yet.
pub open spec fn begun(word: Option<Seq<char>>) -> Seq<char> {
    match word {
        Some(w) => w,
        None => seq![],
    }
}

/// The words of the rest of a command line. White space ends a word outside
/// quotes; quotes hold a word together and are not part of it; a backslash
/// takes the next character as it is, except in single quotes.
pub open spec fn words_from(s: Seq<char>, mode: Quoting, word: Option<Seq<char>>) -> Seq<Seq<char>>
    decreases s.len(),
{
    if s.len() == 0 {
        match word {
            Some(w) => seq![w],
            None => seq![],
        }
    } else {
        let c = s[0];
        let rest = s.skip(1);
        if mode == Quoting::Bare && text::is_white(c) {
            match word {
                Some(w) => seq![w] + words_from(rest, mode, None),
                None => words_from(rest, mode, None),
            }
        } else if mode == Quoting::Bare && c == '"' {
            words_from(rest, Quoting::Double, Some(begun(word)))
        } else if mode == Quoting::Bare && c == '\'' {
            words_from(rest, Quoting::Single, Some(begun(word)))
        } else if (mode == Quoting::Double && c == '"') || (mode == Quoting::Single && c == '\'') {
            words_from(rest, Quoting::Bare, word)
        } else if mode != Quoting::Single && c == '\\' && rest.len() > 0 {
            words_from(rest.skip(1), mode, grown(word, rest[0]))
        } else {
            words_from(rest, mode, grown(word, c))
        }
    }
}

/// The words of a command line.
pub open spec fn split_exec_of(line: Seq<char>) -> Seq<Seq<char>> {
    words_from(line, Quoting::Bare, None)
}

fn add_char(word: Option<String>, c: char) -> (r: Option<String>)
    ensures
        text::opt_text(r) == grown(text::opt_text(word), c),
{
    let mut w = match word {
        Some(w) => w,
        None => String::new(),
    };
    w.push(c);
    Some(w)
}

/// Split an `ExecStart=` line into its arguments.
pub fn split_exec(line: &str) -> (r: Vec<String>)
    ensures
        text::texts(r@) == split_exec_of(line@),
{
    let v = text::chars_of(line);
    let n: usize = v.len();
    let mut out: Vec<String> = Vec::new();
    let mut mode = Quoting::Bare;
    let mut word: Option<String> = None;
    let mut i: usize = 0;
    assert(line@.skip(0) =~= line@);
    assert(text::texts(out@) + split_exec_of(line@) =~= split_exec_of(line@));
    while i < n
        invariant
            n == v@.len(),
            v@ == line@,
            i <= n,
            text::texts(out@) + words_from(line@.skip(i as int), mode, text::opt_text(word))
                == split_exec_of(line@),
        decreases n - i,
    {
        let c = v[i];
        let ghost s = line@.skip(i as int);
        let ghost old_word = text::opt_text(word);
        proof {
            assert(s[0] == c);
            assert(s.skip(1) =~= line@.skip(i + 1));
            if i + 1 < n {
                assert(s.skip(1)[0] == v@[i + 1]);
                assert(s.skip(1).skip(1) =~= line@.skip(i + 2));
            }
        }
        let bare = matches!(mode, Quoting::Bare);
        let double = matches!(mode, Quoting::Double);
        let single = matches!(mode, Quoting::Single);
        if bare && text::white(c) {
            let ghost before = text::texts(out@);
            if let Some(w) = word {
                out.push(w);
                proof {
                    assert(text::texts(out@) =~= before.push(w@));
                    let more = words_from(line@.skip(i + 1), mode, None);
                    assert(before + (seq![w@] + more) =~= before.push(w@) + more);
                }
            }
            word = None;
            i += 1;
        } else if bare && (c == '"' || c == '\'') {
            if word.is_none() {
                word = Some(String::new());
            }
            assert(text::opt_text(word) == Some(begun(old_word))) by {
                if old_word is None {
                    assert(text::opt_text(word)->0 =~= begun(old_word));
                }
            }
            mode = if c == '"' {
                Quoting::Double
            } else {
                Quoting::Single
            };
            i += 1;
        } else if (double && c == '"') || (single && c == '\'') {
            mode = Quoting::Bare;
            i += 1;
        } else if !single && c == '\\' && i + 1 < n {
            word = add_char(word, v[i + 1]);
            i += 2;
        } else {
            word = add_char(word, c);
            i += 1;
        }
    }
    assert(line@.skip(n as int) =~= seq![]);
    let ghost before = text::texts(out@);
    match word {
        Some(w) => {
            out.push(w);
            assert(text::texts(out@) =~= before + seq![w@]);
        },
        None => {
            assert(before + seq![] =~= before);
        },
    }
    out
}

// ---------------------------------------------------------------------------
// Quoting and splitting
// ---------------------------------------------------------------------------

/// Arguments as they stand on an `ExecStart=` line, quoted where they need it.
pub open spec fn quoted_of(args: Seq<Seq<char>>) -> Seq<Seq<char>> {
    Seq::new(args.len(), |i: int| escape::exec_quote_of(args[i]))
}

proof fn lemma_backslashed_front(s: Seq<char>)
    requires
        s.len() > 0,
    ensures
        escape::backslashed(s) == (if s[0] == '"' || s[0] == '\\' {
            seq!['\\', s[0]]
        } else {
            seq![s[0]]
        }) + escape::backslashed(s.skip(1)),
    decreases s.len(),
{
    let head = if s[0] == '"' || s[0] == '\\' {
        seq!['\\', s[0]]
    } else {
        seq![s[0]]
    };
    if s.len() == 1 {
        assert(s.drop_last() =~= seq![]);
        assert(s.skip(1) =~= seq![]);
        assert(escape::backslashed(s.drop_last()) =~= seq![]);
        assert(escape::backslashed(s) =~= head + escape::backslashed(s.skip(1)));
    } else {
        lemma_backslashed_front(s.drop_last());
        assert(s.drop_last().skip(1) =~= s.skip(1).drop_last());
        assert(s.skip(1).last() == s.last());
        assert(escape::backslashed(s) =~= head + escape::backslashed(s.skip(1)));
    }
}

/// The inside of a quoted argument, read.
proof fn lemma_read_quoted(s: Seq<char>, rest: Seq<char>, word: Seq<char>)
    ensures
        words_from(
            escape::backslashed(s) + seq!['"'] + rest,
            Quoting::Double,
            Some(word),
        ) == words_from(rest, Quoting::Bare, Some(word + s)),
    decreases s.len(),
{
    let line = escape::backslashed(s) + seq!['"'] + rest;
    if s.len() == 0 {
        assert(line =~= seq!['"'] + rest);
        assert(line.skip(1) =~= rest);
        assert(word + s =~= word);
    } else {
        lemma_backslashed_front(s);
        let t = s.skip(1);
        let more = escape::backslashed(t) + seq!['"'] + rest;
        lemma_read_quoted(t, rest, word.push(s[0]));
        assert(word.push(s[0]) + t =~= word + s);
        if s[0] == '"' || s[0] == '\\' {
            assert(line =~= seq!['\\', s[0]] + more);
            assert(line.skip(1).skip(1) =~= more);
            assert(line.skip(1)[0] == s[0]);
        } else {
            assert(line =~= seq![s[0]] + more);
            assert(line.skip(1) =~= more);
        }
    }
}

/// An argument that needs no quotes, read.
proof fn lemma_read_bare(s: Seq<char>, rest: Seq<char>, word: Option<Seq<char>>)
    requires
        escape::all_bare(s),
        s.len() > 0,
    ensures
        words_from(s + rest, Quoting::Bare, word) == words_from(
            rest,
            Quoting::Bare,
            Some(begun(word) + s),
        ),
    decreases s.len(),
{
    let line = s + rest;
    let t = s.skip(1);
    assert(escape::is_bare(s[0]));
    assert(line[0] == s[0]);
    assert(line.skip(1) =~= t + rest);
    assert(!text::is_white(s[0]));
    if t.len() == 0 {
        assert(t + rest =~= rest);
        assert(begun(word).push(s[0]) =~= begun(word) + s);
    } else {
        assert forall|i: int| 0 <= i < t.len() implies escape::is_bare(#[trigger] t[i]) by {
            assert(t[i] == s[i + 1]);
        }
        lemma_read_bare(t, rest, grown(word, s[0]));
        assert(begun(word).push(s[0]) + t =~= begun(word) + s);
    }
}

/// One quoted argument, read.
proof fn lemma_read_argument(a: Seq<char>, rest: Seq<char>)
    ensures
        words_from(escape::exec_quote_of(a) + rest, Quoting::Bare, None) == words_from(
            rest,
            Quoting::Bare,
            Some(a),
        ),
{
    let none = Seq::<char>::empty();
    if a.len() > 0 && escape::all_bare(a) {
        lemma_read_bare(a, rest, None);
        assert(none + a =~= a);
    } else {
        let line = escape::exec_quote_of(a) + rest;
        let inner = escape::backslashed(a) + seq!['"'] + rest;
        assert(line =~= seq!['"'] + inner);
        assert(line.skip(1) =~= inner);
        lemma_read_quoted(a, rest, none);
        assert(none + a =~= a);
    }
}

/// Splitting a line of quoted arguments gives the arguments back.
pub proof fn law_split_quoted(args: Seq<Seq<char>>)
    ensures
        split_exec_of(parts::join_of(quoted_of(args), " "@)) == args,
    decreases args.len(),
{
    let q = quoted_of(args);
    let line = parts::join_of(q, " "@);
    reveal_strlit(" ");
    let none = Seq::<char>::empty();
    if args.len() == 0 {
        assert(line =~= none);
        assert(split_exec_of(line) =~= args);
    } else if args.len() == 1 {
        lemma_read_argument(args[0], none);
        assert(q[0] + none =~= line);
        assert(split_exec_of(line) =~= args);
    } else {
        let rest = args.skip(1);
        law_split_quoted(rest);
        parts::lemma_join_front(q, " "@);
        assert(q.skip(1) =~= quoted_of(rest));
        let tail = " "@ + parts::join_of(quoted_of(rest), " "@);
        assert(line =~= q[0] + tail);
        lemma_read_argument(args[0], tail);
        assert(tail[0] == ' ');
        assert(tail.skip(1) =~= parts::join_of(quoted_of(rest), " "@));
        assert(split_exec_of(line) =~= seq![args[0]] + rest);
        assert(seq![args[0]] + rest =~= args);
    }
}

// ---------------------------------------------------------------------------
// Advice
// ---------------------------------------------------------------------------

/// How much an advisory matters.
#[derive(Debug, Clone, Copy, PartialEq, Eq, Structural)]
pub enum Level {
    Error,
    Warning,
}

impl Level {
    pub open spec fn name(self) -> Seq<char> {
        match self {
            Level::Error => "error"@,
            Level::Warning => "warning"@,
        }
    }

    pub fn as_str(self) -> (r: &'static str)
        ensures
            r@ == self.name(),
    {
        match self {
            Level::Error => "error",
            Level::Warning => "warning",
        }
    }
}

/// A change that answers an advisory: the program of a directive given by
/// another path.
#[derive(Debug, PartialEq, Eq)]
pub struct Fix {
    pub directive: String,
    pub from: String,
    pub to: String,
}

/// The contents of a [`Fix`].
#[verifier::ext_equal]
pub struct FixView {
    pub directive: Seq<char>,
    pub from: Seq<char>,
    pub to: Seq<char>,
}

impl View for Fix {
    type V = FixView;

    open spec fn view(&self) -> FixView {
        FixView { directive: self.directive@, from: self.from@, to: self.to@ }
    }
}

impl Clone for Fix {
    fn clone(&self) -> (r: Fix)
        ensures
            r@ == self@,
    {
        Fix { directive: self.directive.clone(), from: self.from.clone(), to: self.to.clone() }
    }
}

impl FixView {
    pub open spec fn label_of(self) -> Seq<char> {
        "use "@ + self.to
    }

    /// The value after the fix: the program is replaced and what follows it
    /// stays. A value that does not begin with the program is left alone.
    pub open spec fn applied_to(self, current: Seq<char>) -> Seq<char> {
        match text::after_prefix(text::trim_start_of(current), self.from) {
            Some(rest) => self.to + rest,
            None => current,
        }
    }
}

impl Fix {
    /// The directive that the fix changes.
    pub fn field(&self) -> (r: &str)
        ensures
            r@ == self@.directive,
    {
        self.directive.as_str()
    }

    pub fn label(&self) -> (r: String)
        ensures
            r@ == self@.label_of(),
    {
        text::cat2("use ", self.to.as_str())
    }

    /// The value after the fix.
    pub fn apply(&self, current: &str) -> (r: String)
        ensures
            r@ == self@.applied_to(current@),
    {
        match text::strip_prefix(text::trim_start(current), self.from.as_str()) {
            Some(rest) => text::cat2(self.to.as_str(), rest),
            None => current.to_owned(),
        }
    }
}

/// One advisory.
#[derive(Debug, PartialEq, Eq)]
pub struct Diagnostic {
    pub level: Level,
    pub message: String,
    pub fix: Option<Fix>,
}

/// The contents of a [`Diagnostic`].
#[verifier::ext_equal]
pub struct DiagnosticView {
    pub level: Level,
    pub message: Seq<char>,
    pub fix: Option<FixView>,
}

/// The contents of a fix that may be missing.
pub open spec fn fix_view(f: Option<Fix>) -> Option<FixView> {
    match f {
        Some(f) => Some(f@),
        None => None,
    }
}

impl View for Diagnostic {
    type V = DiagnosticView;

    open spec fn view(&self) -> DiagnosticView {
        DiagnosticView { level: self.level, message: self.message@, fix: fix_view(self.fix) }
    }
}

impl Diagnostic {
    /// The advisory in one line.
    pub fn to_string(&self) -> (r: String)
        ensures
            r@ == self@.level.name() + ": "@ + self@.message,
    {
        text::cat3(self.level.as_str(), ": ", self.message.as_str())
    }
}

/// The contents of a list of advisories.
pub open spec fn diagnostic_views(v: Seq<Diagnostic>) -> Seq<DiagnosticView> {
    Seq::new(v.len(), |i: int| v[i]@)
}

/// The fix that an advisory carries, if it does.
pub fn autofix(d: &Diagnostic) -> (r: Option<Fix>)
    ensures
        fix_view(r) == d@.fix,
{
    match &d.fix {
        Some(f) => Some(f.clone()),
        None => None,
    }
}

/// Whether one of the advisories is an error.
pub fn has_errors(diags: &[Diagnostic]) -> (r: bool)
    ensures
        r == exists|i: int| 0 <= i < diags@.len() && (#[trigger] diags@[i])@.level == Level::Error,
{
    let mut i: usize = 0;
    while i < diags.len()
        invariant
            i <= diags@.len(),
            forall|k: int| 0 <= k < i ==> (#[trigger] diags@[k])@.level != Level::Error,
        decreases diags@.len() - i,
    {
        if diags[i].level == Level::Error {
            return true;
        }
        i += 1;
    }
    false
}

/// The service settings of a unit, where it has any.
pub open spec fn service_of(u: UnitView) -> Option<ServiceView> {
    match u.body {
        BodyView::Timer(t) => Some(t.service),
        BodyView::Service(s) => Some(s.service),
        BodyView::Mount(_) => None,
    }
}

/// The service settings of a unit, where it has any.
pub fn service(u: &Unit) -> (r: Option<&ServiceOpts>)
    ensures
        match r {
            Some(s) => service_of(u@) == Some(s@),
            None => service_of(u@) is None,
        },
{
    match &u.body {
        Body::Timer(t) => Some(&t.service),
        Body::Service(s) => Some(&s.service),
        Body::Mount(_) => None,
    }
}

/// The program of a command line that names it without any path, which
/// systemd does not look up the way a shell does.
pub open spec fn bare_of(line: Seq<char>) -> Option<Seq<char>> {
    let words = parts::words_of(line);
    if words.len() > 0 && !words[0].contains('/') {
        Some(words[0])
    } else {
        None
    }
}

/// The program of a command line that names it without any path.
pub fn bare_program(line: &str) -> (r: Option<String>)
    ensures
        text::opt_text(r) == bare_of(line@),
{
    let words = parts::words(line);
    let ghost ws = text::texts(words@);
    if words.len() > 0 {
        assert(ws[0] == words@[0]@);
        if !text::has_char(words[0].as_str(), '/') {
            return Some(words[0].clone());
        }
    }
    None
}

/// The advice on one directive, by what programs were found where.
pub open spec fn advice_of(
    directive: Seq<char>,
    line: Option<Seq<char>>,
    found: Map<Seq<char>, Seq<char>>,
) -> Seq<DiagnosticView> {
    match line {
        None => seq![],
        Some(l) => match bare_of(l) {
            None => seq![],
            Some(p) => if found.dom().contains(p) {
                seq![
                    DiagnosticView {
                        level: Level::Warning,
                        message: directive + "=: '"@ + p
                            + "' is not an absolute path, and systemd does not look it up like a shell"@,
                        fix: Some(FixView { directive, from: p, to: found[p] }),
                    },
                ]
            } else {
                seq![
                    DiagnosticView {
                        level: Level::Warning,
                        message: directive + "=: '"@ + p
                            + "' is not an absolute path and was not found"@,
                        fix: None,
                    },
                ]
            },
        },
    }
}

/// The advice on a unit.
pub open spec fn check_of(u: UnitView, found: Map<Seq<char>, Seq<char>>) -> Seq<DiagnosticView> {
    match service_of(u) {
        None => seq![],
        Some(s) => advice_of("ExecStart"@, Some(s.exec_start), found) + advice_of(
            "ExecStartPre"@,
            s.exec_start_pre,
            found,
        ) + advice_of("ExecStopPost"@, s.exec_stop_post, found),
    }
}

fn advise(
    out: &mut Vec<Diagnostic>,
    directive: &str,
    line: &Option<String>,
    found: &StrMap<String>,
)
    ensures
        diagnostic_views(final(out)@) == diagnostic_views(old(out)@) + advice_of(
            directive@,
            text::opt_text(*line),
            found@,
        ),
{
    let ghost before = diagnostic_views(out@);
    let ghost more = advice_of(directive@, text::opt_text(*line), found@);
    if let Some(l) = line {
        if let Some(p) = bare_program(l.as_str()) {
            let head = text::cat3(directive, "=: '", p.as_str());
            match found.get(p.as_str()) {
                Some(path) => {
                    out.push(
                        Diagnostic {
                            level: Level::Warning,
                            message: text::cat2(
                                head.as_str(),
                                "' is not an absolute path, and systemd does not look it up like a shell",
                            ),
                            fix: Some(
                                Fix { directive: directive.to_owned(), from: p, to: path.clone() },
                            ),
                        },
                    );
                },
                None => {
                    out.push(
                        Diagnostic {
                            level: Level::Warning,
                            message: text::cat2(
                                head.as_str(),
                                "' is not an absolute path and was not found",
                            ),
                            fix: None,
                        },
                    );
                },
            }
        }
    }
    assert(diagnostic_views(out@) =~= before + more);
}

/// The advice on a unit: `found` says where each program that is named
/// without a path was found, if it was.
pub fn check_unit(u: &Unit, found: &StrMap<String>) -> (r: Vec<Diagnostic>)
    ensures
        diagnostic_views(r@) == check_of(u@, found@),
{
    let mut out: Vec<Diagnostic> = Vec::new();
    assert(diagnostic_views(out@) =~= seq![]);
    if let Some(s) = service(u) {
        let start = Some(s.exec_start.clone());
        advise(&mut out, "ExecStart", &start, found);
        advise(&mut out, "ExecStartPre", &s.exec_start_pre, found);
        advise(&mut out, "ExecStopPost", &s.exec_stop_post, found);
        assert(diagnostic_views(out@) =~= check_of(u@, found@));
    }
    out
}

/// A fix answers the advisory it came from: after it the program has a path,
/// where the one that was found has.
pub proof fn law_fix_answers(p: Seq<char>, rest: Seq<char>, to: Seq<char>, directive: Seq<char>)
    requires
        p.len() > 0,
        forall|i: int| 0 <= i < p.len() ==> !text::is_white(#[trigger] p[i]),
        rest.len() > 0 ==> text::is_white(rest[0]),
        to.len() > 0,
        to[0] == '/',
        forall|i: int| 0 <= i < to.len() ==> !text::is_white(#[trigger] to[i]),
    ensures
        (FixView { directive, from: p, to }).applied_to(p + rest) == to + rest,
        bare_of(to + rest) is None,
{
    let cur = p + rest;
    assert(cur[0] == p[0]);
    assert(text::trim_start_of(cur) == cur);
    assert(p.is_prefix_of(cur));
    assert(cur.skip(p.len() as int) =~= rest);
    let all = to + rest;
    assert(all[0] == to[0]);
    assert(text::trim_start_of(all) == all);
    parts::lemma_word_len(all);
    let k = parts::word_len(all);
    assert(k > 0);
    let w = all.take(k);
    assert(w[0] == '/');
    assert(w.contains('/'));
    assert(parts::words_of(all) == seq![w] + parts::words_of(all.skip(k)));
    assert(parts::words_of(all)[0] == w);
}

/// Whether a command line starts with a path, or says nothing.
pub open spec fn starts_with_path(line: Option<Seq<char>>) -> bool {
    match line {
        None => true,
        Some(l) => parts::words_of(l).len() == 0 || parts::words_of(l)[0].contains('/'),
    }
}

/// A unit is warned about exactly if a command of its does not start with a
/// path; a program that was found can be put in its place.
pub proof fn law_bare_programs_are_warned_about(u: UnitView, found: Map<Seq<char>, Seq<char>>)
    ensures
        check_of(u, found).len() == 0 <==> (service_of(u) matches Some(s) ==> starts_with_path(
            Some(s.exec_start),
        ) && starts_with_path(s.exec_start_pre) && starts_with_path(s.exec_stop_post)),
        forall|i: int|
            0 <= i < check_of(u, found).len() ==> (#[trigger] check_of(u, found)[i]).level
                == Level::Warning && (check_of(u, found)[i].fix matches Some(f)
                ==> found.dom().contains(f.from) && f.to == found[f.from]),
{
}

} // verus!
