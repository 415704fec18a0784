//! A line diff, written out rather than imported.
//!
//! Unit files are tens of lines long, so the textbook LCS table is both fast
//! enough and easy to trust. The only concession to size is [`MAX_LINES`]:
//! past that the quadratic table stops being a good idea and the file is
//! reported as replaced wholesale, which is the honest summary anyway.

use crate::number;
use crate::parts;
use crate::text;
use crate::ui::paint;
use crate::ui::paint::{Color, Line, SpanView, Style};
use crate::ui::term;
use crate::ui::term::{Key, KeyCode, Rect};
use crate::unit::escape;
use vstd::prelude::*;

verus! {

broadcast use vstd::string::group_string_axioms;

/// Above this many lines on either side, fall back to a wholesale replace.
pub const MAX_LINES: usize = 2000;

/// One line of a diff.
#[derive(Debug, PartialEq, Eq)]
pub enum Change {
    /// Present in both, unchanged.
    Same(String),
    /// Only in the old text.
    Del(String),
    /// Only in the new text.
    Add(String),
    /// `n` unchanged lines elided by [`with_context`].
    Skip(usize),
}

/// The contents of a [`Change`].
#[verifier::ext_equal]
pub enum ChangeView {
    Same(Seq<char>),
    Del(Seq<char>),
    Add(Seq<char>),
    Skip(nat),
}

impl View for Change {
    type V = ChangeView;

    open spec fn view(&self) -> ChangeView {
        match self {
            Change::Same(s) => ChangeView::Same(s@),
            Change::Del(s) => ChangeView::Del(s@),
            Change::Add(s) => ChangeView::Add(s@),
            Change::Skip(n) => ChangeView::Skip(*n as nat),
        }
    }
}

impl Clone for Change {
    fn clone(&self) -> (r: Change)
        ensures
            r@ == self@,
    {
        match self {
            Change::Same(s) => Change::Same(s.clone()),
            Change::Del(s) => Change::Del(s.clone()),
            Change::Add(s) => Change::Add(s.clone()),
            Change::Skip(n) => Change::Skip(*n),
        }
    }
}

/// The contents of a list of changes.
pub open spec fn change_views(v: Seq<Change>) -> Seq<ChangeView> {
    Seq::new(v.len(), |i: int| v[i]@)
}

impl ChangeView {
    /// The marker column.
    pub open spec fn sigil_of(self) -> char {
        match self {
            ChangeView::Same(_) => ' ',
            ChangeView::Del(_) => '-',
            ChangeView::Add(_) => '+',
            ChangeView::Skip(_) => '@',
        }
    }

    /// The text behind the marker.
    pub open spec fn text_of(self) -> Seq<char> {
        match self {
            ChangeView::Same(s) => s,
            ChangeView::Del(s) => s,
            ChangeView::Add(s) => s,
            ChangeView::Skip(n) => "@@ "@ + number::decimal(n) + " unchanged line"@ + (if n == 1 {
                ""@
            } else {
                "s"@
            }) + " @@"@,
        }
    }

    /// The whole line: an elision stands for itself, the others follow their
    /// marker.
    pub open spec fn line_of(self) -> Seq<char> {
        match self {
            ChangeView::Skip(_) => self.text_of(),
            _ => seq![self.sigil_of()] + self.text_of(),
        }
    }
}

impl Change {
    /// The marker column: `-`, `+` or a space.
    pub fn sigil(&self) -> (r: char)
        ensures
            r == self@.sigil_of(),
    {
        match self {
            Change::Same(_) => ' ',
            Change::Del(_) => '-',
            Change::Add(_) => '+',
            Change::Skip(_) => '@',
        }
    }

    fn text(&self) -> (r: String)
        ensures
            r@ == self@.text_of(),
    {
        match self {
            Change::Same(s) => s.clone(),
            Change::Del(s) => s.clone(),
            Change::Add(s) => s.clone(),
            Change::Skip(n) => {
                let digits = number::usize_decimal(*n);
                let plural = if *n == 1 {
                    ""
                } else {
                    "s"
                };
                text::cat5("@@ ", digits.as_str(), " unchanged line", plural, " @@")
            },
        }
    }

    fn line(&self) -> (r: String)
        ensures
            r@ == self@.line_of(),
    {
        let t = self.text();
        match self {
            Change::Skip(_) => t,
            _ => {
                let mut out = String::new();
                out.push(self.sigil());
                out.push_str(t.as_str());
                assert(out@ =~= seq![self@.sigil_of()] + self@.text_of());
                out
            },
        }
    }
}

// ---------------------------------------------------------------------------
// The diff
// ---------------------------------------------------------------------------

/// The length of the longest sequence of lines that two texts have in common.
pub open spec fn lcs_of(a: Seq<Seq<char>>, b: Seq<Seq<char>>) -> nat
    decreases a.len() + b.len(),
{
    if a.len() == 0 || b.len() == 0 {
        0
    } else if a[0] == b[0] {
        lcs_of(a.skip(1), b.skip(1)) + 1
    } else {
        let x = lcs_of(a.skip(1), b);
        let y = lcs_of(a, b.skip(1));
        if x >= y {
            x
        } else {
            y
        }
    }
}

/// The changes from `a` to `b`: equal lines are kept, and otherwise the line
/// goes without which more stays in common; deletions come first.
pub open spec fn walk_of(a: Seq<Seq<char>>, b: Seq<Seq<char>>) -> Seq<ChangeView>
    decreases a.len() + b.len(),
{
    if a.len() == 0 && b.len() == 0 {
        seq![]
    } else if a.len() > 0 && b.len() > 0 && a[0] == b[0] {
        seq![ChangeView::Same(a[0])] + walk_of(a.skip(1), b.skip(1))
    } else if b.len() == 0 || (a.len() > 0 && lcs_of(a.skip(1), b) >= lcs_of(a, b.skip(1))) {
        seq![ChangeView::Del(a[0])] + walk_of(a.skip(1), b)
    } else {
        seq![ChangeView::Add(b[0])] + walk_of(a, b.skip(1))
    }
}

/// All lines of `a` taken out and all of `b` put in.
pub open spec fn replaced_of(a: Seq<Seq<char>>, b: Seq<Seq<char>>) -> Seq<ChangeView> {
    Seq::new(a.len(), |i: int| ChangeView::Del(a[i])) + Seq::new(
        b.len(),
        |i: int| ChangeView::Add(b[i]),
    )
}

/// The changes from `a` to `b`.
pub open spec fn diff_of(a: Seq<Seq<char>>, b: Seq<Seq<char>>) -> Seq<ChangeView> {
    if a.len() > MAX_LINES || b.len() > MAX_LINES {
        replaced_of(a, b)
    } else {
        walk_of(a, b)
    }
}

proof fn lemma_lcs_bound(a: Seq<Seq<char>>, b: Seq<Seq<char>>)
    ensures
        lcs_of(a, b) <= a.len(),
        lcs_of(a, b) <= b.len(),
    decreases a.len() + b.len(),
{
    if a.len() > 0 && b.len() > 0 {
        if a[0] == b[0] {
            lemma_lcs_bound(a.skip(1), b.skip(1));
        } else {
            lemma_lcs_bound(a.skip(1), b);
            lemma_lcs_bound(a, b.skip(1));
        }
    }
}

/// Whether a row of the table holds the lengths for `a` and each rest of `b`.
spec fn is_row(row: Seq<usize>, a: Seq<Seq<char>>, b: Seq<Seq<char>>) -> bool {
    &&& row.len() == b.len() + 1
    &&& forall|j: int| 0 <= j <= b.len() ==> #[trigger] row[j] == lcs_of(a, b.skip(j))
}

/// The row for a text with one more line in front.
fn next_row(below: &Vec<usize>, line: &str, b: &[String], Ghost(a): Ghost<Seq<Seq<char>>>) -> (r: Vec<
    usize,
>)
    requires
        is_row(below@, a, text::texts(b@)),
        b@.len() <= MAX_LINES,
    ensures
        is_row(r@, seq![line@] + a, text::texts(b@)),
{
    let ghost bs = text::texts(b@);
    let ghost long = seq![line@] + a;
    let m: usize = b.len();
    let mut row: Vec<usize> = Vec::new();
    let mut k: usize = 0;
    while k < m + 1
        invariant
            k <= m + 1,
            m <= MAX_LINES,
            row@.len() == k,
            forall|j: int| 0 <= j < k ==> #[trigger] row@[j] == 0,
        decreases m + 1 - k,
    {
        row.push(0);
        k += 1;
    }
    assert(long.skip(1) =~= a);
    assert(bs.skip(m as int).len() == 0);
    let mut j: usize = m;
    while j > 0
        invariant
            j <= m == b@.len(),
            m <= MAX_LINES,
            bs == text::texts(b@),
            long == seq![line@] + a,
            long.skip(1) == a,
            row@.len() == m + 1,
            is_row(below@, a, bs),
            forall|i: int| j <= i <= m ==> #[trigger] row@[i] == lcs_of(long, bs.skip(i)),
        decreases j,
    {
        let i: usize = j - 1;
        proof {
            let rest = bs.skip(i as int);
            assert(rest[0] == b@[i as int]@);
            assert(rest.skip(1) =~= bs.skip(j as int));
            assert(long[0] == line@);
            lemma_lcs_bound(a, bs.skip(j as int));
            assert(below@[j as int] == lcs_of(a, bs.skip(j as int)));
            assert(below@[i as int] == lcs_of(a, bs.skip(i as int)));
        }
        let v: usize = if text::same(line, b[i].as_str()) {
            below[j] + 1
        } else if below[i] >= row[j] {
            below[i]
        } else {
            row[j]
        };
        row.set(i, v);
        j = i;
    }
    row
}

/// The changes between two lists of lines.
pub fn diff_lines(a: &[String], b: &[String]) -> (r: Vec<Change>)
    ensures
        change_views(r@) == diff_of(text::texts(a@), text::texts(b@)),
{
    if a.len() > MAX_LINES || b.len() > MAX_LINES {
        replace_all(a, b)
    } else {
        walk(a, b)
    }
}

fn replace_all(a: &[String], b: &[String]) -> (r: Vec<Change>)
    ensures
        change_views(r@) == replaced_of(text::texts(a@), text::texts(b@)),
{
    let ghost want = replaced_of(text::texts(a@), text::texts(b@));
    let mut out: Vec<Change> = Vec::new();
    let mut i: usize = 0;
    assert(change_views(out@) =~= want.take(0));
    while i < a.len()
        invariant
            i <= a@.len(),
            want == replaced_of(text::texts(a@), text::texts(b@)),
            change_views(out@) == want.take(i as int),
        decreases a@.len() - i,
    {
        let c = Change::Del(a[i].clone());
        let ghost before = change_views(out@);
        out.push(c);
        assert(c@ == want[i as int]);
        assert(change_views(out@) =~= before.push(c@));
        assert(before.push(c@) =~= want.take(i + 1));
        i += 1;
    }
    let mut j: usize = 0;
    let n: usize = a.len();
    while j < b.len()
        invariant
            j <= b@.len(),
            n == a@.len(),
            want == replaced_of(text::texts(a@), text::texts(b@)),
            change_views(out@) == want.take(n + j),
        decreases b@.len() - j,
    {
        let c = Change::Add(b[j].clone());
        let ghost before = change_views(out@);
        out.push(c);
        assert(c@ == want[n + j]);
        assert(change_views(out@) =~= before.push(c@));
        assert(before.push(c@) =~= want.take(n + j + 1));
        j += 1;
    }
    assert(want.take(n + b@.len()) =~= want);
    out
}

fn walk(a: &[String], b: &[String]) -> (r: Vec<Change>)
    requires
        a@.len() <= MAX_LINES,
        b@.len() <= MAX_LINES,
    ensures
        change_views(r@) == walk_of(text::texts(a@), text::texts(b@)),
{
    let ghost sa = text::texts(a@);
    let ghost sb = text::texts(b@);
    let n: usize = a.len();
    let m: usize = b.len();
    // table[k] is the row for the last k lines of a.
    let mut table: Vec<Vec<usize>> = Vec::new();
    let mut zeros: Vec<usize> = Vec::new();
    let mut z: usize = 0;
    while z < m + 1
        invariant
            z <= m + 1,
            m == b@.len() <= MAX_LINES,
            sb == text::texts(b@),
            zeros@.len() == z,
            forall|j: int| 0 <= j < z ==> #[trigger] zeros@[j] == 0,
        decreases m + 1 - z,
    {
        zeros.push(0);
        z += 1;
    }
    assert(is_row(zeros@, sa.skip(n as int), sb));
    table.push(zeros);
    let mut k: usize = 0;
    while k < n
        invariant
            k <= n == a@.len(),
            m == b@.len() <= MAX_LINES,
            n <= MAX_LINES,
            sa == text::texts(a@),
            sb == text::texts(b@),
            table@.len() == k + 1,
            forall|i: int| 0 <= i <= k ==> is_row((#[trigger] table@[i])@, sa.skip(n - i), sb),
        decreases n - k,
    {
        let line = a[n - 1 - k].as_str();
        let row = next_row(&table[k], line, b, Ghost(sa.skip(n - k)));
        assert(seq![line@] + sa.skip(n - k) =~= sa.skip(n - (k + 1)));
        table.push(row);
        k += 1;
    }
    let mut out: Vec<Change> = Vec::new();
    let mut i: usize = 0;
    let mut j: usize = 0;
    assert(sa.skip(0) =~= sa);
    assert(sb.skip(0) =~= sb);
    assert(change_views(out@) + walk_of(sa, sb) =~= walk_of(sa, sb));
    while i < n || j < m
        invariant
            i <= n == a@.len(),
            j <= m == b@.len(),
            sa == text::texts(a@),
            sb == text::texts(b@),
            table@.len() == n + 1,
            forall|k: int| 0 <= k <= n ==> is_row((#[trigger] table@[k])@, sa.skip(n - k), sb),
            change_views(out@) + walk_of(sa.skip(i as int), sb.skip(j as int)) == walk_of(sa, sb),
        decreases (n - i) + (m - j),
    {
        let ghost x = sa.skip(i as int);
        let ghost y = sb.skip(j as int);
        proof {
            if i < n {
                assert(x[0] == a@[i as int]@);
                assert(x.skip(1) =~= sa.skip(i + 1));
                assert(is_row(table@[n - i - 1]@, sa.skip(i + 1), sb));
                assert(is_row(table@[n - i]@, sa.skip(i as int), sb));
                assert(table@[n - i - 1]@[j as int] == lcs_of(sa.skip(i + 1), y));
            }
            if j < m {
                assert(y[0] == b@[j as int]@);
                assert(y.skip(1) =~= sb.skip(j + 1));
                if i < n {
                    assert(table@[n - i]@[j + 1] == lcs_of(x, sb.skip(j + 1)));
                }
            }
        }
        let same = i < n && j < m && text::same(a[i].as_str(), b[j].as_str());
        let drop = j >= m || (i < n && table[n - i - 1][j] >= table[n - i][j + 1]);
        let ghost before = change_views(out@);
        let ghost mut c = ChangeView::Skip(0);
        if same {
            out.push(Change::Same(a[i].clone()));
            proof {
                c = ChangeView::Same(x[0]);
            }
            i += 1;
            j += 1;
        } else if drop {
            out.push(Change::Del(a[i].clone()));
            proof {
                c = ChangeView::Del(x[0]);
            }
            i += 1;
        } else {
            out.push(Change::Add(b[j].clone()));
            proof {
                c = ChangeView::Add(y[0]);
            }
            j += 1;
        }
        proof {
            let rest = walk_of(sa.skip(i as int), sb.skip(j as int));
            assert(change_views(out@) =~= before.push(c));
            assert(walk_of(x, y) == seq![c] + rest);
            assert(before + (seq![c] + rest) =~= before.push(c) + rest);
        }
    }
    assert(sa.skip(n as int) =~= seq![]);
    assert(sb.skip(m as int) =~= seq![]);
    assert(change_views(out@) + seq![] =~= change_views(out@));
    out
}

/// Diff two texts by line. A trailing newline is not a line of its own, so
/// `"a\n"` and `"a"` compare equal -- the difference is invisible in a unit
/// file and flagging it would be noise.
pub fn diff(old: &str, new: &str) -> (r: Vec<Change>)
    ensures
        change_views(r@) == diff_of(parts::lines_of(old@), parts::lines_of(new@)),
{
    let a = parts::lines(old);
    let b = parts::lines(new);
    diff_lines(&a, &b)
}

// ---------------------------------------------------------------------------
// What a diff promises
// ---------------------------------------------------------------------------

/// The lines that changes take from the old text.
pub open spec fn old_lines(c: Seq<ChangeView>) -> Seq<Seq<char>>
    decreases c.len(),
{
    if c.len() == 0 {
        seq![]
    } else {
        match c[0] {
            ChangeView::Same(s) => seq![s] + old_lines(c.skip(1)),
            ChangeView::Del(s) => seq![s] + old_lines(c.skip(1)),
            _ => old_lines(c.skip(1)),
        }
    }
}

/// The lines that changes leave in the new text.
pub open spec fn new_lines(c: Seq<ChangeView>) -> Seq<Seq<char>>
    decreases c.len(),
{
    if c.len() == 0 {
        seq![]
    } else {
        match c[0] {
            ChangeView::Same(s) => seq![s] + new_lines(c.skip(1)),
            ChangeView::Add(s) => seq![s] + new_lines(c.skip(1)),
            _ => new_lines(c.skip(1)),
        }
    }
}

/// The lines that changes keep.
pub open spec fn kept_lines(c: Seq<ChangeView>) -> Seq<Seq<char>>
    decreases c.len(),
{
    if c.len() == 0 {
        seq![]
    } else {
        match c[0] {
            ChangeView::Same(s) => seq![s] + kept_lines(c.skip(1)),
            _ => kept_lines(c.skip(1)),
        }
    }
}

proof fn lemma_front(c: ChangeView, rest: Seq<ChangeView>)
    ensures
        (seq![c] + rest)[0] == c,
        (seq![c] + rest).skip(1) == rest,
{
    assert((seq![c] + rest).skip(1) =~= rest);
}

proof fn lemma_walk(a: Seq<Seq<char>>, b: Seq<Seq<char>>)
    ensures
        old_lines(walk_of(a, b)) == a,
        new_lines(walk_of(a, b)) == b,
        kept_lines(walk_of(a, b)).len() == lcs_of(a, b),
    decreases a.len() + b.len(),
{
    if a.len() == 0 && b.len() == 0 {
        assert(a =~= seq![]);
        assert(b =~= seq![]);
    } else if a.len() > 0 && b.len() > 0 && a[0] == b[0] {
        lemma_walk(a.skip(1), b.skip(1));
        lemma_front(ChangeView::Same(a[0]), walk_of(a.skip(1), b.skip(1)));
        assert(seq![a[0]] + a.skip(1) =~= a);
        assert(seq![b[0]] + b.skip(1) =~= b);
    } else if b.len() == 0 || (a.len() > 0 && lcs_of(a.skip(1), b) >= lcs_of(a, b.skip(1))) {
        lemma_walk(a.skip(1), b);
        lemma_front(ChangeView::Del(a[0]), walk_of(a.skip(1), b));
        assert(seq![a[0]] + a.skip(1) =~= a);
    } else {
        lemma_walk(a, b.skip(1));
        lemma_front(ChangeView::Add(b[0]), walk_of(a, b.skip(1)));
        assert(seq![b[0]] + b.skip(1) =~= b);
    }
}

proof fn lemma_old_append(x: Seq<ChangeView>, y: Seq<ChangeView>)
    ensures
        old_lines(x + y) == old_lines(x) + old_lines(y),
        new_lines(x + y) == new_lines(x) + new_lines(y),
    decreases x.len(),
{
    if x.len() == 0 {
        assert(x + y =~= y);
        assert(old_lines(x) + old_lines(y) =~= old_lines(y));
        assert(new_lines(x) + new_lines(y) =~= new_lines(y));
    } else {
        lemma_old_append(x.skip(1), y);
        assert((x + y).skip(1) =~= x.skip(1) + y);
        assert(old_lines(x + y) =~= old_lines(x) + old_lines(y));
        assert(new_lines(x + y) =~= new_lines(x) + new_lines(y));
    }
}

proof fn lemma_dels(a: Seq<Seq<char>>)
    ensures
        old_lines(Seq::new(a.len(), |i: int| ChangeView::Del(a[i]))) == a,
        new_lines(Seq::new(a.len(), |i: int| ChangeView::Del(a[i]))) == Seq::<Seq<char>>::empty(),
    decreases a.len(),
{
    let c = Seq::new(a.len(), |i: int| ChangeView::Del(a[i]));
    if a.len() == 0 {
        assert(a =~= seq![]);
    } else {
        let t = a.skip(1);
        lemma_dels(t);
        assert(c.skip(1) =~= Seq::new(t.len(), |i: int| ChangeView::Del(t[i])));
        assert(seq![a[0]] + t =~= a);
    }
}

proof fn lemma_adds(b: Seq<Seq<char>>)
    ensures
        new_lines(Seq::new(b.len(), |i: int| ChangeView::Add(b[i]))) == b,
        old_lines(Seq::new(b.len(), |i: int| ChangeView::Add(b[i]))) == Seq::<Seq<char>>::empty(),
    decreases b.len(),
{
    let c = Seq::new(b.len(), |i: int| ChangeView::Add(b[i]));
    if b.len() == 0 {
        assert(b =~= seq![]);
    } else {
        let t = b.skip(1);
        lemma_adds(t);
        assert(c.skip(1) =~= Seq::new(t.len(), |i: int| ChangeView::Add(t[i])));
        assert(seq![b[0]] + t =~= b);
    }
}

/// A diff holds both texts whole: without its additions it is the old one,
/// without its deletions the new one.
pub proof fn law_diff_holds_both_texts(a: Seq<Seq<char>>, b: Seq<Seq<char>>)
    ensures
        old_lines(diff_of(a, b)) == a,
        new_lines(diff_of(a, b)) == b,
{
    if a.len() > MAX_LINES || b.len() > MAX_LINES {
        let x = Seq::new(a.len(), |i: int| ChangeView::Del(a[i]));
        let y = Seq::new(b.len(), |i: int| ChangeView::Add(b[i]));
        lemma_old_append(x, y);
        lemma_dels(a);
        lemma_adds(b);
        assert(a + Seq::<Seq<char>>::empty() =~= a);
        assert(Seq::<Seq<char>>::empty() + b =~= b);
    } else {
        lemma_walk(a, b);
    }
}

/// Whether the lines of `c` occur in `a`, in their order.
pub open spec fn is_within_lines(c: Seq<Seq<char>>, a: Seq<Seq<char>>) -> bool
    decreases a.len(),
{
    if c.len() == 0 {
        true
    } else if a.len() == 0 {
        false
    } else if c[0] == a[0] {
        is_within_lines(c.skip(1), a.skip(1))
    } else {
        is_within_lines(c, a.skip(1))
    }
}

proof fn lemma_within_skip(c: Seq<Seq<char>>, a: Seq<Seq<char>>)
    requires
        c.len() > 0,
        is_within_lines(c, a),
    ensures
        is_within_lines(c.skip(1), a),
        a.len() > 0,
        is_within_lines(c.skip(1), a.skip(1)),
    decreases a.len(),
{
    if c[0] == a[0] {
        if c.skip(1).len() > 0 {
            if c.skip(1)[0] == a[0] {
                lemma_within_skip(c.skip(1), a.skip(1));
            }
        }
    } else {
        lemma_within_skip(c, a.skip(1));
        if c.skip(1).len() > 0 && c.skip(1)[0] == a[0] {
            lemma_within_skip(c.skip(1), a.skip(1));
        }
    }
}

proof fn lemma_lcs_is_most(c: Seq<Seq<char>>, a: Seq<Seq<char>>, b: Seq<Seq<char>>)
    requires
        is_within_lines(c, a),
        is_within_lines(c, b),
    ensures
        c.len() <= lcs_of(a, b),
    decreases a.len() + b.len(),
{
    if c.len() > 0 {
        if a[0] == b[0] {
            if c[0] == a[0] {
                lemma_lcs_is_most(c.skip(1), a.skip(1), b.skip(1));
            } else {
                lemma_lcs_is_most(c, a.skip(1), b.skip(1));
            }
        } else if c[0] != a[0] {
            lemma_lcs_is_most(c, a.skip(1), b);
        } else {
            lemma_lcs_is_most(c, a, b.skip(1));
        }
    }
}

proof fn lemma_within_longer(c: Seq<Seq<char>>, a: Seq<Seq<char>>, x: Seq<char>)
    requires
        is_within_lines(c, a),
    ensures
        is_within_lines(c, seq![x] + a),
{
    let l = seq![x] + a;
    assert(l.skip(1) =~= a);
    if c.len() > 0 && c[0] == x {
        lemma_within_skip(c, a);
    }
}

proof fn lemma_kept_within(a: Seq<Seq<char>>, b: Seq<Seq<char>>)
    ensures
        is_within_lines(kept_lines(walk_of(a, b)), a),
        is_within_lines(kept_lines(walk_of(a, b)), b),
    decreases a.len() + b.len(),
{
    if a.len() == 0 && b.len() == 0 {
    } else if a.len() > 0 && b.len() > 0 && a[0] == b[0] {
        let rest = walk_of(a.skip(1), b.skip(1));
        lemma_kept_within(a.skip(1), b.skip(1));
        lemma_front(ChangeView::Same(a[0]), rest);
        let k = kept_lines(walk_of(a, b));
        assert(k.skip(1) =~= kept_lines(rest));
    } else if b.len() == 0 || (a.len() > 0 && lcs_of(a.skip(1), b) >= lcs_of(a, b.skip(1))) {
        let rest = walk_of(a.skip(1), b);
        lemma_kept_within(a.skip(1), b);
        lemma_front(ChangeView::Del(a[0]), rest);
        lemma_within_longer(kept_lines(rest), a.skip(1), a[0]);
        assert(seq![a[0]] + a.skip(1) =~= a);
    } else {
        let rest = walk_of(a, b.skip(1));
        lemma_kept_within(a, b.skip(1));
        lemma_front(ChangeView::Add(b[0]), rest);
        lemma_within_longer(kept_lines(rest), b.skip(1), b[0]);
        assert(seq![b[0]] + b.skip(1) =~= b);
    }
}

/// The lines that a diff of texts within the limit keeps are in both texts,
/// and no longer sequence of lines is: the diff is as small as can be.
pub proof fn law_diff_is_minimal(a: Seq<Seq<char>>, b: Seq<Seq<char>>, other: Seq<Seq<char>>)
    requires
        a.len() <= MAX_LINES,
        b.len() <= MAX_LINES,
    ensures
        is_within_lines(kept_lines(diff_of(a, b)), a),
        is_within_lines(kept_lines(diff_of(a, b)), b),
        is_within_lines(other, a) && is_within_lines(other, b) ==> other.len() <= kept_lines(
            diff_of(a, b),
        ).len(),
{
    lemma_kept_within(a, b);
    lemma_walk(a, b);
    if is_within_lines(other, a) && is_within_lines(other, b) {
        lemma_lcs_is_most(other, a, b);
    }
}

// ---------------------------------------------------------------------------
// Counting
// ---------------------------------------------------------------------------

/// Whether nothing changes.
pub open spec fn is_unchanged(c: Seq<ChangeView>) -> bool {
    forall|i: int| 0 <= i < c.len() ==> (#[trigger] c[i]) is Same || c[i] is Skip
}

/// The number of additions.
pub open spec fn adds_of(c: Seq<ChangeView>) -> nat
    decreases c.len(),
{
    if c.len() == 0 {
        0
    } else {
        adds_of(c.drop_last()) + if c.last() is Add {
            1nat
        } else {
            0nat
        }
    }
}

/// The number of deletions.
pub open spec fn dels_of(c: Seq<ChangeView>) -> nat
    decreases c.len(),
{
    if c.len() == 0 {
        0
    } else {
        dels_of(c.drop_last()) + if c.last() is Del {
            1nat
        } else {
            0nat
        }
    }
}

/// True when nothing actually changed.
pub fn is_empty(changes: &[Change]) -> (r: bool)
    ensures
        r == is_unchanged(change_views(changes@)),
{
    let ghost all = change_views(changes@);
    let mut i: usize = 0;
    while i < changes.len()
        invariant
            i <= changes@.len(),
            all == change_views(changes@),
            forall|k: int| 0 <= k < i ==> (#[trigger] all[k]) is Same || all[k] is Skip,
        decreases changes@.len() - i,
    {
        assert(all[i as int] == changes@[i as int]@);
        match &changes[i] {
            Change::Add(_) => {
                return false;
            },
            Change::Del(_) => {
                return false;
            },
            _ => {},
        }
        i += 1;
    }
    true
}

/// `(added, removed)` line counts.
pub fn stats(changes: &[Change]) -> (r: (usize, usize))
    ensures
        r.0 == adds_of(change_views(changes@)),
        r.1 == dels_of(change_views(changes@)),
{
    let ghost all = change_views(changes@);
    let mut add: usize = 0;
    let mut del: usize = 0;
    let mut i: usize = 0;
    assert(all.take(0) =~= seq![]);
    while i < changes.len()
        invariant
            i <= changes@.len(),
            all == change_views(changes@),
            add <= i,
            del <= i,
            add == adds_of(all.take(i as int)),
            del == dels_of(all.take(i as int)),
        decreases changes@.len() - i,
    {
        proof {
            assert(all.take(i + 1).drop_last() =~= all.take(i as int));
            assert(all.take(i + 1).last() == changes@[i as int]@);
        }
        match &changes[i] {
            Change::Add(_) => {
                add += 1;
            },
            Change::Del(_) => {
                del += 1;
            },
            _ => {},
        }
        i += 1;
    }
    assert(all.take(changes@.len() as int) =~= all);
    (add, del)
}

// ---------------------------------------------------------------------------
// Context
// ---------------------------------------------------------------------------

/// Whether a line is shown: one that is not an unchanged line, or one with
/// such a line within `context` lines of it.
pub open spec fn is_kept(c: Seq<ChangeView>, context: int, i: int) -> bool {
    exists|j: int|
        0 <= j < c.len() && i - context <= j <= i + context && !((#[trigger] c[j]) is Same)
}

/// What stands for a run of lines that are not shown: a single line is not
/// worth eliding.
pub open spec fn elided(c: Seq<ChangeView>, start: int, run: int) -> Seq<ChangeView> {
    if run <= 0 {
        seq![]
    } else if run == 1 {
        seq![c[start]]
    } else {
        seq![ChangeView::Skip(run as nat)]
    }
}

/// The number of lines not shown directly before line `n`.
pub open spec fn run_before(c: Seq<ChangeView>, context: int, n: int) -> int
    decreases n,
{
    if n <= 0 || is_kept(c, context, n - 1) {
        0
    } else {
        run_before(c, context, n - 1) + 1
    }
}

/// The first `n` lines, folded, without the run of lines not shown at their
/// end.
pub open spec fn folded_part(c: Seq<ChangeView>, context: int, n: int) -> Seq<ChangeView>
    decreases n,
{
    if n <= 0 {
        seq![]
    } else {
        let before = folded_part(c, context, n - 1);
        let run = run_before(c, context, n - 1);
        if is_kept(c, context, n - 1) {
            (before + elided(c, n - 1 - run, run)).push(c[n - 1])
        } else {
            before
        }
    }
}

/// The lines with runs of unchanged ones elided.
pub open spec fn folded_of(c: Seq<ChangeView>, context: int) -> Seq<ChangeView> {
    let n = c.len() as int;
    let run = run_before(c, context, n);
    folded_part(c, context, n) + elided(c, n - run, run)
}

fn kept(changes: &[Change], context: usize, i: usize) -> (r: bool)
    requires
        i < changes@.len(),
    ensures
        r == is_kept(change_views(changes@), context as int, i as int),
{
    let ghost all = change_views(changes@);
    let n: usize = changes.len();
    let lo: usize = if i > context {
        i - context
    } else {
        0
    };
    let hi: usize = if n - i > context {
        i + context + 1
    } else {
        n
    };
    let mut j: usize = lo;
    while j < hi
        invariant
            lo <= j <= hi <= n == changes@.len(),
            all == change_views(changes@),
            lo == if i > context {
                i - context
            } else {
                0
            },
            i < n,
            hi == if n - i > context {
                i + context + 1
            } else {
                n as int
            },
            forall|k: int| lo <= k < j ==> (#[trigger] all[k]) is Same,
        decreases hi - j,
    {
        assert(all[j as int] == changes@[j as int]@);
        match &changes[j] {
            Change::Same(_) => {},
            _ => {
                return true;
            },
        }
        j += 1;
    }
    false
}

fn flush_skip(out: &mut Vec<Change>, changes: &[Change], start: usize, run: usize)
    requires
        start + run <= changes@.len(),
    ensures
        change_views(final(out)@) == change_views(old(out)@) + elided(
            change_views(changes@),
            start as int,
            run as int,
        ),
{
    let ghost before = change_views(out@);
    let ghost more = elided(change_views(changes@), start as int, run as int);
    if run == 1 {
        out.push(changes[start].clone());
    } else if run > 1 {
        out.push(Change::Skip(run));
    }
    assert(change_views(out@) =~= before + more);
}

/// Collapse runs of unchanged lines to `context` on each side of a change,
/// replacing the middle with a [`Change::Skip`].
///
/// A run is only worth eliding if it saves more lines than the marker costs,
/// so short runs are left alone.
pub fn with_context(changes: &[Change], context: usize) -> (r: Vec<Change>)
    ensures
        change_views(r@) == folded_of(change_views(changes@), context as int),
{
    let ghost all = change_views(changes@);
    let mut out: Vec<Change> = Vec::new();
    let mut run: usize = 0;
    let mut i: usize = 0;
    assert(change_views(out@) =~= seq![]);
    while i < changes.len()
        invariant
            i <= changes@.len(),
            all == change_views(changes@),
            run <= i,
            run == run_before(all, context as int, i as int),
            change_views(out@) == folded_part(all, context as int, i as int),
        decreases changes@.len() - i,
    {
        if kept(changes, context, i) {
            flush_skip(&mut out, changes, i - run, run);
            let ghost before = change_views(out@);
            out.push(changes[i].clone());
            assert(change_views(out@) =~= before.push(all[i as int]));
            run = 0;
        } else {
            run += 1;
        }
        i += 1;
    }
    let n: usize = changes.len();
    flush_skip(&mut out, changes, n - run, run);
    out
}

/// How many lines of the texts the changes stand for.
pub open spec fn lines_in(c: Seq<ChangeView>) -> nat
    decreases c.len(),
{
    if c.len() == 0 {
        0
    } else {
        lines_in(c.drop_last()) + match c.last() {
            ChangeView::Skip(n) => n,
            _ => 1,
        }
    }
}

/// The additions and deletions, in order.
pub open spec fn edits_of(c: Seq<ChangeView>) -> Seq<ChangeView>
    decreases c.len(),
{
    if c.len() == 0 {
        seq![]
    } else if c.last() is Add || c.last() is Del {
        edits_of(c.drop_last()).push(c.last())
    } else {
        edits_of(c.drop_last())
    }
}

proof fn lemma_edits_append(x: Seq<ChangeView>, y: Seq<ChangeView>)
    ensures
        edits_of(x + y) == edits_of(x) + edits_of(y),
        lines_in(x + y) == lines_in(x) + lines_in(y),
    decreases y.len(),
{
    if y.len() == 0 {
        assert(x + y =~= x);
        assert(edits_of(x) + edits_of(y) =~= edits_of(x));
    } else {
        lemma_edits_append(x, y.drop_last());
        assert((x + y).drop_last() =~= x + y.drop_last());
        assert(edits_of(x + y) =~= edits_of(x) + edits_of(y));
    }
}

proof fn lemma_elided(c: Seq<ChangeView>, start: int, run: int)
    requires
        0 <= start,
        0 <= run,
        start + run <= c.len(),
        forall|k: int| start <= k < start + run ==> (#[trigger] c[k]) is Same,
    ensures
        edits_of(elided(c, start, run)) == Seq::<ChangeView>::empty(),
        lines_in(elided(c, start, run)) == run,
{
    let e = elided(c, start, run);
    if run >= 1 {
        assert(e.drop_last() =~= seq![]);
        if run == 1 {
            assert(c[start] is Same);
        }
        reveal_with_fuel(edits_of, 2);
        reveal_with_fuel(lines_in, 2);
    }
}

proof fn lemma_folded(c: Seq<ChangeView>, context: int, n: int)
    requires
        0 <= n <= c.len(),
        0 <= context,
    ensures
        0 <= run_before(c, context, n) <= n,
        forall|k: int| n - run_before(c, context, n) <= k < n ==> (#[trigger] c[k]) is Same,
        edits_of(folded_part(c, context, n)) == edits_of(c.take(n)),
        lines_in(folded_part(c, context, n)) + run_before(c, context, n) == lines_in(c.take(n)),
    decreases n,
{
    if n == 0 {
        assert(c.take(0) =~= seq![]);
    } else {
        lemma_folded(c, context, n - 1);
        assert(c.take(n).drop_last() =~= c.take(n - 1));
        assert(c.take(n).last() == c[n - 1]);
        let before = folded_part(c, context, n - 1);
        let run = run_before(c, context, n - 1);
        if is_kept(c, context, n - 1) {
            let e = elided(c, n - 1 - run, run);
            lemma_elided(c, n - 1 - run, run);
            lemma_edits_append(before, e);
            assert(edits_of(before) + Seq::<ChangeView>::empty() =~= edits_of(before));
            let r = (before + e).push(c[n - 1]);
            assert(r.drop_last() =~= before + e);
        } else {
            assert(!(c[n - 1] is Add) && !(c[n - 1] is Del) && c[n - 1] is Same) by {
                if !(c[n - 1] is Same) {
                    assert(is_kept(c, context, n - 1));
                }
            }
        }
    }
}

/// Folding loses no change and no count: the additions and deletions stay, in
/// their order, and the lines shown or elided add up to all there were.
pub proof fn law_context_keeps_changes(c: Seq<ChangeView>, context: nat)
    ensures
        edits_of(folded_of(c, context as int)) == edits_of(c),
        lines_in(folded_of(c, context as int)) == lines_in(c),
{
    let n = c.len() as int;
    lemma_folded(c, context as int, n);
    let run = run_before(c, context as int, n);
    let part = folded_part(c, context as int, n);
    lemma_elided(c, n - run, run);
    lemma_edits_append(part, elided(c, n - run, run));
    assert(edits_of(part) + Seq::<ChangeView>::empty() =~= edits_of(part));
    assert(c.take(n) =~= c);
}

// ---------------------------------------------------------------------------
// Rendering
// ---------------------------------------------------------------------------

/// The whole lines of some changes.
pub open spec fn lines_of(c: Seq<ChangeView>) -> Seq<Seq<char>> {
    Seq::new(c.len(), |i: int| c[i].line_of())
}

/// The diff as plain text, one line per change.
pub fn render_text(changes: &[Change]) -> (r: String)
    ensures
        r@ == parts::join_of(lines_of(change_views(changes@)), "\n"@),
{
    let ghost all = change_views(changes@);
    let ghost want = lines_of(all);
    let mut out: Vec<String> = Vec::new();
    let mut i: usize = 0;
    while i < changes.len()
        invariant
            i <= changes@.len(),
            all == change_views(changes@),
            want == lines_of(all),
            text::texts(out@) == want.take(i as int),
        decreases changes@.len() - i,
    {
        assert(all[i as int] == changes@[i as int]@);
        let ghost before = text::texts(out@);
        out.push(changes[i].line());
        assert(text::texts(out@) =~= before.push(want[i as int]));
        assert(before.push(want[i as int]) =~= want.take(i + 1));
        i += 1;
    }
    assert(text::texts(out@) =~= want);
    parts::join(&out, "\n")
}

/// How a change looks: green additions, red deletions, unchanged text dimmed.
pub open spec fn style_of(c: ChangeView) -> Style {
    match c {
        ChangeView::Add(_) => Style::fg_of(Color::Green),
        ChangeView::Del(_) => Style::fg_of(Color::Red),
        ChangeView::Same(_) => Style::fg_of(Color::Gray),
        ChangeView::Skip(_) => Style { italic: true, ..Style::fg_of(Color::DarkGray) },
    }
}

/// The diff as coloured lines.
pub open spec fn painted_of(c: Seq<ChangeView>, width: int) -> Seq<Seq<SpanView>> {
    Seq::new(
        c.len(),
        |i: int| paint::styled_of(escape::clip_of(c[i].line_of(), width), style_of(c[i])),
    )
}

/// The diff as coloured lines: green additions, red deletions, unchanged text
/// dimmed so the changes carry the eye.
pub fn render_lines(changes: &[Change], width: usize) -> (r: Vec<Line>)
    ensures
        paint::line_views(r@) == painted_of(change_views(changes@), width as int),
{
    let ghost all = change_views(changes@);
    let ghost want = painted_of(all, width as int);
    let mut out: Vec<Line> = Vec::new();
    let mut i: usize = 0;
    while i < changes.len()
        invariant
            i <= changes@.len(),
            all == change_views(changes@),
            want == painted_of(all, width as int),
            paint::line_views(out@) == want.take(i as int),
        decreases changes@.len() - i,
    {
        assert(all[i as int] == changes@[i as int]@);
        let style = match &changes[i] {
            Change::Add(_) => Style::colored(Color::Green),
            Change::Del(_) => Style::colored(Color::Red),
            Change::Same(_) => Style::colored(Color::Gray),
            Change::Skip(_) => {
                let mut s = Style::colored(Color::DarkGray);
                s.italic = true;
                s
            },
        };
        let t = changes[i].line();
        let line = paint::styled(escape::clip(t.as_str(), width), style);
        let ghost before = paint::line_views(out@);
        out.push(line);
        assert(paint::line_views(out@) =~= before.push(line@));
        assert(before.push(line@) =~= want.take(i + 1));
        i += 1;
    }
    assert(paint::line_views(out@) =~= want);
    out
}

/// A whole file's worth of diff, with the heading the dialog shows.
#[derive(Debug)]
pub struct FileDiff {
    pub name: String,
    pub changes: Vec<Change>,
    /// True when the on-disk text differs from what was read when the editor
    /// opened -- someone else wrote the file underneath us.
    pub drifted: bool,
}

/// The contents of a [`FileDiff`].
#[verifier::ext_equal]
pub struct FileDiffView {
    pub name: Seq<char>,
    pub changes: Seq<ChangeView>,
    pub drifted: bool,
}

impl View for FileDiff {
    type V = FileDiffView;

    open spec fn view(&self) -> FileDiffView {
        FileDiffView {
            name: self.name@,
            changes: change_views(self.changes@),
            drifted: self.drifted,
        }
    }
}

/// The contents of a list of file diffs.
pub open spec fn file_diff_views(v: Seq<FileDiff>) -> Seq<FileDiffView> {
    Seq::new(v.len(), |i: int| v[i]@)
}

impl FileDiff {
    pub fn changed(&self) -> (r: bool)
        ensures
            r == !is_unchanged(self@.changes),
    {
        !is_empty(&self.changes)
    }
}

/// The diff of one file: of what is there now against what is about to be
/// written. A file that appeared, vanished or changed since it was first read
/// has drifted.
pub open spec fn file_diff_of(
    name: Seq<char>,
    baseline: Option<Seq<char>>,
    disk: Option<Seq<char>>,
    new: Seq<char>,
) -> FileDiffView {
    let old = match disk {
        Some(s) => s,
        None => seq![],
    };
    FileDiffView {
        name,
        changes: folded_of(diff_of(parts::lines_of(old), parts::lines_of(new)), 3),
        drifted: baseline != disk,
    }
}

fn same_text(a: &Option<String>, b: &Option<String>) -> (r: bool)
    ensures
        r == (text::opt_text(*a) == text::opt_text(*b)),
{
    match (a, b) {
        (Some(x), Some(y)) => text::same(x.as_str(), y.as_str()),
        (None, None) => true,
        _ => false,
    }
}

/// Build the diff for one file: `baseline` is what the editor read when it
/// opened, `disk` what is there now, `new` what is about to be written.
///
/// `baseline` is `None` for a file that did not exist when the editor opened.
pub fn file_diff(name: &str, baseline: &Option<String>, disk: &Option<String>, new: &str) -> (r:
    FileDiff)
    ensures
        r@ == file_diff_of(name@, text::opt_text(*baseline), text::opt_text(*disk), new@),
{
    let old = match disk {
        Some(s) => s.as_str(),
        None => "",
    };
    proof {
        reveal_strlit("");
        assert(""@ =~= seq![]);
    }
    let changes = diff(old, new);
    FileDiff {
        name: name.to_owned(),
        changes: with_context(&changes, 3),
        drifted: !same_text(baseline, disk),
    }
}

/// A file that is about to be written: its name, what it held when
/// the editor opened, what it holds now, and what it will hold. `None` stands
/// for a file that is not there.
#[derive(Debug)]
pub struct Target {
    pub name: String,
    pub baseline: Option<String>,
    pub disk: Option<String>,
    pub body: String,
}

/// Diff what is about to be written against what is on disk, file by file.
pub fn against_disk(targets: &[Target]) -> (r: Vec<FileDiff>)
    ensures
        file_diff_views(r@) == Seq::new(
            targets@.len(),
            |i: int|
                file_diff_of(
                    targets@[i].name@,
                    text::opt_text(targets@[i].baseline),
                    text::opt_text(targets@[i].disk),
                    targets@[i].body@,
                ),
        ),
{
    let ghost want = Seq::new(
        targets@.len(),
        |i: int|
            file_diff_of(
                targets@[i].name@,
                text::opt_text(targets@[i].baseline),
                text::opt_text(targets@[i].disk),
                targets@[i].body@,
            ),
    );
    let mut out: Vec<FileDiff> = Vec::new();
    let mut i: usize = 0;
    while i < targets.len()
        invariant
            i <= targets@.len(),
            want.len() == targets@.len(),
            forall|k: int|
                0 <= k < targets@.len() ==> #[trigger] want[k] == file_diff_of(
                    targets@[k].name@,
                    text::opt_text(targets@[k].baseline),
                    text::opt_text(targets@[k].disk),
                    targets@[k].body@,
                ),
            file_diff_views(out@) == want.take(i as int),
        decreases targets@.len() - i,
    {
        let t = &targets[i];
        let d = file_diff(t.name.as_str(), &t.baseline, &t.disk, t.body.as_str());
        let ghost before = file_diff_views(out@);
        out.push(d);
        assert(file_diff_views(out@) =~= before.push(d@));
        assert(before.push(d@) =~= want.take(i + 1));
        i += 1;
    }
    assert(file_diff_views(out@) =~= want);
    out
}

/// True when any file changed under the editor.
pub fn any_drift(diffs: &[FileDiff]) -> (r: bool)
    ensures
        r == exists|i: int| 0 <= i < diffs@.len() && (#[trigger] diffs@[i])@.drifted,
{
    let mut i: usize = 0;
    while i < diffs.len()
        invariant
            i <= diffs@.len(),
            forall|k: int| 0 <= k < i ==> !(#[trigger] diffs@[k])@.drifted,
        decreases diffs@.len() - i,
    {
        if diffs[i].drifted {
            return true;
        }
        i += 1;
    }
    false
}

/// True when writing would actually change something on disk.
pub fn any_change(diffs: &[FileDiff]) -> (r: bool)
    ensures
        r == exists|i: int|
            0 <= i < diffs@.len() && !is_unchanged((#[trigger] diffs@[i])@.changes),
{
    let mut i: usize = 0;
    while i < diffs.len()
        invariant
            i <= diffs@.len(),
            forall|k: int| 0 <= k < i ==> is_unchanged((#[trigger] diffs@[k])@.changes),
        decreases diffs@.len() - i,
    {
        if diffs[i].changed() {
            return true;
        }
        i += 1;
    }
    false
}

proof fn lemma_same_walk(a: Seq<Seq<char>>)
    ensures
        is_unchanged(walk_of(a, a)),
    decreases a.len(),
{
    if a.len() > 0 {
        lemma_same_walk(a.skip(1));
        let w = walk_of(a, a);
        let rest = walk_of(a.skip(1), a.skip(1));
        assert forall|i: int| 0 <= i < w.len() implies (#[trigger] w[i]) is Same || w[i] is Skip by {
            if i > 0 {
                assert(w[i] == rest[i - 1]);
            }
        }
    }
}

proof fn lemma_unchanged_edits(c: Seq<ChangeView>)
    ensures
        is_unchanged(c) == (edits_of(c).len() == 0),
    decreases c.len(),
{
    if c.len() > 0 {
        let rest = c.drop_last();
        lemma_unchanged_edits(rest);
        if is_unchanged(c) {
            assert forall|i: int| 0 <= i < rest.len() implies (#[trigger] rest[i]) is Same
                || rest[i] is Skip by {
                assert(rest[i] == c[i]);
            }
            assert(c[c.len() - 1] == c.last());
        } else if is_unchanged(rest) {
            assert forall|i: int| 0 <= i < c.len() - 1 implies (#[trigger] c[i]) is Same
                || c[i] is Skip by {
                assert(rest[i] == c[i]);
            }
        }
    }
}

/// Writing the same lines back is no change at all, for texts within the
/// limit.
pub proof fn law_same_text_is_no_change(
    name: Seq<char>,
    baseline: Option<Seq<char>>,
    disk: Seq<char>,
    new: Seq<char>,
)
    requires
        parts::lines_of(disk) == parts::lines_of(new),
        parts::lines_of(disk).len() <= MAX_LINES,
    ensures
        is_unchanged(file_diff_of(name, baseline, Some(disk), new).changes),
{
    let a = parts::lines_of(disk);
    let d = diff_of(a, a);
    lemma_same_walk(a);
    lemma_unchanged_edits(d);
    law_context_keeps_changes(d, 3);
    lemma_unchanged_edits(folded_of(d, 3));
}

// ---------------------------------------------------------------------------
// The review
// ---------------------------------------------------------------------------

/// The warning under the heading of a file that changed meanwhile.
pub open spec fn drift_warning() -> Seq<char> {
    "! this file changed on disk while you were editing -- the diff below is against the new contents"@
}

/// The heading of a file.
pub open spec fn heading_of(d: FileDiffView) -> Seq<char> {
    if is_unchanged(d.changes) {
        d.name + "  (unchanged)"@
    } else {
        d.name + "  (+"@ + number::decimal(adds_of(d.changes)) + " -"@ + number::decimal(
            dels_of(d.changes),
        ) + ")"@
    }
}

/// The lines of one file: heading, warning and changes.
pub open spec fn section_of(d: FileDiffView, width: int) -> Seq<Seq<SpanView>> {
    seq![
        paint::styled_of(
            escape::clip_of(heading_of(d), width),
            Style { bold: true, underlined: true, ..Style::plain_of() },
        ),
    ] + (if d.drifted {
        seq![
            paint::styled_of(
                escape::clip_of(drift_warning(), width),
                Style { bold: true, ..Style::fg_of(Color::Yellow) },
            ),
        ]
    } else {
        seq![]
    }) + if is_unchanged(d.changes) {
        seq![
            paint::styled_of(
                escape::clip_of("  (no change)"@, width),
                Style::fg_of(Color::DarkGray),
            ),
        ]
    } else {
        painted_of(d.changes, width)
    }
}

/// The whole review: a section for each file, with a blank line between.
pub open spec fn review_of(diffs: Seq<FileDiffView>, width: int) -> Seq<Seq<SpanView>>
    decreases diffs.len(),
{
    if diffs.len() == 0 {
        seq![]
    } else {
        let before = review_of(diffs.drop_last(), width);
        let gap: Seq<Seq<SpanView>> = if diffs.len() > 1 {
            seq![seq![]]
        } else {
            seq![]
        };
        before + gap + section_of(diffs.last(), width)
    }
}

fn add_section(out: &mut Vec<Line>, d: &FileDiff, width: usize)
    ensures
        paint::line_views(final(out)@) == paint::line_views(old(out)@) + section_of(
            d@,
            width as int,
        ),
{
    let ghost start = paint::line_views(out@);
    let changed = d.changed();
    let heading = if changed {
        let (add, del) = stats(&d.changes);
        let a = number::usize_decimal(add);
        let b = number::usize_decimal(del);
        let head = text::cat5(d.name.as_str(), "  (+", a.as_str(), " -", b.as_str());
        text::cat2(head.as_str(), ")")
    } else {
        text::cat2(d.name.as_str(), "  (unchanged)")
    };
    let mut bold = Style::plain();
    bold.bold = true;
    bold.underlined = true;
    out.push(paint::styled(escape::clip(heading.as_str(), width), bold));
    if d.drifted {
        let mut warn = Style::colored(Color::Yellow);
        warn.bold = true;
        let line = escape::clip(
            "! this file changed on disk while you were editing -- the diff below is against the new contents",
            width,
        );
        out.push(paint::styled(line, warn));
    }
    let ghost head = paint::line_views(out@);
    if changed {
        let mut more = render_lines(&d.changes, width);
        let ghost lines = paint::line_views(more@);
        out.append(&mut more);
        assert(paint::line_views(out@) =~= head + lines);
    } else {
        out.push(
            paint::styled(escape::clip("  (no change)", width), Style::colored(Color::DarkGray)),
        );
    }
    assert(paint::line_views(out@) =~= start + section_of(d@, width as int));
}

/// The whole review as lines, with a heading per file. Returned rather than
/// rendered so the height can be measured and the text can be tested.
pub fn review_lines(diffs: &[FileDiff], width: usize) -> (r: Vec<Line>)
    ensures
        paint::line_views(r@) == review_of(file_diff_views(diffs@), width as int),
{
    let ghost all = file_diff_views(diffs@);
    let mut out: Vec<Line> = Vec::new();
    let mut i: usize = 0;
    assert(all.take(0) =~= seq![]);
    assert(paint::line_views(out@) =~= seq![]);
    while i < diffs.len()
        invariant
            i <= diffs@.len(),
            all == file_diff_views(diffs@),
            paint::line_views(out@) == review_of(all.take(i as int), width as int),
        decreases diffs@.len() - i,
    {
        proof {
            assert(all.take(i + 1).drop_last() =~= all.take(i as int));
            assert(all.take(i + 1).last() == diffs@[i as int]@);
        }
        let ghost before = paint::line_views(out@);
        if i > 0 {
            out.push(paint::blank());
            assert(paint::line_views(out@) =~= before + seq![seq![]]);
        } else {
            assert(before + seq![] =~= before);
        }
        add_section(&mut out, &diffs[i], width);
        i += 1;
    }
    assert(all.take(diffs@.len() as int) =~= all);
    out
}

proof fn lemma_section_fits(d: FileDiffView, width: nat, i: int)
    requires
        0 <= i < section_of(d, width as int).len(),
    ensures
        paint::is_within(section_of(d, width as int)[i], width as int),
{
}

/// No line of a review is wider than the space it was given.
pub proof fn law_review_fits(diffs: Seq<FileDiffView>, width: nat, i: int)
    requires
        0 <= i < review_of(diffs, width as int).len(),
    ensures
        paint::is_within(review_of(diffs, width as int)[i], width as int),
    decreases diffs.len(),
{
    let before = review_of(diffs.drop_last(), width as int);
    let all = review_of(diffs, width as int);
    let tail = section_of(diffs.last(), width as int);
    if i < before.len() {
        assert(all[i] == before[i]);
        law_review_fits(diffs.drop_last(), width, i);
    } else if i >= all.len() - tail.len() {
        let k = i - (all.len() - tail.len());
        assert(all[i] == tail[k]);
        lemma_section_fits(diffs.last(), width, k);
    } else {
        assert(all[i] =~= seq![]);
    }
}

/// The review dialog's rect: nearly the whole frame, sized down rather than
/// clipped.
pub fn diff_rect(area: Rect) -> (r: Rect)
    requires
        area.fits(),
    ensures
        r == term::popup_of(
            area,
            if area.width > 5 {
                area.width - 4
            } else {
                1
            },
            if area.height > 3 {
                area.height - 2
            } else {
                1
            },
        ),
        r.is_inside(area),
        r.fits(),
{
    let w: u16 = if area.width > 5 {
        area.width - 4
    } else {
        1
    };
    let h: u16 = if area.height > 3 {
        area.height - 2
    } else {
        1
    };
    term::popup_rect(area, w, h)
}

/// The title of the review dialog.
pub fn review_title(title: &str, diffs: &[FileDiff]) -> (r: String)
    ensures
        r@ == " "@ + title@ + " -- y writes, n cancels"@ + (if exists|i: int|
            0 <= i < diffs@.len() && (#[trigger] diffs@[i])@.drifted {
            ", CHANGED ON DISK"@
        } else {
            ""@
        }) + " "@,
{
    let note = if any_drift(diffs) {
        ", CHANGED ON DISK"
    } else {
        ""
    };
    text::cat5(" ", title, " -- y writes, n cancels", note, " ")
}

/// How a reader of a long text moved.
#[derive(Debug, Clone, Copy, PartialEq, Eq, Structural)]
pub enum Scrolled {
    /// The text is shown from this line on.
    At(usize),
    /// The key does not scroll.
    Not,
}

/// `top` moved by `d` lines, within `0` and `max`.
pub open spec fn moved_of(top: int, d: int, max: int) -> int {
    let to = if top + d < 0 {
        0
    } else {
        top + d
    };
    if to < max {
        to
    } else {
        max
    }
}

/// Where a key scrolls a text whose last line is `max`, by `page` lines at a
/// time; the wheel moves `wheel` lines.
pub open spec fn scrolled_by(k: Key, top: int, page: int, max: int, wheel: int) -> Option<int> {
    match k {
        Key::Scroll(d) => Some(moved_of(top, wheel * d, max)),
        Key::Press(KeyCode::Up, _) => Some(if top > 0 {
            top - 1
        } else {
            0
        }),
        Key::Press(KeyCode::Down, _) => Some(moved_of(top, 1, max)),
        Key::Press(KeyCode::PageUp, _) => Some(if top > page {
            top - page
        } else {
            0
        }),
        Key::Press(KeyCode::PageDown, _) => Some(moved_of(top, page, max)),
        Key::Press(KeyCode::Home, _) => Some(0),
        Key::Press(KeyCode::End, _) => Some(max),
        _ => if k.types('k') {
            Some(if top > 0 {
                top - 1
            } else {
                0
            })
        } else if k.types('j') {
            Some(moved_of(top, 1, max))
        } else {
            None
        },
    }
}

fn moved_down(top: usize, n: usize, max: usize) -> (r: usize)
    ensures
        r == moved_of(top as int, n as int, max as int),
{
    if top >= max || max - top <= n {
        max
    } else {
        top + n
    }
}

fn moved_up(top: usize, n: usize) -> (r: usize)
    ensures
        r == (if top > n {
            top - n
        } else {
            0
        }),
{
    if top > n {
        top - n
    } else {
        0
    }
}

/// Where a key scrolls a text.
pub fn scroll_key(k: Key, top: usize, page: usize, max: usize, wheel: u8) -> (r: Scrolled)
    ensures
        match r {
            Scrolled::At(t) => scrolled_by(k, top as int, page as int, max as int, wheel as int)
                == Some(t as int),
            Scrolled::Not => scrolled_by(k, top as int, page as int, max as int, wheel as int)
                is None,
        },
{
    match k {
        Key::Scroll(d) => {
            let w: i32 = wheel as i32;
            let n: i32 = d as i32;
            assert(-128 * 255 <= w * n <= 127 * 255) by (nonlinear_arith)
                requires
                    0 <= w <= 255,
                    -128 <= n <= 127,
            ;
            let lines: i32 = w * n;
            if lines >= 0 {
                Scrolled::At(moved_down(top, lines as usize, max))
            } else {
                let up = moved_up(top, (-lines) as usize);
                Scrolled::At(
                    if up < max {
                        up
                    } else {
                        max
                    },
                )
            }
        },
        Key::Press(KeyCode::Up, _) => Scrolled::At(moved_up(top, 1)),
        Key::Press(KeyCode::Down, _) => Scrolled::At(moved_down(top, 1, max)),
        Key::Press(KeyCode::PageUp, _) => Scrolled::At(moved_up(top, page)),
        Key::Press(KeyCode::PageDown, _) => Scrolled::At(moved_down(top, page, max)),
        Key::Press(KeyCode::Home, _) => Scrolled::At(0),
        Key::Press(KeyCode::End, _) => Scrolled::At(max),
        _ => if k.is_char('k') {
            Scrolled::At(moved_up(top, 1))
        } else if k.is_char('j') {
            Scrolled::At(moved_down(top, 1, max))
        } else {
            Scrolled::Not
        },
    }
}

/// What the review comes to.
#[derive(Debug, Clone, Copy, PartialEq, Eq, Structural)]
pub enum Review {
    /// It goes on, from this line.
    Stay(usize),
    Yes,
    No,
}

/// Answers a key of the review, `None` where the terminal is gone: true only
/// on an explicit yes. `y` confirms; `n`, `q` and Escape refuse, and so does
/// a lost terminal, because writing unit files is not something to do on a
/// guess.
pub fn review_key(k: Option<Key>, top: usize, page: usize, total: usize) -> (r: Review)
    ensures
        match k {
            None => r == Review::No,
            Some(k) => {
                let max = if total > 0 {
                    total - 1
                } else {
                    0
                };
                if k.types('y') {
                    r == Review::Yes
                } else if k.types('n') || k.types('q') || k.code_of() == Some(KeyCode::Esc) {
                    r == Review::No
                } else {
                    r matches Review::Stay(t) && t == match scrolled_by(
                        k,
                        top as int,
                        page as int,
                        max,
                        1,
                    ) {
                        Some(s) => s,
                        None => top as int,
                    }
                }
            },
        },
{
    let k = match k {
        Some(k) => k,
        None => {
            return Review::No;
        },
    };
    if k.is_char('y') {
        return Review::Yes;
    }
    if k.is_char('n') || k.is_char('q') {
        return Review::No;
    }
    if let Some(KeyCode::Esc) = k.code() {
        return Review::No;
    }
    let max: usize = if total > 0 {
        total - 1
    } else {
        0
    };
    match scroll_key(k, top, page, max, 1) {
        Scrolled::At(t) => Review::Stay(t),
        Scrolled::Not => Review::Stay(top),
    }
}

} // verus!
