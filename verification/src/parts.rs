//! Cutting text into pieces and joining pieces into text.

use crate::text;
use vstd::prelude::*;

verus! {

// ---------------------------------------------------------------------------
// Splitting at a character
// ---------------------------------------------------------------------------

/// The pieces of `s` between occurrences of `c`: one more than there are
/// occurrences, so an empty text has one empty piece.
pub open spec fn split_of(s: Seq<char>, c: char) -> Seq<Seq<char>>
    decreases s.len(),
    via split_of_terminates
{
    let k = text::first_index(s, c);
    if k < s.len() {
        seq![s.take(k)] + split_of(s.skip(k + 1), c)
    } else {
        seq![s]
    }
}

#[via_fn]
proof fn split_of_terminates(s: Seq<char>, c: char) {
    text::lemma_first_index(s, c);
}

/// The text before and after the first `c`, where there is one.
pub open spec fn split_once_of(s: Seq<char>, c: char) -> Option<(Seq<char>, Seq<char>)> {
    let k = text::first_index(s, c);
    if k < s.len() {
        Some((s.take(k), s.skip(k + 1)))
    } else {
        None
    }
}

/// The text before and after the last `c`, where there is one.
pub open spec fn rsplit_once_of(s: Seq<char>, c: char) -> Option<(Seq<char>, Seq<char>)> {
    let k = text::last_index(s, c);
    if k >= 0 {
        Some((s.take(k), s.skip(k + 1)))
    } else {
        None
    }
}

/// The pieces of `s` between occurrences of `c`.
pub fn split(s: &str, c: char) -> (r: Vec<String>)
    ensures
        text::texts(r@) == split_of(s@, c),
{
    let v = text::chars_of(s);
    let mut out: Vec<String> = Vec::new();
    let mut at: usize = 0;
    assert(s@.skip(0) =~= s@);
    assert(text::texts(out@) + split_of(s@, c) =~= split_of(s@, c));
    loop
        invariant
            v@ == s@,
            at <= s@.len(),
            text::texts(out@) + split_of(s@.skip(at as int), c) == split_of(s@, c),
        decreases s@.len() - at,
    {
        let k: usize = text::find_char(&v, c, at);
        let piece = s.substring_char(at, k).to_owned();
        let ghost rest = s@.skip(at as int);
        let ghost before = text::texts(out@);
        proof {
            text::lemma_first_index(rest, c);
            assert(rest.take(k - at) =~= s@.subrange(at as int, k as int));
        }
        out.push(piece);
        assert(text::texts(out@) =~= before.push(piece@));
        if k >= v.len() {
            proof {
                assert(rest.take(k - at) =~= rest);
                assert(before + seq![rest] =~= text::texts(out@));
            }
            return out;
        }
        proof {
            assert(rest.skip(k - at + 1) =~= s@.skip(k + 1));
            assert(before + (seq![rest.take(k - at)] + split_of(s@.skip(k + 1), c)) =~= text::texts(out@)
                + split_of(s@.skip(k + 1), c));
        }
        at = k + 1;
    }
}

/// The text before and after the first `c`, where there is one.
pub fn split_once(s: &str, c: char) -> (r: Option<(&str, &str)>)
    ensures
        match r {
            Some(p) => split_once_of(s@, c) == Some((p.0@, p.1@)),
            None => split_once_of(s@, c) is None,
        },
{
    let v = text::chars_of(s);
    let k: usize = text::find_char(&v, c, 0);
    assert(s@.skip(0) =~= s@);
    if k < v.len() {
        proof {
            assert(s@.take(k as int) =~= s@.subrange(0, k as int));
            assert(s@.skip(k + 1) =~= s@.subrange(k + 1, s@.len() as int));
        }
        Some((s.substring_char(0, k), s.substring_char(k + 1, v.len())))
    } else {
        None
    }
}

/// The text before and after the last `c`, where there is one.
pub fn rsplit_once(s: &str, c: char) -> (r: Option<(&str, &str)>)
    ensures
        match r {
            Some(p) => rsplit_once_of(s@, c) == Some((p.0@, p.1@)),
            None => rsplit_once_of(s@, c) is None,
        },
{
    let v = text::chars_of(s);
    let n: usize = v.len();
    match text::rfind_char(&v, c) {
        Some(k) => {
            proof {
                assert(s@.take(k as int) =~= s@.subrange(0, k as int));
                assert(s@.skip(k + 1) =~= s@.subrange(k + 1, s@.len() as int));
            }
            Some((s.substring_char(0, k), s.substring_char(k + 1, n)))
        },
        None => None,
    }
}

// ---------------------------------------------------------------------------
// Lines
// ---------------------------------------------------------------------------

/// A line without the carriage return that ended it.
pub open spec fn strip_cr(s: Seq<char>) -> Seq<char> {
    if s.len() > 0 && s.last() == '\r' {
        s.drop_last()
    } else {
        s
    }
}

/// The lines of `s`. A newline ends a line, a carriage return before it is
/// not part of the line, and the end of the text ends a line that has
/// characters.
pub open spec fn lines_of(s: Seq<char>) -> Seq<Seq<char>>
    decreases s.len(),
    via lines_of_terminates
{
    let k = text::first_index(s, '\n');
    if k < s.len() {
        seq![strip_cr(s.take(k))] + lines_of(s.skip(k + 1))
    } else if s.len() > 0 {
        seq![s]
    } else {
        seq![]
    }
}

#[via_fn]
proof fn lines_of_terminates(s: Seq<char>) {
    text::lemma_first_index(s, '\n');
}

/// The lines of `s`.
pub fn lines(s: &str) -> (r: Vec<String>)
    ensures
        text::texts(r@) == lines_of(s@),
{
    let v = text::chars_of(s);
    let mut out: Vec<String> = Vec::new();
    let mut at: usize = 0;
    assert(s@.skip(0) =~= s@);
    assert(text::texts(out@) + lines_of(s@) =~= lines_of(s@));
    while at < v.len()
        invariant
            v@ == s@,
            at <= s@.len(),
            text::texts(out@) + lines_of(s@.skip(at as int)) == lines_of(s@),
        decreases s@.len() - at,
    {
        let k: usize = text::find_char(&v, '\n', at);
        let ghost rest = s@.skip(at as int);
        let ghost before = text::texts(out@);
        proof {
            text::lemma_first_index(rest, '\n');
            assert(rest.take(k - at) =~= s@.subrange(at as int, k as int));
        }
        if k >= v.len() {
            let piece = s.substring_char(at, k).to_owned();
            out.push(piece);
            proof {
                assert(rest.take(k - at) =~= rest);
                assert(text::texts(out@) =~= before.push(piece@));
                assert(before + seq![rest] =~= text::texts(out@));
            }
            return out;
        }
        let end: usize = if k > at && v[k - 1] == '\r' {
            k - 1
        } else {
            k
        };
        let piece = s.substring_char(at, end).to_owned();
        out.push(piece);
        proof {
            assert(piece@ =~= strip_cr(rest.take(k - at)));
            assert(text::texts(out@) =~= before.push(piece@));
            assert(rest.skip(k - at + 1) =~= s@.skip(k + 1));
            assert(before + (seq![strip_cr(rest.take(k - at))] + lines_of(s@.skip(k + 1)))
                =~= text::texts(out@) + lines_of(s@.skip(k + 1)));
        }
        at = k + 1;
    }
    proof {
        assert(s@.skip(at as int).len() == 0);
        text::lemma_first_index(s@.skip(at as int), '\n');
        assert(text::texts(out@) + Seq::<Seq<char>>::empty() =~= text::texts(out@));
    }
    out
}

// ---------------------------------------------------------------------------
// Words
// ---------------------------------------------------------------------------

/// The number of leading characters of `s` that are not white space.
pub open spec fn word_len(s: Seq<char>) -> int
    decreases s.len(),
{
    if s.len() == 0 || text::is_white(s[0]) {
        0
    } else {
        1 + word_len(s.skip(1))
    }
}

pub proof fn lemma_word_len(s: Seq<char>)
    ensures
        0 <= word_len(s) <= s.len(),
        word_len(s) < s.len() ==> text::is_white(s[word_len(s)]),
        forall|i: int| 0 <= i < word_len(s) ==> !text::is_white(#[trigger] s[i]),
    decreases s.len(),
{
    if s.len() > 0 && !text::is_white(s[0]) {
        lemma_word_len(s.skip(1));
        assert forall|i: int| 0 <= i < word_len(s) implies !text::is_white(#[trigger] s[i]) by {
            if i > 0 {
                assert(s[i] == s.skip(1)[i - 1]);
            }
        }
    }
}

proof fn lemma_word_len_at(s: Seq<char>, k: int)
    requires
        0 <= k <= s.len(),
        k < s.len() ==> text::is_white(s[k]),
        forall|i: int| 0 <= i < k ==> !text::is_white(#[trigger] s[i]),
    ensures
        word_len(s) == k,
{
    lemma_word_len(s);
    let w = word_len(s);
    if w < k {
        assert(!text::is_white(s[w]));
    } else if k < w {
        assert(!text::is_white(s[k]));
    }
}

/// The maximal runs of characters that are not white space, in order.
pub open spec fn words_of(s: Seq<char>) -> Seq<Seq<char>>
    decreases s.len(),
    via words_of_terminates
{
    let t = text::trim_start_of(s);
    if t.len() == 0 {
        seq![]
    } else {
        seq![t.take(word_len(t))] + words_of(t.skip(word_len(t)))
    }
}

#[via_fn]
proof fn words_of_terminates(s: Seq<char>) {
    text::lemma_trim_start(s);
    let t = text::trim_start_of(s);
    lemma_word_len(t);
}

/// The words of `s`.
pub fn words(s: &str) -> (r: Vec<String>)
    ensures
        text::texts(r@) == words_of(s@),
{
    let v = text::chars_of(s);
    let mut out: Vec<String> = Vec::new();
    let mut at: usize = 0;
    assert(s@.skip(0) =~= s@);
    assert(text::texts(out@) + words_of(s@) =~= words_of(s@));
    while at < v.len()
        invariant
            v@ == s@,
            at <= s@.len(),
            text::texts(out@) + words_of(s@.skip(at as int)) == words_of(s@),
        decreases s@.len() - at,
    {
        let ghost rest = s@.skip(at as int);
        if text::white(v[at]) {
            proof {
                assert(rest.skip(1) =~= s@.skip(at + 1));
            }
            at += 1;
        } else {
            let mut k: usize = at;
            while k < v.len() && !text::white(v[k])
                invariant
                    at <= k <= v@.len(),
                    v@ == s@,
                    forall|i: int| at <= i < k ==> !text::is_white(#[trigger] s@[i]),
                decreases v@.len() - k,
            {
                k += 1;
            }
            let piece = s.substring_char(at, k).to_owned();
            let ghost before = text::texts(out@);
            out.push(piece);
            proof {
                assert forall|i: int| 0 <= i < k - at implies !text::is_white(#[trigger] rest[i]) by {
                    assert(rest[i] == s@[at + i]);
                }
                lemma_word_len_at(rest, k - at);
                assert(rest.take(k - at) =~= piece@);
                assert(rest.skip(k - at) =~= s@.skip(k as int));
                assert(text::texts(out@) =~= before.push(piece@));
                assert(before + (seq![piece@] + words_of(s@.skip(k as int))) =~= text::texts(out@)
                    + words_of(s@.skip(k as int)));
            }
            at = k;
        }
    }
    proof {
        assert(s@.skip(at as int).len() == 0);
        assert(text::texts(out@) + Seq::<Seq<char>>::empty() =~= text::texts(out@));
    }
    out
}

// ---------------------------------------------------------------------------
// Joining
// ---------------------------------------------------------------------------

/// The pieces one after the other with `sep` between them.
pub open spec fn join_of(parts: Seq<Seq<char>>, sep: Seq<char>) -> Seq<char>
    decreases parts.len(),
{
    if parts.len() == 0 {
        seq![]
    } else if parts.len() == 1 {
        parts[0]
    } else {
        join_of(parts.drop_last(), sep) + sep + parts.last()
    }
}

/// The strings one after the other with `sep` between them.
pub fn join(parts: &[String], sep: &str) -> (r: String)
    ensures
        r@ == join_of(text::texts(parts@), sep@),
{
    let mut out = String::new();
    let mut i: usize = 0;
    let ghost all = text::texts(parts@);
    assert(all.take(0) =~= seq![]);
    while i < parts.len()
        invariant
            i <= parts@.len(),
            all == text::texts(parts@),
            out@ == join_of(all.take(i as int), sep@),
        decreases parts@.len() - i,
    {
        let ghost before = out@;
        if i > 0 {
            out.push_str(sep);
        }
        out.push_str(parts[i].as_str());
        proof {
            let t = all.take(i + 1);
            assert(t.drop_last() =~= all.take(i as int));
            assert(t.last() == parts@[i as int]@);
            if i == 0 {
                assert(before =~= seq![]);
                assert(out@ =~= t[0]);
            }
        }
        i += 1;
    }
    assert(all.take(parts@.len() as int) =~= all);
    out
}

/// Joining can be read from the front as well.
pub proof fn lemma_join_front(p: Seq<Seq<char>>, sep: Seq<char>)
    requires
        p.len() > 1,
    ensures
        join_of(p, sep) == p[0] + sep + join_of(p.skip(1), sep),
    decreases p.len(),
{
    let t = p.skip(1);
    if p.len() == 2 {
        assert(p.drop_last()[0] == p[0]);
        assert(t[0] == p.last());
        assert(join_of(p.drop_last(), sep) == p[0]);
    } else {
        lemma_join_front(p.drop_last(), sep);
        assert(p.drop_last().skip(1) =~= t.drop_last());
        assert(t.last() == p.last());
        let m = join_of(t.drop_last(), sep);
        assert((p[0] + sep + m) + sep + p.last() =~= p[0] + sep + (m + sep + p.last()));
    }
}

/// The pieces of a string, joined, are the string.
pub proof fn lemma_join_split(s: Seq<char>, c: char)
    ensures
        split_of(s, c).len() > 0,
        join_of(split_of(s, c), seq![c]) == s,
    decreases s.len(),
{
    let k = text::first_index(s, c);
    text::lemma_first_index(s, c);
    let all = split_of(s, c);
    if k < s.len() {
        let t = s.skip(k + 1);
        lemma_join_split(t, c);
        assert(all.skip(1) =~= split_of(t, c));
        lemma_join_front(all, seq![c]);
        assert(s.take(k) + seq![c] + t =~= s);
    } else {
        assert(all =~= seq![s]);
        reveal_with_fuel(join_of, 2);
    }
}

/// Splitting what was joined gives the pieces back, where none of them holds
/// the separator.
pub proof fn lemma_split_join(p: Seq<Seq<char>>, c: char)
    requires
        p.len() > 0,
        forall|i: int| 0 <= i < p.len() ==> !(#[trigger] p[i]).contains(c),
    ensures
        split_of(join_of(p, seq![c]), c) == p,
    decreases p.len(),
{
    let sep = seq![c];
    let s = join_of(p, sep);
    if p.len() == 1 {
        assert forall|i: int| 0 <= i < s.len() implies #[trigger] s[i] != c by {
            assert(p[0].contains(s[i]));
        }
        text::lemma_first_index_at(s, c, s.len() as int);
        assert(split_of(s, c) =~= p);
    } else {
        lemma_join_front(p, sep);
        let k = p[0].len() as int;
        let rest = join_of(p.skip(1), sep);
        assert(s[k] == c);
        assert forall|i: int| 0 <= i < k implies #[trigger] s[i] != c by {
            assert(s[i] == p[0][i]);
            assert(p[0].contains(s[i]));
        }
        text::lemma_first_index_at(s, c, k);
        assert(s.take(k) =~= p[0]);
        assert(s.skip(k + 1) =~= rest);
        assert forall|i: int| 0 <= i < p.skip(1).len() implies !(#[trigger] p.skip(1)[i]).contains(
            c,
        ) by {
            assert(p.skip(1)[i] == p[i + 1]);
        }
        lemma_split_join(p.skip(1), c);
        assert(seq![p[0]] + p.skip(1) =~= p);
    }
}

/// The lines one after the other, each ended by a newline.
pub open spec fn unlines_of(ls: Seq<Seq<char>>) -> Seq<char>
    decreases ls.len(),
{
    if ls.len() == 0 {
        seq![]
    } else {
        unlines_of(ls.drop_last()) + ls.last().push('\n')
    }
}

/// The lines one after the other, each ended by a newline.
pub fn unlines(ls: &[String]) -> (r: String)
    ensures
        r@ == unlines_of(text::texts(ls@)),
{
    let ghost all = text::texts(ls@);
    let mut out = String::new();
    let mut i: usize = 0;
    assert(all.take(0) =~= seq![]);
    while i < ls.len()
        invariant
            i <= ls@.len(),
            all == text::texts(ls@),
            out@ == unlines_of(all.take(i as int)),
        decreases ls@.len() - i,
    {
        let ghost before = out@;
        out.push_str(ls[i].as_str());
        out.push('\n');
        proof {
            let t = all.take(i + 1);
            assert(t.drop_last() =~= all.take(i as int));
            assert(t.last() == ls@[i as int]@);
            assert(out@ =~= before + t.last().push('\n'));
        }
        i += 1;
    }
    assert(all.take(ls@.len() as int) =~= all);
    out
}

/// Ended lines can be read from the front as well.
pub proof fn lemma_unlines_front(ls: Seq<Seq<char>>)
    requires
        ls.len() > 0,
    ensures
        unlines_of(ls) == ls[0].push('\n') + unlines_of(ls.skip(1)),
    decreases ls.len(),
{
    let t = ls.skip(1);
    if ls.len() == 1 {
        assert(ls.drop_last() =~= seq![]);
        assert(t =~= seq![]);
        assert(unlines_of(ls) =~= ls[0].push('\n') + unlines_of(t));
    } else {
        lemma_unlines_front(ls.drop_last());
        assert(ls.drop_last().skip(1) =~= t.drop_last());
        assert(ls.drop_last()[0] == ls[0]);
        assert(t.last() == ls.last());
        let m = unlines_of(t.drop_last());
        assert((ls[0].push('\n') + m) + ls.last().push('\n') =~= ls[0].push('\n') + (m
            + ls.last().push('\n')));
    }
}

/// Whether a text is one line: without a newline, and without a carriage
/// return at its end.
pub open spec fn is_line(s: Seq<char>) -> bool {
    !s.contains('\n') && (s.len() > 0 ==> s.last() != '\r')
}

/// The lines of a text that ends one, followed by more text.
pub proof fn lemma_lines_append(x: Seq<char>, y: Seq<char>)
    requires
        x.len() > 0,
        x.last() == '\n',
    ensures
        lines_of(x + y) == lines_of(x) + lines_of(y),
    decreases x.len(),
{
    let s = x + y;
    text::lemma_first_index(x, '\n');
    let k = text::first_index(x, '\n');
    assert(x.contains(x.last()));
    assert(k < x.len());
    assert forall|i: int| 0 <= i < k implies #[trigger] s[i] != '\n' by {
        assert(s[i] == x[i]);
    }
    text::lemma_first_index_at(s, '\n', k);
    assert(s.take(k) =~= x.take(k));
    let rest = x.skip(k + 1);
    assert(s.skip(k + 1) =~= rest + y);
    if rest.len() == 0 {
        assert(rest + y =~= y);
        assert(rest =~= seq![]);
        assert(lines_of(rest) =~= seq![]);
        assert(lines_of(x) =~= seq![strip_cr(x.take(k))]);
    } else {
        assert(rest.last() == x.last());
        lemma_lines_append(rest, y);
    }
    assert(lines_of(s) =~= lines_of(x) + lines_of(y));
}

/// No line holds a newline.
pub proof fn lemma_lines_whole(s: Seq<char>, i: int)
    requires
        0 <= i < lines_of(s).len(),
    ensures
        !lines_of(s)[i].contains('\n'),
    decreases s.len(),
{
    text::lemma_first_index(s, '\n');
    let k = text::first_index(s, '\n');
    if k < s.len() {
        let head = strip_cr(s.take(k));
        assert forall|j: int| 0 <= j < head.len() implies #[trigger] head[j] != '\n' by {
            assert(head[j] == s[j]);
        }
        if i > 0 {
            lemma_lines_whole(s.skip(k + 1), i - 1);
            assert(lines_of(s)[i] == lines_of(s.skip(k + 1))[i - 1]);
        } else {
            assert(lines_of(s)[0] == head);
        }
    } else {
        assert(lines_of(s)[0] == s);
    }
}

/// Ended lines, taken together.
pub proof fn lemma_unlines_append(a: Seq<Seq<char>>, b: Seq<Seq<char>>)
    ensures
        unlines_of(a + b) == unlines_of(a) + unlines_of(b),
    decreases b.len(),
{
    if b.len() == 0 {
        assert(a + b =~= a);
        assert(unlines_of(a) + unlines_of(b) =~= unlines_of(a));
    } else {
        assert((a + b).drop_last() =~= a + b.drop_last());
        lemma_unlines_append(a, b.drop_last());
        assert(unlines_of(a + b) =~= unlines_of(a) + unlines_of(b));
    }
}

/// The lines of ended texts followed by more text: a carriage return at the
/// end of one is not part of its line.
pub proof fn lemma_lines_ended(ls: Seq<Seq<char>>, more: Seq<char>)
    requires
        forall|i: int| 0 <= i < ls.len() ==> !(#[trigger] ls[i]).contains('\n'),
    ensures
        lines_of(unlines_of(ls) + more) == Seq::new(ls.len(), |i: int| strip_cr(ls[i])) + lines_of(
            more,
        ),
    decreases ls.len(),
{
    let s = unlines_of(ls) + more;
    let read = Seq::new(ls.len(), |i: int| strip_cr(ls[i]));
    if ls.len() == 0 {
        assert(s =~= more);
        assert(read + lines_of(more) =~= lines_of(more));
    } else {
        lemma_unlines_front(ls);
        let k = ls[0].len() as int;
        let t = ls.skip(1);
        assert(s[k] == '\n');
        assert forall|i: int| 0 <= i < k implies #[trigger] s[i] != '\n' by {
            assert(s[i] == ls[0][i]);
            assert(ls[0].contains(s[i]));
        }
        text::lemma_first_index_at(s, '\n', k);
        assert(s.take(k) =~= ls[0]);
        assert(s.skip(k + 1) =~= unlines_of(t) + more);
        assert forall|i: int| 0 <= i < t.len() implies !(#[trigger] t[i]).contains('\n') by {
            assert(t[i] == ls[i + 1]);
        }
        lemma_lines_ended(t, more);
        let rest = Seq::new(t.len(), |i: int| strip_cr(t[i]));
        assert(seq![strip_cr(ls[0])] + rest =~= read);
        assert(seq![strip_cr(ls[0])] + (rest + lines_of(more)) =~= read + lines_of(more));
    }
}

/// The lines of ended lines followed by more text.
pub proof fn lemma_lines_unlines(ls: Seq<Seq<char>>, more: Seq<char>)
    requires
        forall|i: int| 0 <= i < ls.len() ==> is_line(#[trigger] ls[i]),
    ensures
        lines_of(unlines_of(ls) + more) == ls + lines_of(more),
{
    lemma_lines_ended(ls, more);
    assert(Seq::new(ls.len(), |i: int| strip_cr(ls[i])) =~= ls);
}

// ---------------------------------------------------------------------------
// Splitting at a string
// ---------------------------------------------------------------------------

/// The text before and after the first `p`, where there is one.
pub open spec fn split_once_str_of(s: Seq<char>, p: Seq<char>) -> Option<(Seq<char>, Seq<char>)> {
    let k = text::before_of(s, p).len() as int;
    if p.is_prefix_of(s.skip(k)) {
        Some((s.take(k), s.skip(k + p.len())))
    } else {
        None
    }
}

proof fn lemma_before_len(s: Seq<char>, p: Seq<char>)
    ensures
        text::before_of(s, p).len() <= s.len(),
    decreases s.len(),
{
    if s.len() > 0 && !p.is_prefix_of(s) {
        lemma_before_len(s.skip(1), p);
    }
}

/// The pieces of `s` between occurrences of `p`, which is not empty.
pub open spec fn split_str_of(s: Seq<char>, p: Seq<char>) -> Seq<Seq<char>>
    decreases s.len(),
    when p.len() > 0
    via split_str_of_terminates
{
    match split_once_str_of(s, p) {
        Some((a, b)) => seq![a] + split_str_of(b, p),
        None => seq![s],
    }
}

#[via_fn]
proof fn split_str_of_terminates(s: Seq<char>, p: Seq<char>) {
    lemma_before_len(s, p);
}

/// The text before and after the first `p`, where there is one.
pub fn split_once_str<'a>(s: &'a str, p: &str) -> (r: Option<(&'a str, &'a str)>)
    ensures
        match r {
            Some((a, b)) => split_once_str_of(s@, p@) == Some((a@, b@)),
            None => split_once_str_of(s@, p@) is None,
        },
{
    proof {
        lemma_before_len(s@, p@);
    }
    let k: usize = text::before(s, p).unicode_len();
    let n: usize = s.unicode_len();
    let m: usize = p.unicode_len();
    let rest = s.substring_char(k, n);
    assert(rest@ =~= s@.skip(k as int));
    if text::starts_with(rest, p) {
        let a = s.substring_char(0, k);
        let b = s.substring_char(k + m, n);
        assert(a@ =~= s@.take(k as int));
        assert(b@ =~= s@.skip(k + p@.len()));
        Some((a, b))
    } else {
        None
    }
}

/// The pieces of `s` between occurrences of `p`.
pub fn split_str(s: &str, p: &str) -> (r: Vec<String>)
    requires
        p@.len() > 0,
    ensures
        text::texts(r@) == split_str_of(s@, p@),
{
    let mut out: Vec<String> = Vec::new();
    let mut rest: &str = s;
    assert(text::texts(out@) + split_str_of(s@, p@) =~= split_str_of(s@, p@));
    loop
        invariant
            p@.len() > 0,
            text::texts(out@) + split_str_of(rest@, p@) == split_str_of(s@, p@),
        decreases rest@.len(),
    {
        proof {
            lemma_before_len(rest@, p@);
        }
        let ghost before = text::texts(out@);
        match split_once_str(rest, p) {
            Some((a, b)) => {
                out.push(a.to_owned());
                proof {
                    assert(text::texts(out@) =~= before.push(a@));
                    assert(before + (seq![a@] + split_str_of(b@, p@)) =~= before.push(a@)
                        + split_str_of(b@, p@));
                }
                rest = b;
            },
            None => {
                out.push(rest.to_owned());
                assert(text::texts(out@) =~= before + seq![rest@]);
                return out;
            },
        }
    }
}

/// The strings that are not empty.
pub open spec fn full_of(pieces: Seq<Seq<char>>) -> Seq<Seq<char>>
    decreases pieces.len(),
{
    if pieces.len() == 0 {
        seq![]
    } else if pieces.last().len() == 0 {
        full_of(pieces.drop_last())
    } else {
        full_of(pieces.drop_last()).push(pieces.last())
    }
}

/// The strings that are not empty.
pub fn full(pieces: &[String]) -> (r: Vec<String>)
    ensures
        text::texts(r@) == full_of(text::texts(pieces@)),
{
    let ghost all = text::texts(pieces@);
    let mut out: Vec<String> = Vec::new();
    let mut i: usize = 0;
    assert(all.take(0) =~= seq![]);
    assert(text::texts(out@) =~= seq![]);
    while i < pieces.len()
        invariant
            i <= pieces@.len(),
            all == text::texts(pieces@),
            text::texts(out@) == full_of(all.take(i as int)),
        decreases pieces@.len() - i,
    {
        proof {
            assert(all.take(i + 1).drop_last() =~= all.take(i as int));
            assert(all.take(i + 1).last() == pieces@[i as int]@);
        }
        if !pieces[i].as_str().is_empty() {
            let ghost before = text::texts(out@);
            out.push(pieces[i].clone());
            assert(text::texts(out@) =~= before.push(pieces@[i as int]@));
        }
        i += 1;
    }
    assert(all.take(pieces@.len() as int) =~= all);
    out
}

} // verus!
