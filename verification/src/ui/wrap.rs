//! Wrapping text to a width, word by word.

use crate::parts;
use crate::text;
use vstd::prelude::*;

verus! {

broadcast use vstd::string::group_string_axioms;

/// The lines that words fill behind a line begun, none of them cut.
pub open spec fn fill_of(words: Seq<Seq<char>>, width: int, line: Seq<char>) -> Seq<Seq<char>>
    decreases words.len(),
{
    if words.len() == 0 {
        seq![line]
    } else if line.len() == 0 {
        fill_of(words.skip(1), width, words[0])
    } else if line.len() + 1 + words[0].len() > width {
        seq![line] + fill_of(words.skip(1), width, words[0])
    } else {
        fill_of(words.skip(1), width, line + " "@ + words[0])
    }
}

/// The lines of paragraphs, each wrapped for itself.
pub open spec fn paragraphs_of(paras: Seq<Seq<char>>, width: int) -> Seq<Seq<char>>
    decreases paras.len(),
{
    if paras.len() == 0 {
        seq![]
    } else {
        paragraphs_of(paras.drop_last(), width) + fill_of(
            parts::words_of(paras.last()),
            width,
            seq![],
        )
    }
}

fn fits(line: usize, word: usize, width: usize) -> (r: bool)
    ensures
        r == (line + 1 + word <= width),
{
    word < width && line <= width - word - 1
}

fn fill(out: &mut Vec<String>, words: &[String], width: usize)
    ensures
        text::texts(final(out)@) == text::texts(old(out)@) + fill_of(
            text::texts(words@),
            width as int,
            seq![],
        ),
{
    let ghost ws = text::texts(words@);
    let ghost start = text::texts(out@);
    let mut line = String::new();
    let mut i: usize = 0;
    assert(line@ =~= seq![]);
    assert(ws.skip(0) =~= ws);
    while i < words.len()
        invariant
            i <= words@.len(),
            ws == text::texts(words@),
            text::texts(out@) + fill_of(ws.skip(i as int), width as int, line@) == start + fill_of(
                ws,
                width as int,
                seq![],
            ),
        decreases words@.len() - i,
    {
        let ghost rest = ws.skip(i as int);
        let ghost before = text::texts(out@);
        assert(rest[0] == words@[i as int]@);
        assert(rest.skip(1) =~= ws.skip(i + 1));
        let word = words[i].as_str();
        let n: usize = line.as_str().unicode_len();
        if n == 0 {
            line = word.to_owned();
        } else if !fits(n, word.unicode_len(), width) {
            let ghost done = line@;
            out.push(line);
            line = word.to_owned();
            proof {
                let more = fill_of(ws.skip(i + 1), width as int, word@);
                assert(text::texts(out@) =~= before.push(done));
                assert(before + (seq![done] + more) =~= before.push(done) + more);
            }
        } else {
            line = text::cat3(line.as_str(), " ", word);
        }
        i += 1;
    }
    let ghost before = text::texts(out@);
    let ghost done = line@;
    out.push(line);
    assert(ws.skip(i as int).len() == 0);
    assert(text::texts(out@) =~= before.push(done));
    assert(before + seq![done] =~= before.push(done));
}

/// Hard-wrap at `width` columns, for a view that does not wrap itself. Blank
/// lines between paragraphs survive.
pub fn wrap(text: &str, width: usize) -> (r: String)
    ensures
        r@ == parts::unlines_of(paragraphs_of(parts::split_of(text@, '\n'), width as int)),
{
    let paras = parts::split(text, '\n');
    let ghost all = text::texts(paras@);
    let mut out: Vec<String> = Vec::new();
    let mut i: usize = 0;
    assert(all.take(0) =~= seq![]);
    assert(text::texts(out@) =~= seq![]);
    while i < paras.len()
        invariant
            i <= paras@.len(),
            all == text::texts(paras@),
            text::texts(out@) == paragraphs_of(all.take(i as int), width as int),
        decreases paras@.len() - i,
    {
        assert(all.take(i + 1).drop_last() =~= all.take(i as int));
        assert(all.take(i + 1).last() == paras@[i as int]@);
        let words = parts::words(paras[i].as_str());
        fill(&mut out, &words, width);
        i += 1;
    }
    assert(all.take(paras@.len() as int) =~= all);
    parts::unlines(&out)
}

/// The lines that words fill behind a line begun, words longer than a line
/// cut to it.
pub open spec fn cut_of(words: Seq<Seq<char>>, width: int, line: Seq<char>) -> Seq<Seq<char>>
    decreases words.len(),
{
    if words.len() == 0 {
        if line.len() == 0 {
            seq![]
        } else {
            seq![line]
        }
    } else {
        let w = words[0];
        let over = line.len() > 0 && line.len() + 1 + w.len() > width;
        let head: Seq<Seq<char>> = if over {
            seq![line]
        } else {
            seq![]
        };
        let begun = if over || line.len() == 0 {
            seq![]
        } else {
            line + " "@
        };
        if w.len() > width {
            head + seq![begun + w.take(width)] + cut_of(words.skip(1), width, seq![])
        } else {
            head + cut_of(words.skip(1), width, begun + w)
        }
    }
}

/// The lines of paragraphs, each wrapped for itself; a blank one is an empty
/// line.
pub open spec fn cut_paragraphs(paras: Seq<Seq<char>>, width: int) -> Seq<Seq<char>>
    decreases paras.len(),
{
    if paras.len() == 0 {
        seq![]
    } else {
        cut_paragraphs(paras.drop_last(), width) + (if text::is_blank(paras.last()) {
            seq![seq![]]
        } else {
            cut_of(parts::words_of(paras.last()), width, seq![])
        })
    }
}

/// The lines of a text at a width of at least eight columns.
pub open spec fn wrapped_of(s: Seq<char>, width: int) -> Seq<Seq<char>> {
    cut_paragraphs(
        parts::split_of(s, '\n'),
        if width < 8 {
            8
        } else {
            width
        },
    )
}

fn push_line(out: &mut Vec<String>, line: String)
    ensures
        text::texts(final(out)@) == text::texts(old(out)@).push(line@),
{
    let ghost before = text::texts(out@);
    out.push(line);
    assert(text::texts(out@) =~= before.push(line@));
}

fn cut(out: &mut Vec<String>, words: &[String], width: usize)
    ensures
        text::texts(final(out)@) == text::texts(old(out)@) + cut_of(
            text::texts(words@),
            width as int,
            seq![],
        ),
{
    let ghost ws = text::texts(words@);
    let ghost start = text::texts(out@);
    let mut line = String::new();
    let mut i: usize = 0;
    assert(line@ =~= seq![]);
    assert(ws.skip(0) =~= ws);
    while i < words.len()
        invariant
            i <= words@.len(),
            ws == text::texts(words@),
            text::texts(out@) + cut_of(ws.skip(i as int), width as int, line@) == start + cut_of(
                ws,
                width as int,
                seq![],
            ),
        decreases words@.len() - i,
    {
        let ghost rest = ws.skip(i as int);
        let ghost before = text::texts(out@);
        let ghost was = line@;
        assert(rest[0] == words@[i as int]@);
        assert(rest.skip(1) =~= ws.skip(i + 1));
        let word = words[i].as_str();
        let n: usize = line.as_str().unicode_len();
        let w: usize = word.unicode_len();
        let over = n > 0 && !fits(n, w, width);
        let ghost head: Seq<Seq<char>> = if over {
            seq![was]
        } else {
            seq![]
        };
        let mut begun = String::new();
        if over {
            push_line(out, line);
        } else if n > 0 {
            begun = text::cat2(line.as_str(), " ");
        }
        proof {
            assert(text::texts(out@) =~= before + head);
            assert(over || n == 0 ==> begun@ =~= seq![]);
        }
        if w > width {
            assert(word@.subrange(0, width as int) =~= word@.take(width as int));
            let piece = text::cat2(begun.as_str(), word.substring_char(0, width));
            push_line(out, piece);
            line = String::new();
            proof {
                assert(line@ =~= seq![]);
                let more = cut_of(ws.skip(i + 1), width as int, seq![]);
                assert(before + (head + seq![piece@] + more) =~= (before + head).push(piece@)
                    + more);
            }
        } else {
            line = text::cat2(begun.as_str(), word);
            proof {
                let more = cut_of(ws.skip(i + 1), width as int, line@);
                assert(before + (head + more) =~= (before + head) + more);
            }
        }
        i += 1;
    }
    let ghost before = text::texts(out@);
    let ghost was = line@;
    assert(ws.skip(i as int).len() == 0);
    if line.as_str().unicode_len() > 0 {
        push_line(out, line);
        assert(before + seq![was] =~= before.push(was));
    } else {
        assert(before + seq![] =~= before);
    }
}

/// Hard-wrap `text` at `width`, keeping blank lines as paragraph breaks. A
/// word longer than the line is cut rather than allowed to overflow it.
pub fn wrap_lines(text: &str, width: usize) -> (r: Vec<String>)
    ensures
        text::texts(r@) == wrapped_of(text@, width as int),
{
    let width: usize = if width < 8 {
        8
    } else {
        width
    };
    let paras = parts::split(text, '\n');
    let ghost all = text::texts(paras@);
    let mut out: Vec<String> = Vec::new();
    let mut i: usize = 0;
    assert(all.take(0) =~= seq![]);
    assert(text::texts(out@) =~= seq![]);
    while i < paras.len()
        invariant
            i <= paras@.len(),
            all == text::texts(paras@),
            text::texts(out@) == cut_paragraphs(all.take(i as int), width as int),
        decreases paras@.len() - i,
    {
        assert(all.take(i + 1).drop_last() =~= all.take(i as int));
        assert(all.take(i + 1).last() == paras@[i as int]@);
        if text::blank(paras[i].as_str()) {
            let none = String::new();
            assert(none@ =~= seq![]);
            let ghost before = text::texts(out@);
            push_line(&mut out, none);
            assert(before.push(none@) =~= before + seq![seq![]]);
        } else {
            let words = parts::words(paras[i].as_str());
            cut(&mut out, &words, width);
        }
        i += 1;
    }
    assert(all.take(paras@.len() as int) =~= all);
    out
}

// ---------------------------------------------------------------------------
// What wrapping promises
// ---------------------------------------------------------------------------

/// Whether every line fits a width.
pub open spec fn is_narrow(lines: Seq<Seq<char>>, width: int) -> bool {
    forall|i: int| 0 <= i < lines.len() ==> (#[trigger] lines[i]).len() <= width
}

proof fn lemma_narrow_append(a: Seq<Seq<char>>, b: Seq<Seq<char>>, width: int)
    requires
        is_narrow(a, width),
        is_narrow(b, width),
    ensures
        is_narrow(a + b, width),
{
    assert forall|i: int| 0 <= i < (a + b).len() implies (#[trigger] (a + b)[i]).len() <= width by {
        if i < a.len() {
            assert((a + b)[i] == a[i]);
        } else {
            assert((a + b)[i] == b[i - a.len()]);
        }
    }
}

proof fn lemma_cut_narrow(words: Seq<Seq<char>>, width: int, line: Seq<char>)
    requires
        width >= 1,
        line.len() <= width,
    ensures
        is_narrow(cut_of(words, width, line), width),
    decreases words.len(),
{
    reveal_strlit(" ");
    if words.len() > 0 {
        let w = words[0];
        let over = line.len() > 0 && line.len() + 1 + w.len() > width;
        let head: Seq<Seq<char>> = if over {
            seq![line]
        } else {
            seq![]
        };
        let begun = if over || line.len() == 0 {
            seq![]
        } else {
            line + " "@
        };
        assert(is_narrow(head, width));
        if w.len() > width {
            lemma_cut_narrow(words.skip(1), width, seq![]);
            let one = seq![begun + w.take(width)];
            assert(is_narrow(one, width));
            lemma_narrow_append(head, one, width);
            lemma_narrow_append(head + one, cut_of(words.skip(1), width, seq![]), width);
        } else {
            lemma_cut_narrow(words.skip(1), width, begun + w);
            lemma_narrow_append(head, cut_of(words.skip(1), width, begun + w), width);
        }
    }
}

proof fn lemma_cut_paragraphs_narrow(paras: Seq<Seq<char>>, width: int)
    requires
        width >= 1,
    ensures
        is_narrow(cut_paragraphs(paras, width), width),
    decreases paras.len(),
{
    if paras.len() > 0 {
        lemma_cut_paragraphs_narrow(paras.drop_last(), width);
        lemma_cut_narrow(parts::words_of(paras.last()), width, seq![]);
        let blank: Seq<Seq<char>> = seq![seq![]];
        assert(is_narrow(blank, width));
        let last = if text::is_blank(paras.last()) {
            blank
        } else {
            cut_of(parts::words_of(paras.last()), width, seq![])
        };
        lemma_narrow_append(cut_paragraphs(paras.drop_last(), width), last, width);
    }
}

/// No line of a wrapped text is wider than the width, whatever the words.
pub proof fn law_wrapped_lines_fit(s: Seq<char>, width: int)
    ensures
        is_narrow(
            wrapped_of(s, width),
            if width < 8 {
                8
            } else {
                width
            },
        ),
{
    lemma_cut_paragraphs_narrow(
        parts::split_of(s, '\n'),
        if width < 8 {
            8
        } else {
            width
        },
    );
}

/// Whether `w` is one word.
pub open spec fn is_word(w: Seq<char>) -> bool {
    w.len() > 0 && forall|i: int| 0 <= i < w.len() ==> !text::is_white(#[trigger] w[i])
}

/// The words of lines, one line after the other.
pub open spec fn words_in(lines: Seq<Seq<char>>) -> Seq<Seq<char>>
    decreases lines.len(),
{
    if lines.len() == 0 {
        seq![]
    } else {
        parts::words_of(lines[0]) + words_in(lines.skip(1))
    }
}

proof fn lemma_trim_start_append(s: Seq<char>, more: Seq<char>)
    ensures
        text::trim_start_of(s).len() > 0 ==> text::trim_start_of(s + more) == text::trim_start_of(s)
            + more,
        text::trim_start_of(s).len() == 0 ==> text::trim_start_of(s + more)
            == text::trim_start_of(more),
    decreases s.len(),
{
    if s.len() > 0 && text::is_white(s[0]) {
        assert((s + more).skip(1) =~= s.skip(1) + more);
        lemma_trim_start_append(s.skip(1), more);
    } else if s.len() == 0 {
        assert(s + more =~= more);
    }
}

proof fn lemma_word_len_append(s: Seq<char>, more: Seq<char>)
    requires
        more.len() > 0,
        text::is_white(more[0]),
    ensures
        parts::word_len(s + more) == parts::word_len(s),
    decreases s.len(),
{
    if s.len() > 0 && !text::is_white(s[0]) {
        assert((s + more).skip(1) =~= s.skip(1) + more);
        lemma_word_len_append(s.skip(1), more);
    } else if s.len() == 0 {
        assert(s + more =~= more);
    }
}

proof fn lemma_one_word(w: Seq<char>)
    requires
        is_word(w),
    ensures
        parts::words_of(w) == seq![w],
{
    parts::lemma_word_len(w);
    let k = parts::word_len(w);
    if k < w.len() {
        assert(!text::is_white(w[k]));
    }
    assert(w.take(k) =~= w);
    assert(w.skip(k) =~= seq![]);
    assert(parts::words_of(seq![]) =~= seq![]);
    assert(parts::words_of(w) =~= seq![w]);
}

proof fn lemma_words_append(s: Seq<char>, w: Seq<char>)
    requires
        is_word(w),
    ensures
        parts::words_of(s + " "@ + w) == parts::words_of(s).push(w),
    decreases s.len(),
{
    reveal_strlit(" ");
    let more = " "@ + w;
    assert(s + " "@ + w =~= s + more);
    assert(more[0] == ' ');
    assert(text::is_white(' '));
    let t = text::trim_start_of(s);
    text::lemma_trim_start(s);
    lemma_trim_start_append(s, more);
    if t.len() == 0 {
        assert(more.skip(1) =~= w);
        lemma_one_word(w);
        assert(text::trim_start_of(more) == text::trim_start_of(w));
        assert(text::trim_start_of(w) == w);
        assert(text::trim_start_of(s + more) == w);
        let k = parts::word_len(w);
        assert(parts::words_of(s + more) == seq![w.take(k)] + parts::words_of(w.skip(k)));
        assert(parts::words_of(w) == seq![w.take(k)] + parts::words_of(w.skip(k)));
        assert(parts::words_of(s) =~= seq![]);
        assert(seq![w] =~= parts::words_of(s).push(w));
    } else {
        let k = parts::word_len(t);
        parts::lemma_word_len(t);
        lemma_word_len_append(t, more);
        let rest = t.skip(k);
        assert((t + more).skip(k) =~= rest + more);
        assert((t + more).take(k) =~= t.take(k));
        assert(k > 0);
        lemma_words_append(rest, w);
        assert(rest + " "@ + w =~= rest + more);
        assert(seq![t.take(k)] + parts::words_of(rest).push(w) =~= (seq![t.take(k)]
            + parts::words_of(rest)).push(w));
    }
}

proof fn lemma_fill(words: Seq<Seq<char>>, width: int, line: Seq<char>)
    requires
        forall|i: int| 0 <= i < words.len() ==> is_word(#[trigger] words[i]),
    ensures
        words_in(fill_of(words, width, line)) == parts::words_of(line) + words,
        line.len() <= width && (forall|i: int| 0 <= i < words.len() ==> (#[trigger] words[i]).len() <= width)
            ==> is_narrow(fill_of(words, width, line), width),
    decreases words.len(),
{
    reveal_strlit(" ");
    if words.len() == 0 {
        reveal_with_fuel(words_in, 2);
        assert(seq![line].skip(1) =~= seq![]);
        assert(parts::words_of(line) + Seq::<Seq<char>>::empty() =~= parts::words_of(line));
        assert(words =~= seq![]);
    } else {
        let w = words[0];
        let rest = words.skip(1);
        assert forall|i: int| 0 <= i < rest.len() implies is_word(#[trigger] rest[i]) by {
            assert(rest[i] == words[i + 1]);
        }
        if forall|i: int| 0 <= i < words.len() ==> (#[trigger] words[i]).len() <= width {
            assert forall|i: int| 0 <= i < rest.len() implies (#[trigger] rest[i]).len() <= width by {
                assert(rest[i] == words[i + 1]);
            }
        }
        lemma_one_word(w);
        assert(seq![w] + rest =~= words);
        if line.len() == 0 {
            lemma_fill(rest, width, w);
            assert(line =~= seq![]);
            assert(parts::words_of(line) =~= seq![]);
            assert(parts::words_of(line) + words =~= words);
        } else if line.len() + 1 + w.len() > width {
            lemma_fill(rest, width, w);
            let more = fill_of(rest, width, w);
            assert((seq![line] + more).skip(1) =~= more);
            assert((seq![line] + more)[0] == line);
            if line.len() <= width && is_narrow(more, width) {
                lemma_narrow_append(seq![line], more, width);
            }
        } else {
            lemma_fill(rest, width, line + " "@ + w);
            lemma_words_append(line, w);
            assert(parts::words_of(line).push(w) + rest =~= parts::words_of(line) + words);
        }
    }
}

/// Wrapping words keeps them all, in order, and where each fits a line on its
/// own, every line fits.
pub proof fn law_wrapping_keeps_words(words: Seq<Seq<char>>, width: int)
    requires
        width >= 0,
        forall|i: int| 0 <= i < words.len() ==> is_word(#[trigger] words[i]),
    ensures
        words_in(fill_of(words, width, seq![])) == words,
        (forall|i: int| 0 <= i < words.len() ==> (#[trigger] words[i]).len() <= width)
            ==> is_narrow(fill_of(words, width, seq![]), width),
{
    lemma_fill(words, width, seq![]);
    let none: Seq<char> = seq![];
    assert(parts::words_of(none) =~= seq![]);
    assert(parts::words_of(none) + words =~= words);
}

} // verus!
