//! The per-field help copy, read from a markdown document.
//!
//! The document is the single source of the text: it is parsed once, rather
//! than being duplicated as string literals next to each widget. The shape
//! parsed is
//!
//! ```text
//! ### <key>
//! **Label:** <label>
//! **Summary:** <one line>
//! **Detail:** <a few sentences>
//! **Examples:** <comma-separated>
//! ```
//!
//! Anything else in the file -- prose, headings, fences -- is ignored.

use crate::parts;
use crate::text;
use vstd::prelude::*;

verus! {

broadcast use vstd::string::group_string_axioms;

/// One `###` block of the help document.
#[derive(Debug, PartialEq, Eq)]
pub struct Entry {
    pub key: String,
    pub label: String,
    pub summary: String,
    pub detail: String,
    pub examples: String,
}

/// The contents of an [`Entry`].
pub struct EntryView {
    pub key: Seq<char>,
    pub label: Seq<char>,
    pub summary: Seq<char>,
    pub detail: Seq<char>,
    pub examples: Seq<char>,
}

impl View for Entry {
    type V = EntryView;

    open spec fn view(&self) -> EntryView {
        EntryView {
            key: self.key@,
            label: self.label@,
            summary: self.summary@,
            detail: self.detail@,
            examples: self.examples@,
        }
    }
}

/// The contents of a list of entries.
pub open spec fn entry_views(v: Seq<Entry>) -> Seq<EntryView> {
    Seq::new(v.len(), |i: int| v[i]@)
}

impl EntryView {
    /// The first of the comma-separated examples, without a parenthetical
    /// note behind it.
    pub open spec fn example_of(self) -> Seq<char> {
        let first = text::trim_of(parts::split_of(self.examples, ',')[0]);
        text::trim_of(text::before_of(first, " ("@))
    }
}

impl Entry {
    /// The first of the comma-separated examples, which is the one written to
    /// be a usable default. A trailing parenthetical note (`(fstab only)`) is
    /// stripped, since it is commentary rather than part of the value.
    pub fn first_example(&self) -> (r: String)
        ensures
            r@ == self@.example_of(),
    {
        let pieces = parts::split(self.examples.as_str(), ',');
        proof {
            assert(text::texts(pieces@).len() == pieces@.len());
            assert(parts::split_of(self.examples@, ',').len() > 0);
            assert(text::texts(pieces@)[0] == parts::split_of(self.examples@, ',')[0]);
        }
        let first = text::trim(pieces[0].as_str());
        text::trim(text::before(first, " (")).to_owned()
    }
}

/// The entries known after one more line.
pub open spec fn after_line(acc: Seq<EntryView>, line: Seq<char>) -> Seq<EntryView> {
    let t = text::trim_of(line);
    if text::after_prefix(t, "### "@) is Some {
        acc.push(
            EntryView {
                key: text::trim_of(text::after_prefix(t, "### "@)->0),
                label: seq![],
                summary: seq![],
                detail: seq![],
                examples: seq![],
            },
        )
    } else if acc.len() == 0 {
        acc
    } else {
        let cur = acc.last();
        if text::after_prefix(t, "**Label:**"@) is Some {
            let v = text::trim_of(text::after_prefix(t, "**Label:**"@)->0);
            acc.drop_last().push(EntryView { label: v, ..cur })
        } else if text::after_prefix(t, "**Summary:**"@) is Some {
            let v = text::trim_of(text::after_prefix(t, "**Summary:**"@)->0);
            acc.drop_last().push(EntryView { summary: v, ..cur })
        } else if text::after_prefix(t, "**Detail:**"@) is Some {
            let v = text::trim_of(text::after_prefix(t, "**Detail:**"@)->0);
            acc.drop_last().push(EntryView { detail: v, ..cur })
        } else if text::after_prefix(t, "**Examples:**"@) is Some {
            let v = text::trim_of(text::after_prefix(t, "**Examples:**"@)->0);
            acc.drop_last().push(EntryView { examples: v, ..cur })
        } else {
            acc
        }
    }
}

/// The entries known after some lines.
pub open spec fn after_lines(lines: Seq<Seq<char>>) -> Seq<EntryView>
    decreases lines.len(),
{
    if lines.len() == 0 {
        seq![]
    } else {
        after_line(after_lines(lines.drop_last()), lines.last())
    }
}

/// Read one line of the document.
fn read_line(out: &mut Vec<Entry>, line: &str)
    ensures
        entry_views(final(out)@) == after_line(entry_views(old(out)@), line@),
{
    let t = text::trim(line);
    let ghost acc = entry_views(out@);
    match text::strip_prefix(t, "### ") {
        Some(key) => {
            out.push(
                Entry {
                    key: text::trim(key).to_owned(),
                    label: String::new(),
                    summary: String::new(),
                    detail: String::new(),
                    examples: String::new(),
                },
            );
            assert(entry_views(out@) =~= after_line(acc, line@));
            return ;
        },
        None => {},
    }
    match out.pop() {
        None => {
            assert(entry_views(out@) =~= acc);
        },
        Some(mut cur) => {
            if let Some(rest) = text::strip_prefix(t, "**Label:**") {
                cur.label = text::trim(rest).to_owned();
            } else if let Some(rest) = text::strip_prefix(t, "**Summary:**") {
                cur.summary = text::trim(rest).to_owned();
            } else if let Some(rest) = text::strip_prefix(t, "**Detail:**") {
                cur.detail = text::trim(rest).to_owned();
            } else if let Some(rest) = text::strip_prefix(t, "**Examples:**") {
                cur.examples = text::trim(rest).to_owned();
            }
            out.push(cur);
            assert(entry_views(out@) =~= acc.drop_last().push(cur@));
            assert(acc.drop_last().push(acc.last()) =~= acc);
        },
    }
}

/// The entries of a help document, in order.
pub fn parse(src: &str) -> (r: Vec<Entry>)
    ensures
        entry_views(r@) == after_lines(parts::lines_of(src@)),
{
    let lines = parts::lines(src);
    let ghost all = text::texts(lines@);
    let mut out: Vec<Entry> = Vec::new();
    let mut i: usize = 0;
    assert(all.take(0) =~= seq![]);
    assert(entry_views(out@) =~= seq![]);
    while i < lines.len()
        invariant
            i <= lines@.len(),
            all == text::texts(lines@),
            entry_views(out@) == after_lines(all.take(i as int)),
        decreases lines@.len() - i,
    {
        read_line(&mut out, lines[i].as_str());
        assert(all.take(i + 1).drop_last() =~= all.take(i as int));
        i += 1;
    }
    assert(all.take(lines@.len() as int) =~= all);
    out
}

/// The first entry of a document with that key.
pub open spec fn entry_of(doc: Seq<EntryView>, key: Seq<char>) -> Option<EntryView>
    decreases doc.len(),
{
    if doc.len() == 0 {
        None
    } else if doc[0].key == key {
        Some(doc[0])
    } else {
        entry_of(doc.skip(1), key)
    }
}

/// The help block for `key`, or `None` if the document has no such entry.
pub fn entry<'a>(doc: &'a [Entry], key: &str) -> (r: Option<&'a Entry>)
    ensures
        match r {
            Some(e) => entry_of(entry_views(doc@), key@) == Some(e@),
            None => entry_of(entry_views(doc@), key@) is None,
        },
{
    let ghost all = entry_views(doc@);
    let mut i: usize = 0;
    assert(all.skip(0) =~= all);
    while i < doc.len()
        invariant
            i <= doc@.len(),
            all == entry_views(doc@),
            entry_of(all, key@) == entry_of(all.skip(i as int), key@),
        decreases doc@.len() - i,
    {
        if text::same(doc[i].key.as_str(), key) {
            assert(all.skip(i as int)[0] == doc@[i as int]@);
            return Some(&doc[i]);
        }
        assert(all.skip(i as int).skip(1) =~= all.skip(i + 1));
        i += 1;
    }
    None
}

// ---------------------------------------------------------------------------
// What a document gives
// ---------------------------------------------------------------------------

/// A line with a label and a value behind a blank.
pub open spec fn labelled(label: Seq<char>, value: Seq<char>) -> Seq<char> {
    label + seq![' '] + value
}

/// Whether a text has no white space at either end, and is not empty.
pub open spec fn is_tight(s: Seq<char>) -> bool {
    s.len() > 0 && !text::is_white(s[0]) && !text::is_white(s.last())
}

proof fn lemma_labelled(label: Seq<char>, value: Seq<char>)
    requires
        is_tight(label),
        is_tight(value),
    ensures
        ({
            let t = labelled(label, value);
            &&& text::trim_of(t) == t
            &&& label.is_prefix_of(t)
            &&& text::after_prefix(t, label) == Some(seq![' '] + value)
            &&& text::trim_of(seq![' '] + value) == value
        }),
{
    let t = labelled(label, value);
    let v = seq![' '] + value;
    assert(t[0] == label[0] && t.last() == value.last());
    text::lemma_trim_tight(t);
    assert(t.take(label.len() as int) =~= label);
    assert(label.is_prefix_of(t));
    assert(t.skip(label.len() as int) =~= v);
    assert(v.skip(1) =~= value);
    assert(text::is_white(' '));
    text::lemma_trim_tight(value);
}

proof fn lemma_not_prefix(t: Seq<char>, p: Seq<char>, k: int)
    requires
        0 <= k < p.len(),
        k < t.len(),
        t[k] != p[k],
    ensures
        text::after_prefix(t, p) is None,
{
    if p.is_prefix_of(t) {
        assert(p[k] == t[k]);
    }
}

/// The five lines of an entry are read back as that entry.
#[verifier::spinoff_prover]
#[verifier::rlimit(50)]
pub proof fn law_entries_are_read(before: Seq<Seq<char>>, e: EntryView)
    requires
        is_tight(e.key),
        is_tight(e.label),
        is_tight(e.summary),
        is_tight(e.detail),
        is_tight(e.examples),
    ensures
        after_lines(
            before + seq![
                labelled("###"@, e.key),
                labelled("**Label:**"@, e.label),
                labelled("**Summary:**"@, e.summary),
                labelled("**Detail:**"@, e.detail),
                labelled("**Examples:**"@, e.examples),
            ],
        ) == after_lines(before).push(e),
{
    let h = labelled("###"@, e.key);
    let l = labelled("**Label:**"@, e.label);
    let s = labelled("**Summary:**"@, e.summary);
    let d = labelled("**Detail:**"@, e.detail);
    let x = labelled("**Examples:**"@, e.examples);
    reveal_strlit("###");
    reveal_strlit("### ");
    reveal_strlit("**Label:**");
    reveal_strlit("**Summary:**");
    reveal_strlit("**Detail:**");
    reveal_strlit("**Examples:**");
    lemma_labelled("###"@, e.key);
    lemma_labelled("**Label:**"@, e.label);
    lemma_labelled("**Summary:**"@, e.summary);
    lemma_labelled("**Detail:**"@, e.detail);
    lemma_labelled("**Examples:**"@, e.examples);
    assert(h.take(4) =~= "### "@);
    assert("### "@.is_prefix_of(h));
    assert(h.skip(4) =~= e.key);
    text::lemma_trim_tight(e.key);
    lemma_not_prefix(l, "### "@, 0);
    lemma_not_prefix(s, "### "@, 0);
    lemma_not_prefix(d, "### "@, 0);
    lemma_not_prefix(x, "### "@, 0);
    lemma_not_prefix(s, "**Label:**"@, 2);
    lemma_not_prefix(d, "**Label:**"@, 2);
    lemma_not_prefix(x, "**Label:**"@, 2);
    lemma_not_prefix(d, "**Summary:**"@, 2);
    lemma_not_prefix(x, "**Summary:**"@, 2);
    lemma_not_prefix(x, "**Detail:**"@, 2);
    let acc = after_lines(before);
    let none = Seq::<char>::empty();
    let e0 = EntryView { key: e.key, label: none, summary: none, detail: none, examples: none };
    let e1 = EntryView { label: e.label, ..e0 };
    let e2 = EntryView { summary: e.summary, ..e1 };
    let e3 = EntryView { detail: e.detail, ..e2 };
    let l5 = before + seq![h, l, s, d, x];
    let l4 = before + seq![h, l, s, d];
    let l3 = before + seq![h, l, s];
    let l2 = before + seq![h, l];
    let l1 = before + seq![h];
    assert(l5.drop_last() =~= l4 && l5.last() == x);
    assert(l4.drop_last() =~= l3 && l4.last() == d);
    assert(l3.drop_last() =~= l2 && l3.last() == s);
    assert(l2.drop_last() =~= l1 && l2.last() == l);
    assert(l1.drop_last() =~= before && l1.last() == h);
    assert(after_lines(l1) =~= acc.push(e0));
    assert(after_lines(l2) =~= acc.push(e1));
    assert(after_lines(l3) =~= acc.push(e2));
    assert(after_lines(l4) =~= acc.push(e3));
    assert(after_lines(l5) =~= acc.push(e));
}

/// An entry is found by its key: the first one that has it.
pub proof fn law_entries_are_found(doc: Seq<EntryView>, i: int)
    requires
        0 <= i < doc.len(),
        forall|j: int| 0 <= j < i ==> (#[trigger] doc[j]).key != doc[i].key,
    ensures
        entry_of(doc, doc[i].key) == Some(doc[i]),
    decreases i,
{
    if i > 0 {
        let rest = doc.skip(1);
        assert(doc[0].key != doc[i].key);
        assert forall|j: int| 0 <= j < i - 1 implies (#[trigger] rest[j]).key != rest[i - 1].key by {
            assert(rest[j] == doc[j + 1]);
        }
        law_entries_are_found(rest, i - 1);
    }
}

} // verus!
