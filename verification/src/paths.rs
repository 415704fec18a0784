//! Paths as text.

use crate::parts;
use crate::text;
use vstd::prelude::*;

verus! {

broadcast use vstd::string::group_string_axioms;

/// A path below another one: an absolute `rest` stands for itself, and a `/`
/// is put between the two where `base` has text and does not end in one.
pub open spec fn join_of(base: Seq<char>, rest: Seq<char>) -> Seq<char> {
    if (rest.len() > 0 && rest[0] == '/') || base.len() == 0 {
        rest
    } else if base.last() == '/' {
        base + rest
    } else {
        base + "/"@ + rest
    }
}

/// A path below another one.
pub fn join(base: &str, rest: &str) -> (r: String)
    ensures
        r@ == join_of(base@, rest@),
{
    let n: usize = base.unicode_len();
    if (rest.unicode_len() > 0 && rest.get_char(0) == '/') || n == 0 {
        rest.to_owned()
    } else if base.get_char(n - 1) == '/' {
        text::cat2(base, rest)
    } else {
        text::cat3(base, "/", rest)
    }
}

/// A path without what ends it and names nothing: slashes, and `.` behind one.
pub open spec fn settled_of(s: Seq<char>) -> Seq<char>
    decreases s.len(),
{
    if s.len() > 1 && (s.last() == '/' || (s.last() == '.' && s[s.len() - 2] == '/')) {
        settled_of(s.drop_last())
    } else {
        s
    }
}

/// The path above: `None` for the root and for an empty path.
pub open spec fn parent_of(s: Seq<char>) -> Option<Seq<char>> {
    let t = settled_of(s);
    let k = text::last_index(t, '/');
    if t.len() == 0 || t == seq!['/'] {
        None
    } else if k < 0 {
        Some(seq![])
    } else if k == 0 {
        Some(seq!['/'])
    } else {
        Some(settled_of(t.take(k)))
    }
}

/// The last name of a path, where it ends in one.
pub open spec fn file_name_of(s: Seq<char>) -> Option<Seq<char>> {
    let t = settled_of(s);
    let name = t.skip(text::last_index(t, '/') + 1);
    if name.len() == 0 || name == seq!['.'] || name == seq!['.', '.'] {
        None
    } else {
        Some(name)
    }
}

/// A path and all those above it, from the deepest up.
pub open spec fn ancestors_of(s: Seq<char>) -> Seq<Seq<char>>
    decreases s.len(),
    via ancestors_of_terminates
{
    match parent_of(s) {
        Some(p) => seq![s] + ancestors_of(p),
        None => seq![s],
    }
}

proof fn lemma_settled(s: Seq<char>)
    ensures
        settled_of(s).len() <= s.len(),
        s.len() > 0 ==> settled_of(s).len() > 0 && settled_of(s)[0] == s[0],
    decreases s.len(),
{
    if s.len() > 1 && (s.last() == '/' || (s.last() == '.' && s[s.len() - 2] == '/')) {
        lemma_settled(s.drop_last());
    }
}

proof fn lemma_parent_shorter(s: Seq<char>)
    ensures
        parent_of(s) matches Some(p) ==> p.len() < s.len(),
{
    lemma_settled(s);
    let t = settled_of(s);
    text::lemma_last_index(t, '/');
    let k = text::last_index(t, '/');
    if k == 0 && t.len() == 1 {
        assert(t =~= seq!['/']);
    }
    if k > 0 {
        lemma_settled(t.take(k));
    }
}

#[via_fn]
proof fn ancestors_of_terminates(s: Seq<char>) {
    lemma_parent_shorter(s);
}

/// A path without what ends it and names nothing.
pub fn settled(s: &str) -> (r: &str)
    ensures
        r@ == settled_of(s@),
{
    let mut n: usize = s.unicode_len();
    assert(s@.take(n as int) =~= s@);
    while n > 1 && (s.get_char(n - 1) == '/' || (s.get_char(n - 1) == '.' && s.get_char(n - 2)
        == '/'))
        invariant
            n <= s@.len(),
            settled_of(s@) == settled_of(s@.take(n as int)),
        decreases n,
    {
        assert(s@.take(n as int).drop_last() =~= s@.take(n - 1));
        n -= 1;
    }
    assert(s@.take(n as int) =~= s@.subrange(0, n as int));
    s.substring_char(0, n)
}

/// The path above: `None` for the root and for an empty path.
pub fn parent(s: &str) -> (r: Option<String>)
    ensures
        text::opt_text(r) == parent_of(s@),
        parent_of(s@) matches Some(p) ==> p.len() < s@.len(),
{
    let t = settled(s);
    let n: usize = t.unicode_len();
    proof {
        lemma_parent_shorter(s@);
        text::lemma_last_index(t@, '/');
        if n == 1 && t@[0] == '/' {
            assert(t@ =~= seq!['/']);
        }
    }
    if n == 0 || (n == 1 && t.get_char(0) == '/') {
        return None;
    }
    match parts::rsplit_once(t, '/') {
        None => {
            let r = String::new();
            assert(r@ =~= seq![]);
            Some(r)
        },
        Some((before, _)) => {
            if before.unicode_len() == 0 {
                proof {
                    reveal_strlit("/");
                    assert("/"@ =~= seq!['/']);
                }
                Some("/".to_owned())
            } else {
                Some(settled(before).to_owned())
            }
        },
    }
}

/// The last name of a path, where it ends in one.
pub fn file_name(s: &str) -> (r: Option<String>)
    ensures
        text::opt_text(r) == file_name_of(s@),
{
    let t = settled(s);
    proof {
        text::lemma_last_index(t@, '/');
        assert(t@.skip(0) =~= t@);
    }
    let name = match parts::rsplit_once(t, '/') {
        None => t,
        Some((_, after)) => after,
    };
    assert(name@ == t@.skip(text::last_index(t@, '/') + 1));
    proof {
        reveal_strlit(".");
        reveal_strlit("..");
        assert("."@ =~= seq!['.']);
        assert(".."@ =~= seq!['.', '.']);
    }
    if name.unicode_len() == 0 || text::same(name, ".") || text::same(name, "..") {
        None
    } else {
        Some(name.to_owned())
    }
}

/// A path and all those above it, from the deepest up.
pub fn ancestors(s: &str) -> (r: Vec<String>)
    ensures
        text::texts(r@) == ancestors_of(s@),
{
    let mut out: Vec<String> = Vec::new();
    let mut cur: String = s.to_owned();
    let mut more = true;
    assert(text::texts(out@) + ancestors_of(s@) =~= ancestors_of(s@));
    while more
        invariant
            more ==> text::texts(out@) + ancestors_of(cur@) == ancestors_of(s@),
            !more ==> text::texts(out@) == ancestors_of(s@),
        decreases cur@.len() + (if more {
            1int
        } else {
            0
        }),
    {
        let ghost before = text::texts(out@);
        let ghost at = cur@;
        out.push(cur.clone());
        assert(text::texts(out@) =~= before.push(at));
        match parent(cur.as_str()) {
            Some(p) => {
                cur = p;
                assert(before + (seq![at] + ancestors_of(p@)) =~= before.push(at)
                    + ancestors_of(p@));
            },
            None => {
                more = false;
                assert(before + seq![at] =~= before.push(at));
            },
        }
    }
    out
}

/// A file below a directory has that directory as its parent and keeps its
/// name.
pub proof fn law_parent_and_name_of_a_file(dir: Seq<char>, name: Seq<char>)
    requires
        dir.len() > 0,
        settled_of(dir) == dir,
        name.len() > 0,
        !name.contains('/'),
        name != seq!['.'],
        name != seq!['.', '.'],
    ensures
        parent_of(join_of(dir, name)) == Some(dir),
        file_name_of(join_of(dir, name)) == Some(name),
{
    reveal_strlit("/");
    let s = join_of(dir, name);
    assert(name.contains(name[0]));
    assert(name.contains(name.last()));
    let k = s.len() - name.len() - 1;
    assert(s.last() == name.last());
    assert(s[k] == '/');
    assert(settled_of(s) == s) by {
        if s.last() == '.' && s[s.len() - 2] == '/' {
            if name.len() == 1 {
                assert(name =~= seq!['.']);
            } else {
                assert(s[s.len() - 2] == name[name.len() - 2]);
                assert(name.contains(name[name.len() - 2]));
            }
        }
    }
    assert forall|j: int| k < j < s.len() implies #[trigger] s[j] != '/' by {
        assert(s[j] == name[j - k - 1]);
        assert(name.contains(name[j - k - 1]));
    }
    text::lemma_last_index_at(s, '/', k);
    assert(s.skip(k + 1) =~= name);
    assert(s != seq!['/']);
    if dir.last() == '/' {
        if dir.len() > 1 {
            lemma_settled(dir.drop_last());
        }
        assert(dir =~= seq!['/']);
        assert(k == 0);
    } else {
        assert(k == dir.len());
        assert(s.take(k) =~= dir);
    }
}

} // verus!
