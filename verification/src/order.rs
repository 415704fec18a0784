//! Sorted lists of distinct strings.

use crate::text;
use vstd::prelude::*;

verus! {

broadcast use vstd::string::group_string_axioms;

/// `s` with `x` put before the first string that is not less than it, unless
/// that string is `x` itself.
pub open spec fn insert_of(s: Seq<Seq<char>>, x: Seq<char>) -> Seq<Seq<char>>
    decreases s.len(),
{
    if s.len() == 0 {
        seq![x]
    } else if s[0] == x {
        s
    } else if text::less_of(x, s[0]) {
        seq![x] + s
    } else {
        seq![s[0]] + insert_of(s.skip(1), x)
    }
}

/// The distinct strings of `s` in ascending order.
pub open spec fn sorted_of(s: Seq<Seq<char>>) -> Seq<Seq<char>>
    decreases s.len(),
{
    if s.len() == 0 {
        seq![]
    } else {
        insert_of(sorted_of(s.drop_last()), s.last())
    }
}

/// Whether each string is less than those behind it.
pub open spec fn is_ascending(s: Seq<Seq<char>>) -> bool {
    forall|i: int, j: int| 0 <= i < j < s.len() ==> text::less_of(#[trigger] s[i], #[trigger] s[j])
}

proof fn lemma_insert_at(s: Seq<Seq<char>>, x: Seq<char>, i: int)
    requires
        0 <= i <= s.len(),
        forall|j: int| 0 <= j < i ==> text::less_of(#[trigger] s[j], x),
        i < s.len() ==> !text::less_of(s[i], x),
    ensures
        insert_of(s, x) == if i < s.len() && s[i] == x {
            s
        } else {
            s.insert(i, x)
        },
    decreases i,
{
    if i == 0 {
        if s.len() > 0 {
            text::lemma_less_total(s[0], x);
            assert(seq![x] + s =~= s.insert(0, x));
        } else {
            assert(seq![x] =~= s.insert(0, x));
        }
    } else {
        let t = s.skip(1);
        text::lemma_less_total(s[0], x);
        assert forall|j: int| 0 <= j < i - 1 implies text::less_of(#[trigger] t[j], x) by {
            assert(t[j] == s[j + 1]);
        }
        lemma_insert_at(t, x, i - 1);
        if i < s.len() {
            assert(t[i - 1] == s[i]);
        }
        assert(seq![s[0]] + t =~= s);
        assert(seq![s[0]] + t.insert(i - 1, x) =~= s.insert(i, x));
    }
}

/// Puts `x` in its place.
pub fn insert(v: &mut Vec<String>, x: String)
    ensures
        text::texts(final(v)@) == insert_of(text::texts(old(v)@), x@),
{
    let ghost all = text::texts(v@);
    let n: usize = v.len();
    let mut i: usize = 0;
    while i < n && text::less(v[i].as_str(), x.as_str())
        invariant
            n == v@.len(),
            i <= n,
            all == text::texts(v@),
            forall|j: int| 0 <= j < i ==> text::less_of(#[trigger] all[j], x@),
        decreases n - i,
    {
        assert(all[i as int] == v@[i as int]@);
        i += 1;
    }
    proof {
        if i < n {
            assert(all[i as int] == v@[i as int]@);
        }
        lemma_insert_at(all, x@, i as int);
    }
    if i < n && text::same(v[i].as_str(), x.as_str()) {
        return ;
    }
    let ghost want = all.insert(i as int, x@);
    v.insert(i, x);
    assert(text::texts(v@) =~= want);
}

/// The distinct strings of a list in ascending order.
pub fn sorted(v: &[String]) -> (r: Vec<String>)
    ensures
        text::texts(r@) == sorted_of(text::texts(v@)),
{
    let ghost all = text::texts(v@);
    let mut out: Vec<String> = Vec::new();
    let mut i: usize = 0;
    assert(all.take(0) =~= seq![]);
    assert(text::texts(out@) =~= seq![]);
    while i < v.len()
        invariant
            i <= v@.len(),
            all == text::texts(v@),
            text::texts(out@) == sorted_of(all.take(i as int)),
        decreases v@.len() - i,
    {
        proof {
            assert(all.take(i + 1).drop_last() =~= all.take(i as int));
            assert(all.take(i + 1).last() == v@[i as int]@);
        }
        insert(&mut out, v[i].clone());
        i += 1;
    }
    assert(all.take(v@.len() as int) =~= all);
    out
}

proof fn lemma_insert(s: Seq<Seq<char>>, x: Seq<char>)
    requires
        is_ascending(s),
    ensures
        is_ascending(insert_of(s, x)),
        forall|y: Seq<char>| #[trigger] insert_of(s, x).contains(y) <==> s.contains(y) || y == x,
    decreases s.len(),
{
    let r = insert_of(s, x);
    if s.len() == 0 {
        assert(r[0] == x);
        assert forall|y: Seq<char>| #[trigger] r.contains(y) implies y == x by {}
    } else if s[0] == x {
        assert(s.contains(s[0]));
    } else if text::less_of(x, s[0]) {
        assert forall|i: int, j: int| 0 <= i < j < r.len() implies text::less_of(
            #[trigger] r[i],
            #[trigger] r[j],
        ) by {
            assert(r[j] == s[j - 1]);
            if i == 0 {
                if j > 1 {
                    text::lemma_less_transitive(x, s[0], s[j - 1]);
                }
            } else {
                assert(r[i] == s[i - 1]);
            }
        }
        assert forall|y: Seq<char>| #[trigger] r.contains(y) <==> s.contains(y) || y == x by {
            if s.contains(y) {
                let k = choose|k: int| 0 <= k < s.len() && s[k] == y;
                assert(r[k + 1] == y);
            }
            if r.contains(y) {
                let k = choose|k: int| 0 <= k < r.len() && r[k] == y;
                if k > 0 {
                    assert(s[k - 1] == y);
                }
            }
            assert(r[0] == x);
        }
    } else {
        let t = s.skip(1);
        assert forall|i: int, j: int| 0 <= i < j < t.len() implies text::less_of(
            #[trigger] t[i],
            #[trigger] t[j],
        ) by {
            assert(t[i] == s[i + 1] && t[j] == s[j + 1]);
        }
        lemma_insert(t, x);
        text::lemma_less_total(s[0], x);
        let u = insert_of(t, x);
        assert forall|i: int, j: int| 0 <= i < j < r.len() implies text::less_of(
            #[trigger] r[i],
            #[trigger] r[j],
        ) by {
            assert(r[j] == u[j - 1]);
            if i == 0 {
                assert(u.contains(u[j - 1]));
                if u[j - 1] != x {
                    let k = choose|k: int| 0 <= k < t.len() && t[k] == u[j - 1];
                    assert(t[k] == s[k + 1]);
                }
            } else {
                assert(r[i] == u[i - 1]);
            }
        }
        assert forall|y: Seq<char>| #[trigger] r.contains(y) <==> s.contains(y) || y == x by {
            if s.contains(y) {
                let k = choose|k: int| 0 <= k < s.len() && s[k] == y;
                if k > 0 {
                    assert(t[k - 1] == y);
                    assert(u.contains(y));
                    let m = choose|m: int| 0 <= m < u.len() && u[m] == y;
                    assert(r[m + 1] == y);
                } else {
                    assert(r[0] == y);
                }
            }
            if y == x {
                assert(u.contains(y));
                let m = choose|m: int| 0 <= m < u.len() && u[m] == y;
                assert(r[m + 1] == y);
            }
            if r.contains(y) {
                let k = choose|k: int| 0 <= k < r.len() && r[k] == y;
                if k > 0 {
                    assert(u[k - 1] == y);
                    assert(u.contains(y));
                    if y != x {
                        let m = choose|m: int| 0 <= m < t.len() && t[m] == y;
                        assert(s[m + 1] == y);
                    }
                } else {
                    assert(s[0] == y);
                }
            }
        }
    }
}

/// Sorting keeps every string once and puts each before those greater than
/// it.
pub proof fn law_sorted(s: Seq<Seq<char>>)
    ensures
        is_ascending(sorted_of(s)),
        forall|y: Seq<char>| #[trigger] sorted_of(s).contains(y) <==> s.contains(y),
    decreases s.len(),
{
    if s.len() > 0 {
        law_sorted(s.drop_last());
        lemma_insert(sorted_of(s.drop_last()), s.last());
        assert forall|y: Seq<char>| #[trigger] sorted_of(s).contains(y) <==> s.contains(y) by {
            if s.contains(y) {
                let k = choose|k: int| 0 <= k < s.len() && s[k] == y;
                if k < s.len() - 1 {
                    assert(s.drop_last()[k] == y);
                }
            }
            if s.drop_last().contains(y) {
                let k = choose|k: int| 0 <= k < s.drop_last().len() && s.drop_last()[k] == y;
                assert(s[k] == y);
            }
            assert(s[s.len() - 1] == s.last());
        }
    }
}

} // verus!
