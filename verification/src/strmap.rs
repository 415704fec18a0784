//! A small map with text keys.
//!
//! Made for the handful of properties that systemd prints: entries are kept
//! in the order they came, and the last one of a key counts.

use crate::text;
use vstd::prelude::*;

verus! {

broadcast use vstd::string::group_string_axioms;

/// A map from text to values.
#[derive(Debug)]
pub struct StrMap<T> {
    pub items: Vec<(String, T)>,
}

/// The map that some entries make, later ones replacing earlier ones.
pub open spec fn map_of<T: View>(items: Seq<(String, T)>) -> Map<Seq<char>, T::V>
    decreases items.len(),
{
    if items.len() == 0 {
        Map::empty()
    } else {
        map_of(items.drop_last()).insert(items.last().0@, items.last().1@)
    }
}

impl<T: View> View for StrMap<T> {
    type V = Map<Seq<char>, T::V>;

    open spec fn view(&self) -> Map<Seq<char>, T::V> {
        map_of(self.items@)
    }
}

/// How many different keys some entries have.
pub open spec fn keys_in<T: View>(items: Seq<(String, T)>) -> nat
    decreases items.len(),
{
    if items.len() == 0 {
        0
    } else {
        let rest = items.drop_last();
        keys_in(rest) + if map_of(rest).dom().contains(items.last().0@) {
            0nat
        } else {
            1nat
        }
    }
}

proof fn lemma_keys<T: View>(items: Seq<(String, T)>)
    ensures
        map_of(items).dom().finite(),
        map_of(items).dom().len() == keys_in(items),
        keys_in(items) <= items.len(),
    decreases items.len(),
{
    if items.len() > 0 {
        let rest = items.drop_last();
        lemma_keys(rest);
        assert(map_of(items).dom() =~= map_of(rest).dom().insert(items.last().0@));
    } else {
        assert(map_of(items).dom() =~= Set::empty());
    }
}

impl<T: View> StrMap<T> {
    pub fn new() -> (r: StrMap<T>)
        ensures
            r@ == Map::<Seq<char>, T::V>::empty(),
    {
        StrMap { items: Vec::new() }
    }

    /// Puts a value in, in place of one that the key had.
    pub fn insert(&mut self, key: String, value: T)
        ensures
            final(self)@ == old(self)@.insert(key@, value@),
    {
        let ghost before = self.items@;
        self.items.push((key, value));
        assert(self.items@.drop_last() =~= before);
    }

    /// The value of a key.
    pub fn get(&self, key: &str) -> (r: Option<&T>)
        ensures
            match r {
                Some(v) => self@.dom().contains(key@) && v@ == self@[key@],
                None => !self@.dom().contains(key@),
            },
    {
        let ghost all = self.items@;
        let mut i: usize = self.items.len();
        assert(all.take(i as int) =~= all);
        while i > 0
            invariant
                i <= self.items@.len(),
                all == self.items@,
                map_of(all).dom().contains(key@) == map_of(all.take(i as int)).dom().contains(key@),
                map_of(all.take(i as int)).dom().contains(key@) ==> map_of(all)[key@] == map_of(
                    all.take(i as int),
                )[key@],
            decreases i,
        {
            assert(all.take(i as int).drop_last() =~= all.take(i - 1));
            if text::same(self.items[i - 1].0.as_str(), key) {
                return Some(&self.items[i - 1].1);
            }
            i -= 1;
        }
        None
    }

    /// The number of keys.
    pub fn len(&self) -> (r: usize)
        ensures
            r == self@.dom().len(),
            self@.dom().finite(),
    {
        let ghost all = self.items@;
        let mut n: usize = 0;
        let mut i: usize = 0;
        assert(all.take(0) =~= seq![]);
        while i < self.items.len()
            invariant
                i <= self.items@.len(),
                all == self.items@,
                n <= i,
                n == keys_in(all.take(i as int)),
            decreases self.items@.len() - i,
        {
            let ghost head = all.take(i as int);
            proof {
                assert(all.take(i + 1).drop_last() =~= head);
            }
            let mut seen = false;
            let mut k: usize = 0;
            assert(all.take(0) =~= seq![]);
            while k < i
                invariant
                    k <= i < self.items@.len(),
                    all == self.items@,
                    seen == map_of(all.take(k as int)).dom().contains(all[i as int].0@),
                decreases i - k,
            {
                assert(all.take(k + 1).drop_last() =~= all.take(k as int));
                if text::same(self.items[k].0.as_str(), self.items[i].0.as_str()) {
                    seen = true;
                }
                k += 1;
            }
            if !seen {
                n += 1;
            }
            i += 1;
        }
        assert(all.take(self.items@.len() as int) =~= all);
        proof {
            lemma_keys(all);
        }
        n
    }

    pub fn is_empty(&self) -> (r: bool)
        ensures
            r == (self@.dom() =~= Set::<Seq<char>>::empty()),
    {
        proof {
            if self.items@.len() > 0 {
                assert(self@.dom().contains(self.items@.last().0@));
            } else {
                assert(self@.dom() =~= Set::<Seq<char>>::empty());
            }
        }
        self.items.len() == 0
    }
}

} // verus!
