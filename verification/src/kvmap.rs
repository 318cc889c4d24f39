//! An association list from string keys to values.
//!
//! The pipeline's maps (stat items, aggregated items, connections) are held as
//! vectors of key/value pairs with pairwise-distinct keys; the mathematical
//! view is a `Map` from character sequences to values.
use crate::text::{
    lemma_str_lt_irrefl, lemma_str_lt_total, lemma_str_lt_trans, str_eq, str_lt, str_lt_exec,
};
use vstd::prelude::*;

verus! {

/// The map described by a list of entries; a later entry overrides an earlier
/// one with the same key.
pub open spec fn map_of_entries<T>(s: Seq<(Seq<char>, T)>) -> Map<Seq<char>, T>
    decreases s.len(),
{
    if s.len() == 0 {
        Map::empty()
    } else {
        map_of_entries(s.drop_last()).insert(s.last().0, s.last().1)
    }
}

/// The entries' keys ascend strictly in the lexicographic order, as the
/// dashboard lists them.
pub open spec fn sorted_keys<T>(s: Seq<(Seq<char>, T)>) -> bool {
    forall|a: int, b: int| 0 <= a < b < s.len() ==> str_lt(
        (#[trigger] s[a]).0,
        (#[trigger] s[b]).0,
    )
}

/// A key of some entry of `s`.
pub open spec fn entries_have_key<T>(s: Seq<(Seq<char>, T)>, k: Seq<char>) -> bool {
    exists|i: int| 0 <= i < s.len() && (#[trigger] s[i]).0 == k
}

/// The domain of the entry map is exactly the set of keys of the entries.
pub proof fn lemma_entries_dom<T>(s: Seq<(Seq<char>, T)>)
    ensures
        forall|k: Seq<char>| #[trigger] map_of_entries(s).dom().contains(k) <==> entries_have_key(
            s,
            k,
        ),
    decreases s.len(),
{
    if s.len() > 0 {
        lemma_entries_dom(s.drop_last());
        let m0 = map_of_entries(s.drop_last());
        assert(map_of_entries(s) == m0.insert(s.last().0, s.last().1));
        assert forall|k: Seq<char>| #[trigger] map_of_entries(s).dom().contains(k) implies
            entries_have_key(s, k) by {
            if k == s.last().0 {
                assert(0 <= s.len() - 1 < s.len() && s[s.len() - 1].0 == k);
            } else {
                assert(m0.dom().contains(k));
                assert(entries_have_key(s.drop_last(), k));
                let i = choose|i: int|
                    0 <= i < s.drop_last().len() && (#[trigger] s.drop_last()[i]).0 == k;
                assert(s[i] == s.drop_last()[i]);
            }
        }
        assert forall|k: Seq<char>| entries_have_key(s, k) implies map_of_entries(s).dom()
            .contains(k) by {
            let i = choose|i: int| 0 <= i < s.len() && (#[trigger] s[i]).0 == k;
            if i < s.len() - 1 {
                assert(s.drop_last()[i] == s[i]);
                assert(entries_have_key(s.drop_last(), k));
                assert(m0.dom().contains(k));
            } else {
                assert(k == s.last().0);
            }
        }
    }
}

/// An entry whose key has no later duplicate gives the map's value at that key.
pub proof fn lemma_entries_index<T>(s: Seq<(Seq<char>, T)>, i: int)
    requires
        0 <= i < s.len(),
        forall|j: int| i < j < s.len() ==> (#[trigger] s[j]).0 != s[i].0,
    ensures
        map_of_entries(s).dom().contains(s[i].0),
        map_of_entries(s)[s[i].0] == s[i].1,
    decreases s.len(),
{
    if i < s.len() - 1 {
        assert(s.drop_last()[i] == s[i]);
        assert forall|j: int| i < j < s.drop_last().len() implies (#[trigger] s.drop_last()[j]).0
            != s.drop_last()[i].0 by {
            assert(s.drop_last()[j] == s[j]);
        }
        lemma_entries_index(s.drop_last(), i);
        assert(s[s.len() - 1].0 != s[i].0);
        assert(s.last().0 != s[i].0);
    }
}

/// A list of string/value pairs with pairwise-distinct keys, read as a map.
#[derive(Clone, Debug)]
pub struct KvMap<T> {
    pub pairs: Vec<(String, T)>,
}

impl<T> View for KvMap<T> {
    type V = Map<Seq<char>, T>;

    open spec fn view(&self) -> Map<Seq<char>, T> {
        map_of_entries(self.entries())
    }
}

impl<T> KvMap<T> {
    /// The entries, with keys as character sequences, in order.
    pub open spec fn entries(self) -> Seq<(Seq<char>, T)> {
        self.pairs@.map_values(|p: (String, T)| (p.0@, p.1))
    }

    /// Keys are pairwise distinct.
    pub open spec fn wf(self) -> bool {
        forall|i: int, j: int| 0 <= i < j < self.entries().len() ==> (#[trigger] self.entries()[i]).0
            != (#[trigger] self.entries()[j]).0
    }

    /// Every entry of a well-formed map agrees with the map view.
    pub proof fn lemma_view(self)
        requires
            self.wf(),
        ensures
            forall|i: int| 0 <= i < self.entries().len() ==> self@.dom().contains(
                (#[trigger] self.entries()[i]).0,
            ) && self@[self.entries()[i].0] == self.entries()[i].1,
            forall|k: Seq<char>| #[trigger] self@.dom().contains(k) <==> entries_have_key(
                self.entries(),
                k,
            ),
    {
        lemma_entries_dom(self.entries());
        assert forall|i: int| 0 <= i < self.entries().len() implies self@.dom().contains(
            (#[trigger] self.entries()[i]).0,
        ) && self@[self.entries()[i].0] == self.entries()[i].1 by {
            assert forall|j: int| i < j < self.entries().len() implies (#[trigger] self.entries()[j]).0
                != self.entries()[i].0 by {}
            lemma_entries_index(self.entries(), i);
        }
    }

    /// An empty map.
    pub fn new() -> (r: Self)
        ensures
            r.wf(),
            r@ == Map::<Seq<char>, T>::empty(),
            r.entries() == Seq::<(Seq<char>, T)>::empty(),
    {
        let r = KvMap { pairs: Vec::new() };
        assert(r.entries() =~= Seq::<(Seq<char>, T)>::empty());
        r
    }

    /// The number of entries.
    pub fn len(&self) -> (n: usize)
        ensures
            n == self.entries().len(),
    {
        self.pairs.len()
    }

    /// Looks a key up.
    pub fn get<'a>(&'a self, key: &str) -> (r: Option<&'a T>)
        requires
            self.wf(),
        ensures
            match r {
                Some(v) => self@.dom().contains(key@) && *v == self@[key@],
                None => !self@.dom().contains(key@),
            },
    {
        proof {
            self.lemma_view();
        }
        let mut i: usize = 0;
        while i < self.pairs.len()
            invariant
                self.wf(),
                i <= self.pairs.len(),
                forall|j: int| 0 <= j < i ==> (#[trigger] self.entries()[j]).0 != key@,
            decreases self.pairs.len() - i,
        {
            if str_eq(self.pairs[i].0.as_str(), key) {
                proof {
                    assert(self.entries()[i as int].0 == key@);
                    self.lemma_view();
                    assert(self.entries()[i as int].1 == self.pairs@[i as int].1);
                }
                return Some(&self.pairs[i].1);
            }
            proof {
                assert(self.entries()[i as int].0 == self.pairs@[i as int].0@);
            }
            i += 1;
        }
        proof {
            self.lemma_view();
            if self@.dom().contains(key@) {
                let j = choose|j: int|
                    0 <= j < self.entries().len() && (#[trigger] self.entries()[j]).0 == key@;
                assert(false);
            }
        }
        None
    }

    /// Whether a key is present.
    pub fn contains_key(&self, key: &str) -> (r: bool)
        requires
            self.wf(),
        ensures
            r == self@.dom().contains(key@),
    {
        self.get(key).is_some()
    }

    /// Inserts or replaces the value for a key.
    pub fn insert(&mut self, key: String, value: T)
        requires
            old(self).wf(),
        ensures
            final(self).wf(),
            final(self)@ == old(self)@.insert(key@, value),
            final(self).entries().len() <= old(self).entries().len() + 1,
    {
        let mut i: usize = 0;
        while i < self.pairs.len()
            invariant
                *self == *old(self),
                self.wf(),
                i <= self.pairs.len(),
                forall|j: int| 0 <= j < i ==> (#[trigger] self.entries()[j]).0 != key@,
            decreases self.pairs.len() - i,
        {
            if str_eq(self.pairs[i].0.as_str(), key.as_str()) {
                let ghost before = self.entries();
                let ghost idx = i as int;
                proof {
                    assert(before[idx].0 == key@);
                    assert forall|j: int| 0 <= j < before.len() && j != idx implies (
                    #[trigger] before[j]).0 != before[idx].0 by {
                        assert(before[j] == self.entries()[j]);
                        assert(before[idx] == self.entries()[idx]);
                        if j < idx {
                            assert(self.entries()[j].0 != key@);
                        } else {
                            assert(0 <= idx < j < self.entries().len());
                            assert(self.entries()[idx].0 != self.entries()[j].0);
                        }
                    }
                }
                self.pairs.set(i, (key, value));
                proof {
                    assert(self.entries() =~= before.update(idx, (before[idx].0, value)));
                    lemma_entries_replace(before, idx, value);
                    assert forall|m: int, j: int|
                        0 <= m < j < self.entries().len() implies (#[trigger] self.entries()[m]).0
                        != (#[trigger] self.entries()[j]).0 by {
                        assert(self.entries()[m].0 == before[m].0);
                        assert(self.entries()[j].0 == before[j].0);
                        assert(before[m] == old(self).entries()[m]);
                        assert(before[j] == old(self).entries()[j]);
                    }
                }
                return ;
            }
            proof {
                assert(self.entries()[i as int].0 == self.pairs@[i as int].0@);
            }
            i += 1;
        }
        let ghost before = self.entries();
        let ghost klen = self.pairs@.len();
        self.pairs.push((key, value));
        proof {
            assert(self.entries() =~= before.push((key@, value)));
            assert(self.entries().drop_last() =~= before);
            assert(self.entries().last() == (key@, value));
            assert forall|m: int, j: int| 0 <= m < j < self.entries().len() implies (
            #[trigger] self.entries()[m]).0 != (#[trigger] self.entries()[j]).0 by {
                if j < klen {
                    assert(self.entries()[m] == before[m]);
                    assert(self.entries()[j] == before[j]);
                    assert(before[m] == old(self).entries()[m]);
                    assert(before[j] == old(self).entries()[j]);
                } else {
                    assert(self.entries()[m] == before[m]);
                    assert(before[m] == old(self).entries()[m]);
                    assert(self.entries()[j].0 == key@);
                }
            }
        }
    }
}

impl<T> KvMap<T> {
    /// Inserts or replaces the value for a key, keeping the entries in
    /// ascending key order.
    pub fn insert_sorted(&mut self, key: String, value: T)
        requires
            old(self).wf(),
            sorted_keys(old(self).entries()),
        ensures
            final(self).wf(),
            sorted_keys(final(self).entries()),
            final(self)@ == old(self)@.insert(key@, value),
            final(self).entries().len() <= old(self).entries().len() + 1,
    {
        let mut i: usize = 0;
        loop
            invariant
                *self == *old(self),
                self.wf(),
                sorted_keys(self.entries()),
                i <= self.pairs@.len(),
                forall|m: int| 0 <= m < i ==> str_lt((#[trigger] self.entries()[m]).0, key@),
            ensures
                *self == *old(self),
                i <= self.pairs@.len(),
                forall|m: int| 0 <= m < i ==> str_lt((#[trigger] self.entries()[m]).0, key@),
                i < self.pairs@.len() ==> !str_lt(self.entries()[i as int].0, key@),
            decreases self.pairs@.len() - i,
        {
            if i == self.pairs.len() {
                break ;
            }
            let below = str_lt_exec(self.pairs[i].0.as_str(), key.as_str());
            proof {
                assert(self.entries()[i as int].0 == self.pairs@[i as int].0@);
            }
            if !below {
                break ;
            }
            i += 1;
        }
        if i < self.pairs.len() && str_eq(self.pairs[i].0.as_str(), key.as_str()) {
            let ghost before = self.entries();
            let ghost idx = i as int;
            proof {
                assert(before[idx].0 == key@);
                lemma_str_lt_irrefl(key@);
                assert forall|j: int| 0 <= j < before.len() && j != idx implies (
                #[trigger] before[j]).0 != before[idx].0 by {
                    assert(before[j] == self.entries()[j]);
                    assert(before[idx] == self.entries()[idx]);
                }
            }
            self.pairs.set(i, (key, value));
            proof {
                assert(self.entries() =~= before.update(idx, (before[idx].0, value)));
                lemma_entries_replace(before, idx, value);
                assert forall|a: int, b: int|
                    0 <= a < b < self.entries().len() implies str_lt(
                    (#[trigger] self.entries()[a]).0,
                    (#[trigger] self.entries()[b]).0,
                ) by {
                    assert(self.entries()[a].0 == before[a].0);
                    assert(self.entries()[b].0 == before[b].0);
                    assert(before[a] == old(self).entries()[a]);
                    assert(before[b] == old(self).entries()[b]);
                }
                assert forall|a: int, b: int|
                    0 <= a < b < self.entries().len() implies (#[trigger] self.entries()[a]).0
                    != (#[trigger] self.entries()[b]).0 by {
                    lemma_str_lt_irrefl(self.entries()[a].0);
                }
            }
        } else {
            let ghost before = self.entries();
            let ghost idx = i as int;
            proof {
                if idx < before.len() {
                    assert(before[idx].0 != key@);
                    lemma_str_lt_total(before[idx].0, key@);
                    assert(str_lt(key@, before[idx].0));
                }
                lemma_str_lt_irrefl(key@);
                assert forall|j: int| 0 <= j < before.len() implies (#[trigger] before[j]).0
                    != key@ by {
                    assert(before[j] == self.entries()[j]);
                    if j > idx {
                        assert(before[idx] == self.entries()[idx]);
                        assert(str_lt(self.entries()[idx].0, self.entries()[j].0));
                        lemma_str_lt_trans(key@, before[idx].0, before[j].0);
                    }
                }
            }
            self.pairs.insert(i, (key, value));
            proof {
                self.pairs@.insert_ensures(idx, (key, value));
                before.insert_ensures(idx, (key@, value));
                assert forall|j: int| 0 <= j < self.entries().len() implies #[trigger] self
                    .entries()[j] == before.insert(idx, (key@, value))[j] by {
                    if j < idx {
                        assert(self.pairs@[j] == old(self).pairs@[j]);
                        assert(before[j] == old(self).entries()[j]);
                    } else if j == idx {
                    } else {
                        assert(self.pairs@[j] == old(self).pairs@[j - 1]);
                        assert(before[j - 1] == old(self).entries()[j - 1]);
                    }
                }
                assert(self.entries() =~= before.insert(idx, (key@, value)));
                lemma_entries_insert_at(before, idx, key@, value);
                assert forall|a: int, b: int|
                    0 <= a < b < self.entries().len() implies str_lt(
                    (#[trigger] self.entries()[a]).0,
                    (#[trigger] self.entries()[b]).0,
                ) by {
                    assert forall|m: int|
                        0 <= m < before.len() implies before[m] == old(self).entries()[m] by {}
                    if a < idx && b < idx {
                        assert(str_lt(before[a].0, before[b].0));
                    } else if a < idx && b == idx {
                        assert(str_lt(before[a].0, key@));
                    } else if a < idx && b > idx {
                        assert(a < b - 1);
                        assert(str_lt(before[a].0, before[b - 1].0));
                    } else if a == idx {
                        assert(str_lt(key@, before[b - 1].0)) by {
                            assert(idx < before.len());
                            assert(str_lt(key@, before[idx].0));
                            if b - 1 > idx {
                                assert(str_lt(before[idx].0, before[b - 1].0));
                                lemma_str_lt_trans(key@, before[idx].0, before[b - 1].0);
                            }
                        }
                    } else {
                        assert(str_lt(before[a - 1].0, before[b - 1].0));
                    }
                }
                assert forall|a: int, b: int|
                    0 <= a < b < self.entries().len() implies (#[trigger] self.entries()[a]).0
                    != (#[trigger] self.entries()[b]).0 by {
                    lemma_str_lt_irrefl(self.entries()[a].0);
                }
            }
        }
    }
}

/// Inserting an entry with a fresh key anywhere in the list inserts it into
/// the entry map.
proof fn lemma_entries_insert_at<T>(s: Seq<(Seq<char>, T)>, i: int, k: Seq<char>, v: T)
    requires
        0 <= i <= s.len(),
        forall|j: int| 0 <= j < s.len() ==> (#[trigger] s[j]).0 != k,
    ensures
        map_of_entries(s.insert(i, (k, v))) == map_of_entries(s).insert(k, v),
    decreases s.len(),
{
    let t = s.insert(i, (k, v));
    if i == s.len() {
        assert(t.drop_last() =~= s);
        assert(t.last() == (k, v));
    } else {
        assert(t.drop_last() =~= s.drop_last().insert(i, (k, v)));
        assert(t.last() == s.last());
        assert forall|j: int| 0 <= j < s.drop_last().len() implies (#[trigger] s.drop_last()[j]).0
            != k by {
            assert(s.drop_last()[j] == s[j]);
        }
        lemma_entries_insert_at(s.drop_last(), i, k, v);
        assert(s[s.len() - 1].0 != k);
        assert(map_of_entries(t) =~= map_of_entries(s).insert(k, v));
    }
}

/// Replacing the value of the sole entry with a key updates the entry map at
/// that key.
proof fn lemma_entries_replace<T>(s: Seq<(Seq<char>, T)>, i: int, value: T)
    requires
        0 <= i < s.len(),
        forall|j: int| 0 <= j < s.len() && j != i ==> (#[trigger] s[j]).0 != s[i].0,
    ensures
        map_of_entries(s.update(i, (s[i].0, value))) == map_of_entries(s).insert(s[i].0, value),
    decreases s.len(),
{
    let t = s.update(i, (s[i].0, value));
    if i == s.len() - 1 {
        assert(t.drop_last() =~= s.drop_last());
        assert(t.last() == (s[i].0, value));
        assert(map_of_entries(t) =~= map_of_entries(s).insert(s[i].0, value));
    } else {
        assert(t.drop_last() =~= s.drop_last().update(i, (s[i].0, value)));
        assert(s.drop_last()[i] == s[i]);
        assert forall|j: int|
            0 <= j < s.drop_last().len() && j != i implies (#[trigger] s.drop_last()[j]).0 != s
            .drop_last()[i].0 by {
            assert(s.drop_last()[j] == s[j]);
        }
        lemma_entries_replace(s.drop_last(), i, value);
        assert(t.last() == s.last());
        assert(s[s.len() - 1].0 != s[i].0);
        assert(map_of_entries(t) =~= map_of_entries(s).insert(s[i].0, value));
    }
}

} // verus!
