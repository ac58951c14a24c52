//! An address-keyed map held as a vector of entries with pairwise-distinct
//! keys. Lookup is specified by a first-match recursion, which under the
//! distinct-keys invariant is the unique match.

use vstd::prelude::*;
use crate::address::Address;

verus! {

/// First-match lookup in a sequence of keyed entries.
pub open spec fn spec_lookup<V>(s: Seq<(Address, V)>, t: Address) -> Option<V>
    decreases s.len(),
{
    if s.len() == 0 {
        None
    } else if s[0].0 == t {
        Some(s[0].1)
    } else {
        spec_lookup(s.drop_first(), t)
    }
}

/// When `i` is the first index holding key `t`, lookup returns its value.
pub proof fn lemma_lookup_first<V>(s: Seq<(Address, V)>, t: Address, i: int)
    requires
        0 <= i < s.len(),
        s[i].0 == t,
        forall|k: int| 0 <= k < i ==> s[k].0 != t,
    ensures
        spec_lookup(s, t) == Some(s[i].1),
    decreases i,
{
    if i == 0 {
    } else {
        lemma_lookup_first(s.drop_first(), t, i - 1);
    }
}

/// When no entry holds key `t`, lookup misses.
pub proof fn lemma_lookup_none<V>(s: Seq<(Address, V)>, t: Address)
    requires
        forall|k: int| 0 <= k < s.len() ==> s[k].0 != t,
    ensures
        spec_lookup(s, t) == None::<V>,
    decreases s.len(),
{
    if s.len() == 0 {
    } else {
        lemma_lookup_none(s.drop_first(), t);
    }
}

/// Appending an entry with a different key leaves a lookup unchanged.
pub proof fn lemma_lookup_push<V>(s: Seq<(Address, V)>, e: (Address, V), u: Address)
    requires
        e.0 != u,
    ensures
        spec_lookup(s.push(e), u) == spec_lookup(s, u),
    decreases s.len(),
{
    if s.len() == 0 {
        assert(s.push(e)[0] == e);
        assert(s.push(e).drop_first().len() == 0);
        assert(spec_lookup(s.push(e).drop_first(), u) == None::<V>);
        assert(spec_lookup(s, u) == None::<V>);
    } else {
        assert(s.push(e).drop_first() =~= s.drop_first().push(e));
        lemma_lookup_push(s.drop_first(), e, u);
    }
}

/// Replacing the value at an index, key kept, leaves other lookups unchanged.
pub proof fn lemma_lookup_update<V>(s: Seq<(Address, V)>, i: int, e: (Address, V), u: Address)
    requires
        0 <= i < s.len(),
        s[i].0 == e.0,
        u != e.0,
    ensures
        spec_lookup(s.update(i, e), u) == spec_lookup(s, u),
    decreases s.len(),
{
    if i == 0 {
        assert(s.update(0, e).drop_first() =~= s.drop_first());
    } else {
        assert(s.update(i, e).drop_first() =~= s.drop_first().update(i - 1, e));
        lemma_lookup_update(s.drop_first(), i - 1, e, u);
    }
}

/// Lookup answers are witnessed by entries, and misses by their absence.
pub proof fn lemma_lookup_chars<V>(s: Seq<(Address, V)>, t: Address)
    ensures
        match spec_lookup(s, t) {
            Some(v) => exists|k: int| 0 <= k < s.len() && s[k] == (t, v),
            None => forall|k: int| 0 <= k < s.len() ==> (#[trigger] s[k]).0 != t,
        },
    decreases s.len(),
{
    if s.len() == 0 {
    } else if s[0].0 == t {
        assert(s[0] == (t, s[0].1));
    } else {
        lemma_lookup_chars(s.drop_first(), t);
        match spec_lookup(s.drop_first(), t) {
            Some(v) => {
                let k = choose|k: int|
                    0 <= k < s.drop_first().len() && s.drop_first()[k] == (t, v);
                assert(s.drop_first()[k] == s[k + 1]);
                assert(s[k + 1] == (t, v));
            },
            None => {
                assert forall|k: int| 0 <= k < s.len() implies (#[trigger] s[k]).0 != t by {
                    if k > 0 {
                        assert(s.drop_first()[k - 1] == s[k]);
                        assert(s.drop_first()[k - 1].0 != t);
                    }
                };
            },
        }
    }
}

/// Under distinct keys, any entry witnesses its own lookup.
pub proof fn lemma_lookup_at<V>(s: Seq<(Address, V)>, k: int)
    requires
        0 <= k < s.len(),
        forall|i: int, j: int| 0 <= i < j < s.len() ==> s[i].0 != s[j].0,
    ensures
        spec_lookup(s, s[k].0) == Some(s[k].1),
{
    assert forall|i: int| 0 <= i < k implies s[i].0 != s[k].0 by {}
    lemma_lookup_first(s, s[k].0, k);
}

/// An address-keyed map with pairwise-distinct keys.
#[derive(Clone, Debug)]
pub struct KeyedVec<V> {
    pub entries: Vec<(Address, V)>,
}

impl<V: Copy> KeyedVec<V> {
    /// Keys are pairwise distinct.
    pub open spec fn wf(&self) -> bool {
        forall|i: int, j: int|
            0 <= i < j < self.entries@.len() ==> self.entries@[i].0 != self.entries@[j].0
    }

    /// The value stored under `t`, if any.
    pub open spec fn spec_get(&self, t: Address) -> Option<V> {
        spec_lookup(self.entries@, t)
    }

    /// The empty map.
    pub fn new() -> (r: KeyedVec<V>)
        ensures
            r.entries@.len() == 0,
            r.wf(),
            forall|t: Address| r.spec_get(t) == None::<V>,
    {
        let r = KeyedVec { entries: Vec::new() };
        proof {
            assert forall|t: Address| r.spec_get(t) == None::<V> by {
                lemma_lookup_none(r.entries@, t);
            };
        }
        r
    }

    /// The number of entries.
    pub fn len(&self) -> (r: usize)
        ensures
            r == self.entries@.len(),
    {
        self.entries.len()
    }

    /// Looks a key up.
    pub fn get(&self, t: &Address) -> (r: Option<V>)
        requires
            self.wf(),
        ensures
            r == self.spec_get(*t),
    {
        let n = self.entries.len();
        let mut i: usize = 0;
        while i < n
            invariant
                n == self.entries@.len(),
                i <= n,
                forall|k: int| 0 <= k < i ==> self.entries@[k].0 != *t,
            decreases n - i,
        {
            let e = self.entries[i];
            if e.0 == *t {
                proof {
                    lemma_lookup_first(self.entries@, *t, i as int);
                }
                return Some(e.1);
            }
            i = i + 1;
        }
        proof {
            lemma_lookup_none(self.entries@, *t);
        }
        None
    }

    /// Inserts or replaces the value under `t`; all other keys keep their
    /// values.
    pub fn insert(&mut self, t: Address, v: V)
        requires
            old(self).wf(),
        ensures
            final(self).wf(),
            final(self).spec_get(t) == Some(v),
            forall|u: Address| u != t ==> final(self).spec_get(u) == old(self).spec_get(u),
            final(self).entries@.len() <= old(self).entries@.len() + 1,
    {
        let n = self.entries.len();
        let mut i: usize = 0;
        while i < n
            invariant
                n == self.entries@.len(),
                i <= n,
                self.wf(),
                self == old(self),
                forall|k: int| 0 <= k < i ==> self.entries@[k].0 != t,
            decreases n - i,
        {
            let e = self.entries[i];
            if e.0 == t {
                self.entries[i] = (t, v);
                proof {
                    lemma_lookup_first(self.entries@, t, i as int);
                    assert forall|u: Address| u != t implies spec_lookup(self.entries@, u)
                        == spec_lookup(old(self).entries@, u) by {
                        lemma_lookup_update(old(self).entries@, i as int, (t, v), u);
                    };
                }
                return ;
            }
            i = i + 1;
        }
        self.entries.push((t, v));
        proof {
            lemma_lookup_first(self.entries@, t, n as int);
            assert forall|u: Address| u != t implies spec_lookup(self.entries@, u) == spec_lookup(
                old(self).entries@,
                u,
            ) by {
                lemma_lookup_push(old(self).entries@, (t, v), u);
            };
        }
    }
}

} // verus!
