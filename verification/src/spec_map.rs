//! A verified association map keyed by [`AtomSpecifier`].
//!
//! The map is stored as a journal of insertions and removals; the latest
//! entry for a key wins.  This keeps every operation a single push except
//! lookup, and gives the map a `Map` view that updates by plain `insert`
//! and `remove`.

use vstd::prelude::*;

use crate::ids::AtomSpecifier;

verus! {

/// The map a journal of entries denotes: later entries override earlier
/// ones, and a `None` entry removes the key.
pub open spec fn journal_map<V>(s: Seq<(AtomSpecifier, Option<V>)>) -> Map<AtomSpecifier, V>
    decreases s.len(),
{
    if s.len() == 0 {
        Map::empty()
    } else {
        match s.last().1 {
            Some(v) => journal_map(s.drop_last()).insert(s.last().0, v),
            None => journal_map(s.drop_last()).remove(s.last().0),
        }
    }
}

/// An association map from atom specifiers to copyable values.
pub struct SpecMap<V> {
    entries: Vec<(AtomSpecifier, Option<V>)>,
}

impl<V: Copy> View for SpecMap<V> {
    type V = Map<AtomSpecifier, V>;

    closed spec fn view(&self) -> Map<AtomSpecifier, V> {
        journal_map(self.entries@)
    }
}

/// If no entry at or after position `i` mentions `k`, the journal's map
/// treats `k` as the journal up to `i` does.
proof fn lemma_journal_unchanged_after<V>(
    s: Seq<(AtomSpecifier, Option<V>)>,
    i: int,
    k: AtomSpecifier,
)
    requires
        0 <= i <= s.len(),
        forall|j: int| i <= j < s.len() ==> (#[trigger] s[j]).0 != k,
    ensures
        journal_map(s).contains_key(k) == journal_map(s.subrange(0, i)).contains_key(k),
        journal_map(s).contains_key(k) ==> journal_map(s)[k] == journal_map(s.subrange(0, i))[k],
    decreases s.len() - i,
{
    if i == s.len() {
        assert(s.subrange(0, i) == s);
    } else {
        let s1 = s.drop_last();
        if i == s.len() - 1 {
            assert(s1 == s.subrange(0, i));
        } else {
            lemma_journal_unchanged_after(s1, i, k);
            assert(s1.subrange(0, i) == s.subrange(0, i));
        }
    }
}

impl<V: Copy> SpecMap<V> {
    /// The empty map.
    pub fn new() -> (r: SpecMap<V>)
        ensures
            r@ == Map::<AtomSpecifier, V>::empty(),
    {
        SpecMap { entries: Vec::new() }
    }

    /// Looks the key up.
    pub fn get(&self, k: &AtomSpecifier) -> (r: Option<V>)
        ensures
            r == if self@.contains_key(*k) {
                Some(self@[*k])
            } else {
                None::<V>
            },
    {
        let n = self.entries.len();
        let mut i: usize = n;
        while i > 0
            invariant
                0 <= i <= n,
                n == self.entries@.len(),
                forall|j: int| i <= j < n ==> (#[trigger] self.entries@[j]).0 != *k,
            decreases i,
        {
            i = i - 1;
            let entry = &self.entries[i];
            if entry.0 == *k {
                proof {
                    lemma_journal_unchanged_after(self.entries@, i + 1, *k);
                    assert(self.entries@.subrange(0, i + 1).drop_last() == self.entries@.subrange(
                        0,
                        i as int,
                    ));
                }
                return match entry.1 {
                    Some(v) => Some(v),
                    None => None,
                };
            }
        }
        proof {
            lemma_journal_unchanged_after(self.entries@, 0, *k);
            assert(self.entries@.subrange(0, 0) == Seq::<(AtomSpecifier, Option<V>)>::empty());
        }
        None
    }

    /// Whether the key is present.
    pub fn contains(&self, k: &AtomSpecifier) -> (r: bool)
        ensures
            r == self@.contains_key(*k),
    {
        self.get(k).is_some()
    }

    /// Maps `k` to `v`.
    pub fn insert(&mut self, k: AtomSpecifier, v: V)
        ensures
            final(self)@ == old(self)@.insert(k, v),
    {
        self.entries.push((k, Some(v)));
        proof {
            assert(self.entries@.drop_last() == old(self).entries@);
        }
    }

    /// Removes `k` if present.
    pub fn remove(&mut self, k: AtomSpecifier)
        ensures
            final(self)@ == old(self)@.remove(k),
    {
        self.entries.push((k, None));
        proof {
            assert(self.entries@.drop_last() == old(self).entries@);
        }
    }

    /// A copy with the same contents.
    pub fn duplicate(&self) -> (r: SpecMap<V>)
        ensures
            r@ == self@,
    {
        let n = self.entries.len();
        let mut out: Vec<(AtomSpecifier, Option<V>)> = Vec::new();
        let mut i: usize = 0;
        while i < n
            invariant
                0 <= i <= n,
                n == self.entries@.len(),
                out@ == self.entries@.subrange(0, i as int),
            decreases n - i,
        {
            out.push(self.entries[i]);
            proof {
                assert(out@ == self.entries@.subrange(0, i + 1));
            }
            i = i + 1;
        }
        proof {
            assert(out@ == self.entries@);
        }
        SpecMap { entries: out }
    }
}

} // verus!
