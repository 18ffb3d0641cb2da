//! A small string-keyed table (a map with distinct keys, kept in a `Vec`),
//! the shape of the health caches.

use vstd::prelude::*;
use crate::text::str_eq;

verus! {

/// Entries with pairwise distinct keys.
#[derive(Debug)]
pub struct KeyedEntries<V> {
    entries: Vec<(String, V)>,
}

/// The map a list of pairs denotes (a later pair wins over an earlier one).
pub open spec fn pairs_map<V: View>(s: Seq<(String, V)>) -> Map<Seq<char>, V::V>
    decreases s.len(),
{
    if s.len() == 0 {
        Map::empty()
    } else {
        pairs_map(s.drop_last()).insert(s.last().0@, s.last().1@)
    }
}

pub open spec fn distinct_pair_keys<V>(s: Seq<(String, V)>) -> bool {
    forall|i: int, j: int|
        0 <= i < s.len() && 0 <= j < s.len() && i != j ==> (#[trigger] s[i]).0@ != (#[trigger] s[j]).0@
}

/// The pairs of `s` whose key is in `keep`, in their order.
pub open spec fn kept<V>(s: Seq<(String, V)>, keep: Set<Seq<char>>) -> Seq<(String, V)>
    decreases s.len(),
{
    if s.len() == 0 {
        Seq::empty()
    } else {
        let rest = kept(s.drop_last(), keep);
        if keep.contains(s.last().0@) {
            rest.push(s.last())
        } else {
            rest
        }
    }
}

/// The set of the strings in `live`.
pub open spec fn key_set(live: Seq<String>) -> Set<Seq<char>> {
    Set::new(|k: Seq<char>| exists|i: int| 0 <= i < live.len() && (#[trigger] live[i])@ == k)
}

proof fn lemma_pairs_map<V: View>(s: Seq<(String, V)>)
    requires
        distinct_pair_keys(s),
    ensures
        pairs_map(s).dom().finite(),
        pairs_map(s).dom().len() == s.len(),
        forall|k: Seq<char>| #[trigger] pairs_map(s).contains_key(k) <==> exists|i: int|
            0 <= i < s.len() && (#[trigger] s[i]).0@ == k,
        forall|i: int| 0 <= i < s.len() ==> #[trigger] pairs_map(s)[s[i].0@] == s[i].1@,
    decreases s.len(),
{
    if s.len() > 0 {
        let t = s.drop_last();
        assert(distinct_pair_keys(t)) by {
            assert forall|i: int, j: int| 0 <= i < t.len() && 0 <= j < t.len() && i != j implies (#[trigger] t[i]).0@
                != (#[trigger] t[j]).0@ by {
                assert(t[i] == s[i]);
                assert(t[j] == s[j]);
            }
        }
        lemma_pairs_map(t);
        let last = s.last();
        assert(!pairs_map(t).contains_key(last.0@)) by {
            if pairs_map(t).contains_key(last.0@) {
                let i = choose|i: int| 0 <= i < t.len() && (#[trigger] t[i]).0@ == last.0@;
                assert(t[i] == s[i]);
                assert(s[s.len() - 1] == last);
            }
        }
        assert forall|k: Seq<char>| #[trigger] pairs_map(s).contains_key(k) <==> exists|i: int|
            0 <= i < s.len() && (#[trigger] s[i]).0@ == k by {
            if pairs_map(t).contains_key(k) {
                let i = choose|i: int| 0 <= i < t.len() && (#[trigger] t[i]).0@ == k;
                assert(s[i] == t[i]);
            }
            if exists|i: int| 0 <= i < s.len() && (#[trigger] s[i]).0@ == k {
                let i = choose|i: int| 0 <= i < s.len() && (#[trigger] s[i]).0@ == k;
                if i < s.len() - 1 {
                    assert(t[i] == s[i]);
                }
            }
        }
        assert forall|i: int| 0 <= i < s.len() implies #[trigger] pairs_map(s)[s[i].0@] == s[i].1@ by {
            if i < s.len() - 1 {
                assert(t[i] == s[i]);
                assert(s[i].0@ != last.0@);
            }
        }
    }
}

/// Filtering the pairs restricts the map they denote.
proof fn lemma_kept_map<V: View>(s: Seq<(String, V)>, keep: Set<Seq<char>>)
    ensures
        pairs_map(kept(s, keep)) =~= pairs_map(s).restrict(keep),
    decreases s.len(),
{
    if s.len() == 0 {
        assert(pairs_map(s).restrict(keep) =~= Map::empty());
    } else {
        let t = s.drop_last();
        let last = s.last();
        lemma_kept_map(t, keep);
        if keep.contains(last.0@) {
            assert(kept(t, keep).push(last).drop_last() =~= kept(t, keep));
            assert(pairs_map(kept(s, keep)) =~= pairs_map(kept(t, keep)).insert(last.0@, last.1@));
        }
        assert(pairs_map(kept(s, keep)) =~= pairs_map(s).restrict(keep));
    }
}

/// What filtering keeps: fewer pairs, each one of `s` with a key in `keep`,
/// and distinct keys stay distinct.
proof fn lemma_kept_shape<V>(s: Seq<(String, V)>, keep: Set<Seq<char>>)
    ensures
        kept(s, keep).len() <= s.len(),
        forall|j: int| #![trigger kept(s, keep)[j]] 0 <= j < kept(s, keep).len() ==> keep.contains(kept(s, keep)[j].0@)
            && exists|o: int| 0 <= o < s.len() && s[o] == kept(s, keep)[j],
        distinct_pair_keys(s) ==> distinct_pair_keys(kept(s, keep)),
    decreases s.len(),
{
    if s.len() > 0 {
        let t = s.drop_last();
        lemma_kept_shape(t, keep);
        let r = kept(t, keep);
        let k = kept(s, keep);
        assert forall|j: int| #![trigger k[j]] 0 <= j < k.len() implies keep.contains(k[j].0@) && exists|o: int|
            0 <= o < s.len() && s[o] == k[j] by {
            if j < r.len() {
                assert(k[j] == r[j]);
                let o = choose|o: int| 0 <= o < t.len() && t[o] == r[j];
                assert(s[o] == t[o]);
            } else {
                assert(s[s.len() - 1] == k[j]);
            }
        }
        if distinct_pair_keys(s) {
            assert(distinct_pair_keys(t)) by {
                assert forall|a: int, b: int| 0 <= a < t.len() && 0 <= b < t.len() && a != b implies (#[trigger] t[a]).0@
                    != (#[trigger] t[b]).0@ by {
                    assert(t[a] == s[a]);
                    assert(t[b] == s[b]);
                }
            }
            assert forall|a: int, b: int| 0 <= a < k.len() && 0 <= b < k.len() && a != b implies (#[trigger] k[a]).0@
                != (#[trigger] k[b]).0@ by {
                if a < r.len() && b < r.len() {
                    assert(k[a] == r[a]);
                    assert(k[b] == r[b]);
                } else if a < r.len() {
                    assert(k[a] == r[a]);
                    let o = choose|o: int| 0 <= o < t.len() && t[o] == r[a];
                    assert(s[o] == t[o]);
                    assert(k[b] == s[s.len() - 1]);
                } else if b < r.len() {
                    assert(k[b] == r[b]);
                    let o = choose|o: int| 0 <= o < t.len() && t[o] == r[b];
                    assert(s[o] == t[o]);
                    assert(k[a] == s[s.len() - 1]);
                }
            }
        }
    }
}

/// Whether `key` is one of the strings in `live`.
fn listed(live: &Vec<String>, key: &str) -> (r: bool)
    ensures
        r == key_set(live@).contains(key@),
{
    let mut q: usize = 0;
    while q < live.len()
        invariant
            q <= live@.len(),
            forall|i: int| 0 <= i < q ==> (#[trigger] live@[i])@ != key@,
        decreases live@.len() - q,
    {
        if str_eq(live[q].as_str(), key) {
            return true;
        }
        q = q + 1;
    }
    false
}

impl<V: View> View for KeyedEntries<V> {
    type V = Map<Seq<char>, V::V>;

    closed spec fn view(&self) -> Map<Seq<char>, V::V> {
        pairs_map(self.entries@)
    }
}

impl<V> KeyedEntries<V> {
    #[verifier::type_invariant]
    spec fn keys_distinct(self) -> bool {
        distinct_pair_keys(self.entries@)
    }
}

impl<V: View> KeyedEntries<V> {
    /// An empty table.
    pub fn new() -> (r: Self)
        ensures
            r@ == Map::<Seq<char>, V::V>::empty(),
    {
        KeyedEntries { entries: Vec::new() }
    }

    /// Number of entries.
    pub fn len(&self) -> (n: usize)
        ensures
            self@.dom().finite(),
            n == self@.dom().len(),
    {
        proof {
            use_type_invariant(self);
            lemma_pairs_map(self.entries@);
        }
        self.entries.len()
    }

    /// The value stored under `key`.
    pub fn get(&self, key: &str) -> (r: Option<&V>)
        ensures
            match r {
                Some(v) => self@.contains_key(key@) && self@[key@] == v@,
                None => !self@.contains_key(key@),
            },
    {
        proof {
            use_type_invariant(self);
            lemma_pairs_map(self.entries@);
        }
        let mut i: usize = 0;
        while i < self.entries.len()
            invariant
                i <= self.entries@.len(),
                forall|j: int| 0 <= j < i ==> (#[trigger] self.entries@[j]).0@ != key@,
                forall|j: int| 0 <= j < self.entries@.len() ==> #[trigger] pairs_map(self.entries@)[self.entries@[j].0@]
                    == self.entries@[j].1@,
                forall|k: Seq<char>| #[trigger] pairs_map(self.entries@).contains_key(k) <==> exists|j: int|
                    0 <= j < self.entries@.len() && (#[trigger] self.entries@[j]).0@ == k,
            decreases self.entries@.len() - i,
        {
            if str_eq(self.entries[i].0.as_str(), key) {
                return Some(&self.entries[i].1);
            }
            i = i + 1;
        }
        None
    }

    /// Keep only the entries whose key is in `live`; returns how many were
    /// dropped.
    pub fn retain_keys(&mut self, live: &Vec<String>) -> (dropped: usize)
        ensures
            final(self)@ == old(self)@.restrict(key_set(live@)),
            old(self)@.dom().finite(),
            dropped == old(self)@.dom().len() - final(self)@.dom().len(),
    {
        proof {
            use_type_invariant(&*self);
            lemma_pairs_map(self.entries@);
        }
        let ghost keep = key_set(live@);
        let ghost old_s = self.entries@;
        let mut rest: Vec<(String, V)> = Vec::new();
        std::mem::swap(&mut rest, &mut self.entries);
        let before = rest.len();
        let mut out: Vec<(String, V)> = Vec::new();
        let ghost mut c: int = 0;
        while rest.len() > 0
            invariant
                0 <= c <= old_s.len(),
                rest@ == old_s.subrange(c, old_s.len() as int),
                out@ == kept(old_s.subrange(0, c), keep),
                keep == key_set(live@),
            decreases rest@.len(),
        {
            let e = rest.remove(0);
            assert(e == old_s[c]);
            let hit = listed(live, e.0.as_str());
            proof {
                assert(old_s.subrange(0, c + 1).drop_last() =~= old_s.subrange(0, c));
                assert(old_s.subrange(0, c + 1).last() == e);
            }
            if hit {
                out.push(e);
            }
            proof {
                c = c + 1;
                assert(rest@ =~= old_s.subrange(c, old_s.len() as int));
            }
        }
        proof {
            assert(old_s.subrange(0, c) =~= old_s);
            lemma_kept_shape(old_s, keep);
            lemma_kept_map(old_s, keep);
            lemma_pairs_map(out@);
        }
        let after = out.len();
        self.entries = out;
        before - after
    }

    /// Remove the entry under `key`, if any.
    pub fn remove(&mut self, key: &str)
        ensures
            final(self)@ == old(self)@.remove(key@),
            forall|k: Seq<char>| #![trigger final(self)@.contains_key(k)] final(self)@.contains_key(k) ==> k != key@,
    {
        proof {
            use_type_invariant(&*self);
        }
        let ghost keep = Set::new(|k: Seq<char>| k != key@);
        let ghost old_s = self.entries@;
        let mut rest: Vec<(String, V)> = Vec::new();
        std::mem::swap(&mut rest, &mut self.entries);
        let mut out: Vec<(String, V)> = Vec::new();
        let ghost mut c: int = 0;
        while rest.len() > 0
            invariant
                0 <= c <= old_s.len(),
                rest@ == old_s.subrange(c, old_s.len() as int),
                out@ == kept(old_s.subrange(0, c), keep),
                keep == Set::new(|k: Seq<char>| k != key@),
            decreases rest@.len(),
        {
            let e = rest.remove(0);
            assert(e == old_s[c]);
            let hit = !str_eq(e.0.as_str(), key);
            proof {
                assert(old_s.subrange(0, c + 1).drop_last() =~= old_s.subrange(0, c));
                assert(old_s.subrange(0, c + 1).last() == e);
            }
            if hit {
                out.push(e);
            }
            proof {
                c = c + 1;
                assert(rest@ =~= old_s.subrange(c, old_s.len() as int));
            }
        }
        proof {
            assert(old_s.subrange(0, c) =~= old_s);
            lemma_kept_shape(old_s, keep);
            lemma_kept_map(old_s, keep);
            assert(pairs_map(out@) =~= pairs_map(old_s).remove(key@));
        }
        self.entries = out;
    }

    /// Store `v` under `key`, replacing any previous value.
    pub fn insert(&mut self, key: String, v: V)
        ensures
            final(self)@ == old(self)@.insert(key@, v@),
    {
        self.remove(key.as_str());
        let ghost mid = self@;
        proof {
            use_type_invariant(&*self);
            lemma_pairs_map(self.entries@);
        }
        let ghost kb = self.entries@;
        let mut out: Vec<(String, V)> = Vec::new();
        std::mem::swap(&mut out, &mut self.entries);
        let ghost key_view = key@;
        out.push((key, v));
        proof {
            let s = out@;
            assert(s.drop_last() =~= kb);
            assert forall|a: int, b: int| 0 <= a < s.len() && 0 <= b < s.len() && a != b implies (#[trigger] s[a]).0@
                != (#[trigger] s[b]).0@ by {
                if a < kb.len() {
                    assert(s[a] == kb[a]);
                    assert(pairs_map(kb).contains_key(kb[a].0@));
                }
                if b < kb.len() {
                    assert(s[b] == kb[b]);
                    assert(pairs_map(kb).contains_key(kb[b].0@));
                }
            }
            assert(pairs_map(s) =~= mid.insert(key_view, v@));
        }
        self.entries = out;
    }
}

} // verus!
