//! An association map from byte-string keys to values, the shape shared by
//! the mempool and the stores: a vector of entries with pairwise distinct
//! keys, viewed as a mathematical map.

use vstd::prelude::*;
use crate::bytes::{bytes_eq, lex_lt, lex_less, lemma_lex_total, lemma_lex_transitive,
    lemma_lex_irreflexive};

verus! {

/// The map a list of entries denotes; a later entry would win, and the
/// well-formed maps keep their keys pairwise distinct.
pub open spec fn spec_map_of<V>(entries: Seq<(Vec<u8>, V)>) -> Map<Seq<u8>, V>
    decreases entries.len(),
{
    if entries.len() == 0 {
        Map::empty()
    } else {
        spec_map_of(entries.drop_last()).insert(entries.last().0@, entries.last().1)
    }
}

/// Pairwise distinct keys.
pub open spec fn spec_keys_unique<V>(entries: Seq<(Vec<u8>, V)>) -> bool {
    forall|i: int, j: int|
        0 <= i < j < entries.len() ==> (#[trigger] entries[i]).0@ != (#[trigger] entries[j]).0@
}

/// A key is in the map exactly when some entry carries it.
pub proof fn lemma_map_of_contains<V>(entries: Seq<(Vec<u8>, V)>, k: Seq<u8>)
    ensures
        spec_map_of(entries).contains_key(k) <==> (exists|i: int|
            0 <= i < entries.len() && (#[trigger] entries[i]).0@ == k),
    decreases entries.len(),
{
    if entries.len() == 0 {
    } else {
        let prefix = entries.drop_last();
        lemma_map_of_contains(prefix, k);
        if entries.last().0@ == k {
            assert(entries[entries.len() - 1].0@ == k);
        } else {
            if spec_map_of(entries).contains_key(k) {
                let i = choose|i: int| 0 <= i < prefix.len() && (#[trigger] prefix[i]).0@ == k;
                assert(entries[i].0@ == k);
            }
            if exists|i: int| 0 <= i < entries.len() && (#[trigger] entries[i]).0@ == k {
                let i = choose|i: int| 0 <= i < entries.len() && (#[trigger] entries[i]).0@ == k;
                assert(i < entries.len() - 1);
                assert(prefix[i].0@ == k);
            }
        }
    }
}

/// With distinct keys, the entry at `i` is what the map holds for its key.
pub proof fn lemma_map_of_index<V>(entries: Seq<(Vec<u8>, V)>, i: int)
    requires
        spec_keys_unique(entries),
        0 <= i < entries.len(),
    ensures
        spec_map_of(entries).contains_key(entries[i].0@),
        spec_map_of(entries)[entries[i].0@] == entries[i].1,
    decreases entries.len(),
{
    if i == entries.len() - 1 {
    } else {
        let prefix = entries.drop_last();
        assert(prefix[i] == entries[i]);
        lemma_map_of_index(prefix, i);
        assert(entries.last().0@ != entries[i].0@);
    }
}

/// Overwriting the entry that carries `k` updates the map at `k`.
pub proof fn lemma_map_of_update<V>(entries: Seq<(Vec<u8>, V)>, i: int, k: Vec<u8>, v: V)
    requires
        spec_keys_unique(entries),
        0 <= i < entries.len(),
        entries[i].0@ == k@,
    ensures
        spec_map_of(entries.update(i, (k, v))) == spec_map_of(entries).insert(k@, v),
        spec_keys_unique(entries.update(i, (k, v))),
    decreases entries.len(),
{
    let upd = entries.update(i, (k, v));
    if i == entries.len() - 1 {
        assert(upd.drop_last() =~= entries.drop_last());
        assert(upd.last() == (k, v));
        assert(spec_map_of(upd) =~= spec_map_of(entries).insert(k@, v));
    } else {
        let prefix = entries.drop_last();
        assert(prefix[i] == entries[i]);
        lemma_map_of_update(prefix, i, k, v);
        assert(upd.drop_last() =~= prefix.update(i, (k, v)));
        assert(upd.last() == entries.last());
        assert(entries.last().0@ != k@);
        assert(spec_map_of(upd) == spec_map_of(prefix).insert(k@, v).insert(
            entries.last().0@,
            entries.last().1,
        ));
        assert(spec_map_of(prefix).insert(k@, v).insert(entries.last().0@, entries.last().1)
            =~= spec_map_of(prefix).insert(entries.last().0@, entries.last().1).insert(k@, v));
    }
}

/// Appending an entry with a fresh key inserts it into the map.
pub proof fn lemma_map_of_push<V>(entries: Seq<(Vec<u8>, V)>, k: Vec<u8>, v: V)
    requires
        spec_keys_unique(entries),
        forall|i: int| 0 <= i < entries.len() ==> (#[trigger] entries[i]).0@ != k@,
    ensures
        spec_map_of(entries.push((k, v))) == spec_map_of(entries).insert(k@, v),
        spec_keys_unique(entries.push((k, v))),
{
    let pushed = entries.push((k, v));
    assert(pushed.drop_last() =~= entries);
    assert(pushed.last() == (k, v));
    assert(forall|i: int| 0 <= i < entries.len() ==> (#[trigger] pushed[i]) == entries[i]);
}

/// Removing the entry that carries `k` removes `k` from the map.
pub proof fn lemma_map_of_remove<V>(entries: Seq<(Vec<u8>, V)>, i: int)
    requires
        spec_keys_unique(entries),
        0 <= i < entries.len(),
    ensures
        spec_map_of(entries.remove(i)) == spec_map_of(entries).remove(entries[i].0@),
        spec_keys_unique(entries.remove(i)),
    decreases entries.len(),
{
    let k = entries[i].0@;
    let rem = entries.remove(i);
    assert(spec_keys_unique(rem)) by {
        assert(forall|a: int|
            0 <= a < rem.len() ==> (#[trigger] rem[a]) == if a < i {
                entries[a]
            } else {
                entries[a + 1]
            });
    }
    if i == entries.len() - 1 {
        let prefix = entries.drop_last();
        assert(rem =~= prefix);
        lemma_map_of_contains(prefix, k);
        assert(!spec_map_of(prefix).contains_key(k));
        assert(spec_map_of(prefix) =~= spec_map_of(prefix).insert(k, entries[i].1).remove(k));
    } else {
        let prefix = entries.drop_last();
        assert(prefix[i] == entries[i]);
        lemma_map_of_remove(prefix, i);
        assert(rem.drop_last() =~= prefix.remove(i));
        assert(rem.last() == entries.last()) by {
            assert(rem[rem.len() - 1] == entries[rem.len() as int]);
        }
        assert(entries.last().0@ != k);
        assert(spec_map_of(rem) == spec_map_of(prefix).remove(k).insert(
            entries.last().0@,
            entries.last().1,
        ));
        assert(spec_map_of(prefix).remove(k).insert(entries.last().0@, entries.last().1)
            =~= spec_map_of(prefix).insert(entries.last().0@, entries.last().1).remove(k));
    }
}

/// With distinct keys the map's domain is as large as the entry list.
pub proof fn lemma_map_of_dom_len<V>(entries: Seq<(Vec<u8>, V)>)
    requires
        spec_keys_unique(entries),
    ensures
        spec_map_of(entries).dom().finite(),
        spec_map_of(entries).dom().len() == entries.len(),
    decreases entries.len(),
{
    if entries.len() == 0 {
        assert(spec_map_of(entries).dom() =~= Set::<Seq<u8>>::empty());
    } else {
        let prefix = entries.drop_last();
        lemma_map_of_dom_len(prefix);
        lemma_map_of_contains(prefix, entries.last().0@);
        assert(!spec_map_of(prefix).contains_key(entries.last().0@));
        assert(spec_map_of(entries).dom() =~= spec_map_of(prefix).dom().insert(
            entries.last().0@,
        ));
    }
}

/// An association map from byte-string keys to values.
pub struct KvMap<V> {
    pub entries: Vec<(Vec<u8>, V)>,
}

impl<V> View for KvMap<V> {
    type V = Map<Seq<u8>, V>;

    open spec fn view(&self) -> Map<Seq<u8>, V> {
        spec_map_of(self.entries@)
    }
}

impl<V> KvMap<V> {
    /// Keys stay pairwise distinct.
    pub open spec fn wf(&self) -> bool {
        spec_keys_unique(self.entries@)
    }

    /// The empty map.
    pub fn new() -> (r: KvMap<V>)
        ensures
            r.wf(),
            r@ == Map::<Seq<u8>, V>::empty(),
    {
        KvMap { entries: Vec::new() }
    }

    /// The index of the entry carrying `k`, if any.
    fn index_of(&self, k: &Vec<u8>) -> (r: Option<usize>)
        ensures
            match r {
                Some(i) => i < self.entries@.len() && self.entries@[i as int].0@ == k@,
                None => forall|i: int|
                    0 <= i < self.entries@.len() ==> (#[trigger] self.entries@[i]).0@ != k@,
            },
    {
        let n = self.entries.len();
        let mut i: usize = 0;
        while i < n
            invariant
                n == self.entries@.len(),
                0 <= i <= n,
                forall|j: int| 0 <= j < i ==> (#[trigger] self.entries@[j]).0@ != k@,
            decreases n - i,
        {
            if bytes_eq(&self.entries[i].0, k) {
                return Some(i);
            }
            i += 1;
        }
        None
    }

    /// Whether the map holds `k`.
    pub fn contains(&self, k: &Vec<u8>) -> (r: bool)
        ensures
            r == self@.contains_key(k@),
    {
        proof {
            lemma_map_of_contains(self.entries@, k@);
        }
        match self.index_of(k) {
            Some(_) => true,
            None => false,
        }
    }

    /// The value under `k`, if any.
    pub fn get(&self, k: &Vec<u8>) -> (r: Option<&V>)
        requires
            self.wf(),
        ensures
            match r {
                Some(v) => self@.contains_key(k@) && *v == self@[k@],
                None => !self@.contains_key(k@),
            },
    {
        proof {
            lemma_map_of_contains(self.entries@, k@);
        }
        match self.index_of(k) {
            Some(i) => {
                proof {
                    lemma_map_of_index(self.entries@, i as int);
                }
                Some(&self.entries[i].1)
            },
            None => None,
        }
    }

    /// Put `v` under `k`, replacing what was there; reports whether the key
    /// was already present.
    pub fn insert(&mut self, k: Vec<u8>, v: V) -> (was_present: bool)
        requires
            old(self).wf(),
        ensures
            final(self).wf(),
            final(self)@ == old(self)@.insert(k@, v),
            was_present == old(self)@.contains_key(k@),
    {
        proof {
            lemma_map_of_contains(self.entries@, k@);
        }
        match self.index_of(&k) {
            Some(i) => {
                proof {
                    lemma_map_of_update(self.entries@, i as int, k, v);
                }
                self.entries[i] = (k, v);
                true
            },
            None => {
                proof {
                    lemma_map_of_push(self.entries@, k, v);
                }
                self.entries.push((k, v));
                false
            },
        }
    }

    /// Take the value under `k` out of the map, if any.
    pub fn remove(&mut self, k: &Vec<u8>) -> (r: Option<V>)
        requires
            old(self).wf(),
        ensures
            final(self).wf(),
            final(self)@ == old(self)@.remove(k@),
            match r {
                Some(v) => old(self)@.contains_key(k@) && v == old(self)@[k@],
                None => !old(self)@.contains_key(k@) && final(self)@ == old(self)@,
            },
    {
        proof {
            lemma_map_of_contains(self.entries@, k@);
        }
        match self.index_of(k) {
            Some(i) => {
                proof {
                    lemma_map_of_index(self.entries@, i as int);
                    lemma_map_of_remove(self.entries@, i as int);
                }
                let (_, v) = self.entries.remove(i);
                Some(v)
            },
            None => {
                proof {
                    assert(!self@.contains_key(k@));
                    assert(self@ =~= self@.remove(k@));
                }
                None
            },
        }
    }

    /// How many entries the map holds.
    pub fn len(&self) -> (r: usize)
        requires
            self.wf(),
        ensures
            r == self@.dom().len(),
    {
        proof {
            lemma_map_of_dom_len(self.entries@);
        }
        self.entries.len()
    }

    /// All keys, in the order they stand.
    pub fn keys(&self) -> (r: Vec<Vec<u8>>)
        requires
            self.wf(),
        ensures
            r@.len() == self.entries@.len(),
            forall|i: int| 0 <= i < r@.len() ==> (#[trigger] r@[i])@ == self.entries@[i].0@,
            keys_distinct(r@),
            forall|x: Seq<u8>| has_key(r@, x) == self@.contains_key(x),
    {
        let n = self.entries.len();
        let mut r: Vec<Vec<u8>> = Vec::new();
        let mut i: usize = 0;
        while i < n
            invariant
                n == self.entries@.len(),
                0 <= i <= n,
                r@.len() == i,
                forall|j: int| 0 <= j < i ==> (#[trigger] r@[j])@ == self.entries@[j].0@,
            decreases n - i,
        {
            r.push(self.entries[i].0.clone());
            i += 1;
        }
        proof {
            assert forall|x: Seq<u8>| has_key(r@, x) == self@.contains_key(x) by {
                lemma_map_of_contains(self.entries@, x);
                if has_key(r@, x) {
                    let j = choose|j: int| 0 <= j < r@.len() && (#[trigger] r@[j])@ == x;
                    assert(self.entries@[j].0@ == x);
                }
                if self@.contains_key(x) {
                    let j = choose|j: int|
                        0 <= j < self.entries@.len() && (#[trigger] self.entries@[j]).0@ == x;
                    assert(r@[j]@ == x);
                }
            }
        }
        r
    }
}

/// Whether some element of `s` views as `x`.
pub open spec fn has_key(s: Seq<Vec<u8>>, x: Seq<u8>) -> bool {
    exists|j: int| 0 <= j < s.len() && (#[trigger] s[j])@ == x
}

/// Pairwise distinct byte strings.
pub open spec fn keys_distinct(s: Seq<Vec<u8>>) -> bool {
    forall|i: int, j: int| 0 <= i < j < s.len() ==> (#[trigger] s[i])@ != (#[trigger] s[j])@
}

/// Strictly ascending in the lexicographic order.
pub open spec fn strictly_sorted(s: Seq<Vec<u8>>) -> bool {
    forall|i: int, j: int| 0 <= i < j < s.len() ==> lex_lt((#[trigger] s[i])@, (#[trigger] s[j])@)
}

/// Removing one element keeps the others, and distinctness.
proof fn lemma_remove_has_key(s: Seq<Vec<u8>>, m: int)
    requires
        keys_distinct(s),
        0 <= m < s.len(),
    ensures
        keys_distinct(s.remove(m)),
        forall|x: Seq<u8>|
            #[trigger] has_key(s.remove(m), x) == (has_key(s, x) && x != s[m]@),
{
    let rem = s.remove(m);
    assert(forall|a: int|
        0 <= a < rem.len() ==> (#[trigger] rem[a]) == if a < m {
            s[a]
        } else {
            s[a + 1]
        });
    assert forall|x: Seq<u8>| #[trigger] has_key(rem, x) == (has_key(s, x) && x != s[m]@) by {
        if has_key(rem, x) {
            let j = choose|j: int| 0 <= j < rem.len() && (#[trigger] rem[j])@ == x;
            if j < m {
                assert(s[j]@ == x);
            } else {
                assert(s[j + 1]@ == x);
            }
        }
        if has_key(s, x) && x != s[m]@ {
            let j = choose|j: int| 0 <= j < s.len() && (#[trigger] s[j])@ == x;
            if j < m {
                assert(rem[j]@ == x);
            } else {
                assert(j > m);
                assert(rem[j - 1]@ == x);
            }
        }
    }
}

/// Sort pairwise distinct byte strings into strictly ascending
/// lexicographic order; the same strings come out that went in.
pub fn sort_keys(input: Vec<Vec<u8>>) -> (r: Vec<Vec<u8>>)
    requires
        keys_distinct(input@),
    ensures
        strictly_sorted(r@),
        r@.len() == input@.len(),
        forall|x: Seq<u8>| #[trigger] has_key(r@, x) == has_key(input@, x),
{
    let ghost orig = input@;
    let mut src = input;
    let mut out: Vec<Vec<u8>> = Vec::new();
    while src.len() > 0
        invariant
            keys_distinct(src@),
            strictly_sorted(out@),
            out@.len() + src@.len() == orig.len(),
            forall|a: int, b: int|
                0 <= a < out@.len() && 0 <= b < src@.len() ==> lex_lt(
                    (#[trigger] out@[a])@,
                    (#[trigger] src@[b])@,
                ),
            forall|x: Seq<u8>|
                #[trigger] has_key(orig, x) == (has_key(out@, x) || has_key(src@, x)),
        decreases src@.len(),
    {
        let n = src.len();
        let mut m: usize = 0;
        let mut j: usize = 1;
        while j < n
            invariant
                n == src@.len(),
                0 <= m < j <= n,
                keys_distinct(src@),
                forall|k: int|
                    0 <= k < j ==> k == m || lex_lt(src@[m as int]@, (#[trigger] src@[k])@),
            decreases n - j,
        {
            if lex_less(&src[j], &src[m]) {
                proof {
                    assert forall|k: int|
                        0 <= k < j + 1 implies k == j as int || lex_lt(
                        src@[j as int]@,
                        (#[trigger] src@[k])@,
                    ) by {
                        if k != j as int && k != m as int {
                            lemma_lex_transitive(src@[j as int]@, src@[m as int]@, src@[k]@);
                        }
                    }
                }
                m = j;
            } else {
                proof {
                    lemma_lex_total(src@[m as int]@, src@[j as int]@);
                }
            }
            j += 1;
        }
        let ghost old_src = src@;
        let x = src.remove(m);
        proof {
            lemma_remove_has_key(old_src, m as int);
            assert(forall|a: int|
                0 <= a < src@.len() ==> (#[trigger] src@[a]) == if a < m {
                    old_src[a]
                } else {
                    old_src[a + 1]
                });
            assert(has_key(old_src, x@));
        }
        let ghost old_out = out@;
        out.push(x);
        proof {
            assert forall|a: int, b: int|
                0 <= a < b < out@.len() implies lex_lt((#[trigger] out@[a])@, (#[trigger] out@[b])@)
            by {
                if b == out@.len() - 1 {
                    assert(out@[b] == x);
                } else {
                    assert(out@[a] == old_out[a] && out@[b] == old_out[b]);
                }
            }
            assert forall|a: int, b: int|
                0 <= a < out@.len() && 0 <= b < src@.len() implies lex_lt(
                (#[trigger] out@[a])@,
                (#[trigger] src@[b])@,
            ) by {
                if a == out@.len() - 1 {
                    assert(out@[a] == x);
                } else {
                    assert(out@[a] == old_out[a]);
                }
            }
            assert forall|q: Seq<u8>|
                #[trigger] has_key(orig, q) == (has_key(out@, q) || has_key(src@, q)) by {
                assert(has_key(out@, q) == (has_key(old_out, q) || q == x@)) by {
                    if has_key(out@, q) {
                        let j2 = choose|j2: int| 0 <= j2 < out@.len() && (#[trigger] out@[j2])@ == q;
                        if j2 < out@.len() - 1 {
                            assert(old_out[j2]@ == q);
                        }
                    }
                    if has_key(old_out, q) {
                        let j2 = choose|j2: int|
                            0 <= j2 < old_out.len() && (#[trigger] old_out[j2])@ == q;
                        assert(out@[j2]@ == q);
                    }
                    if q == x@ {
                        assert(out@[out@.len() - 1]@ == q);
                    }
                }
                assert(has_key(src@, q) == (has_key(old_src, q) && q != x@));
            }
        }
    }
    proof {
        assert forall|x: Seq<u8>| #[trigger] has_key(out@, x) == has_key(orig, x) by {
            assert(!has_key(src@, x));
        }
    }
    out
}

} // verus!
