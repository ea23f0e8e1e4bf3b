//! The frequency table: k-mer keys mapped to occurrence counts.
//!
//! The table is a list of (key, count) pairs with pairwise-distinct keys,
//! kept in first-insertion order. Its mathematical meaning is the map
//! `pairs_to_map(self.pairs())`; iteration order (`key_at` / `count_at`)
//! is the order in which keys were first inserted. Downstream consumers
//! must not rely on any other ordering guarantee.

use vstd::prelude::*;
use crate::bytes::bytes_eq;
use crate::bytes::copy_range;

verus! {

/// The mapping that a list of (key, count) pairs denotes; a later pair
/// overrides an earlier one with the same key (with `unique_keys` no
/// overriding ever happens).
pub open spec fn pairs_to_map(es: Seq<(Seq<u8>, nat)>) -> Map<Seq<u8>, nat>
    decreases es.len(),
{
    if es.len() == 0 {
        Map::empty()
    } else {
        pairs_to_map(es.drop_last()).insert(es.last().0, es.last().1)
    }
}

/// No two pairs of the list share a key.
pub open spec fn unique_keys(es: Seq<(Seq<u8>, nat)>) -> bool {
    forall|i: int, j: int| 0 <= i < j < es.len() ==> es[i].0 != es[j].0
}

/// The sum of all counts in the list.
pub open spec fn sum_counts(es: Seq<(Seq<u8>, nat)>) -> nat
    decreases es.len(),
{
    if es.len() == 0 {
        0
    } else {
        sum_counts(es.drop_last()) + es.last().1
    }
}

/// The pairs whose count reaches `threshold`, in their original order.
pub open spec fn filter_pairs(es: Seq<(Seq<u8>, nat)>, threshold: nat) -> Seq<(Seq<u8>, nat)>
    decreases es.len(),
{
    if es.len() == 0 {
        Seq::empty()
    } else if es.last().1 >= threshold {
        filter_pairs(es.drop_last(), threshold).push(es.last())
    } else {
        filter_pairs(es.drop_last(), threshold)
    }
}

/// A key is in the denoted map exactly when some pair of the list holds it.
pub proof fn lemma_pairs_to_map_domain(es: Seq<(Seq<u8>, nat)>, w: Seq<u8>)
    ensures
        pairs_to_map(es).contains_key(w) <==> exists|i: int| 0 <= i < es.len() && es[i].0 == w,
    decreases es.len(),
{
    if es.len() > 0 {
        let dl = es.drop_last();
        lemma_pairs_to_map_domain(dl, w);
        if es.last().0 == w {
            assert(es[es.len() - 1].0 == w);
        } else {
            if pairs_to_map(es).contains_key(w) {
                let i = choose|i: int| 0 <= i < dl.len() && dl[i].0 == w;
                assert(es[i].0 == w);
            }
            if exists|i: int| 0 <= i < es.len() && es[i].0 == w {
                let i = choose|i: int| 0 <= i < es.len() && es[i].0 == w;
                assert(i != es.len() - 1);
                assert(dl[i].0 == w);
            }
        }
    }
}

/// With unique keys, the denoted map sends each listed key to its count.
pub proof fn lemma_pairs_to_map_index(es: Seq<(Seq<u8>, nat)>, i: int)
    requires
        unique_keys(es),
        0 <= i < es.len(),
    ensures
        pairs_to_map(es).contains_key(es[i].0),
        pairs_to_map(es)[es[i].0] == es[i].1,
    decreases es.len(),
{
    let dl = es.drop_last();
    if i < es.len() - 1 {
        assert(unique_keys(dl));
        lemma_pairs_to_map_index(dl, i);
        assert(es[i].0 != es.last().0);
    }
}

/// Updating the count at position `i` updates the denoted map at that key.
pub proof fn lemma_pairs_to_map_update(es: Seq<(Seq<u8>, nat)>, i: int, v: nat)
    requires
        unique_keys(es),
        0 <= i < es.len(),
    ensures
        pairs_to_map(es.update(i, (es[i].0, v))) =~= pairs_to_map(es).insert(es[i].0, v),
    decreases es.len(),
{
    let es2 = es.update(i, (es[i].0, v));
    let dl = es.drop_last();
    if i == es.len() - 1 {
        assert(es2.drop_last() =~= dl);
        assert(es2.last() == (es[i].0, v));
    } else {
        assert(unique_keys(dl));
        assert(es2.drop_last() =~= dl.update(i, (dl[i].0, v)));
        assert(es2.last() == es.last());
        lemma_pairs_to_map_update(dl, i, v);
        assert(es[i].0 != es.last().0);
    }
}

/// Updating the count at position `i` changes the sum by the difference.
pub proof fn lemma_sum_counts_update(es: Seq<(Seq<u8>, nat)>, i: int, v: nat)
    requires
        0 <= i < es.len(),
    ensures
        sum_counts(es.update(i, (es[i].0, v))) + es[i].1 == sum_counts(es) + v,
    decreases es.len(),
{
    let es2 = es.update(i, (es[i].0, v));
    let dl = es.drop_last();
    if i == es.len() - 1 {
        assert(es2.drop_last() =~= dl);
        assert(es2.last() == (es[i].0, v));
    } else {
        assert(es2.drop_last() =~= dl.update(i, (dl[i].0, v)));
        assert(es2.last() == es.last());
        lemma_sum_counts_update(dl, i, v);
    }
}

/// Filtering keeps keys unique, keeps each surviving key's count, and keeps
/// exactly the keys whose count reaches the threshold.
pub proof fn lemma_filter_pairs(es: Seq<(Seq<u8>, nat)>, t: nat)
    requires
        unique_keys(es),
    ensures
        unique_keys(filter_pairs(es, t)),
        forall|w: Seq<u8>| #[trigger] pairs_to_map(filter_pairs(es, t)).contains_key(w) <==>
            (pairs_to_map(es).contains_key(w) && pairs_to_map(es)[w] >= t),
        forall|w: Seq<u8>| pairs_to_map(filter_pairs(es, t)).contains_key(w) ==>
            pairs_to_map(filter_pairs(es, t))[w] == pairs_to_map(es)[w],
    decreases es.len(),
{
    if es.len() == 0 {
        assert(filter_pairs(es, t) =~= Seq::<(Seq<u8>, nat)>::empty());
        assert forall|w: Seq<u8>| !(#[trigger] pairs_to_map(filter_pairs(es, t)).contains_key(w)) by {
            lemma_pairs_to_map_domain(filter_pairs(es, t), w);
        }
        assert forall|w: Seq<u8>| !pairs_to_map(es).contains_key(w) by {
            lemma_pairs_to_map_domain(es, w);
        }
    } else {
        let dl = es.drop_last();
        let p = es.last();
        assert(unique_keys(dl));
        lemma_filter_pairs(dl, t);
        let fdl = filter_pairs(dl, t);
        // The last key occurs nowhere in the shorter list, hence not in its
        // filtered form either.
        assert forall|j: int| 0 <= j < dl.len() implies dl[j].0 != p.0 by {
            assert(es[j].0 != es[es.len() - 1].0);
        }
        lemma_pairs_to_map_domain(dl, p.0);
        assert(!pairs_to_map(dl).contains_key(p.0));
        assert(!pairs_to_map(fdl).contains_key(p.0));
        assert forall|j: int| 0 <= j < fdl.len() implies fdl[j].0 != p.0 by {
            lemma_pairs_to_map_index(fdl, j);
        }
        if p.1 >= t {
            let f = fdl.push(p);
            assert(filter_pairs(es, t) == f);
            assert(f.drop_last() =~= fdl);
            assert(f.last() == p);
            assert(pairs_to_map(f) == pairs_to_map(fdl).insert(p.0, p.1));
            assert(unique_keys(f)) by {
                assert(forall|j: int| 0 <= j < fdl.len() ==> f[j] == fdl[j]);
                assert(f[f.len() - 1] == p);
            }
            assert forall|w: Seq<u8>| #[trigger] pairs_to_map(f).contains_key(w) <==>
                (pairs_to_map(es).contains_key(w) && pairs_to_map(es)[w] >= t) by {
                if w != p.0 {
                    assert(pairs_to_map(f).contains_key(w) == pairs_to_map(fdl).contains_key(w));
                    assert(pairs_to_map(es).contains_key(w) == pairs_to_map(dl).contains_key(w));
                    if pairs_to_map(dl).contains_key(w) {
                        assert(pairs_to_map(es)[w] == pairs_to_map(dl)[w]);
                    }
                }
            }
        } else {
            assert(filter_pairs(es, t) == fdl);
            assert forall|w: Seq<u8>| #[trigger] pairs_to_map(fdl).contains_key(w) <==>
                (pairs_to_map(es).contains_key(w) && pairs_to_map(es)[w] >= t) by {
                if w == p.0 {
                    assert(!pairs_to_map(fdl).contains_key(w));
                    assert(pairs_to_map(es)[w] == p.1);
                } else {
                    assert(pairs_to_map(es).contains_key(w) == pairs_to_map(dl).contains_key(w));
                    if pairs_to_map(dl).contains_key(w) {
                        assert(pairs_to_map(es)[w] == pairs_to_map(dl)[w]);
                    }
                }
            }
            assert forall|w: Seq<u8>| pairs_to_map(fdl).contains_key(w) implies
                pairs_to_map(fdl)[w] == pairs_to_map(es)[w] by {
                assert(w != p.0);
                assert(pairs_to_map(fdl)[w] == pairs_to_map(dl)[w]);
            }
        }
    }
}

/// A frequency table: k-mer keys with their occurrence counts, in
/// first-insertion order.
pub struct FreqTable {
    keys: Vec<Vec<u8>>,
    counts: Vec<usize>,
}

impl View for FreqTable {
    type V = Map<Seq<u8>, nat>;

    open spec fn view(&self) -> Map<Seq<u8>, nat> {
        pairs_to_map(self.pairs())
    }
}

impl FreqTable {
    /// The table's (key, count) pairs, in iteration order.
    pub closed spec fn pairs(&self) -> Seq<(Seq<u8>, nat)> {
        Seq::new(self.keys@.len(), |i: int| (self.keys@[i]@, self.counts@[i] as nat))
    }

    /// Well-formed: keys are pairwise distinct (and the two columns agree).
    pub closed spec fn wf(&self) -> bool {
        &&& self.keys@.len() == self.counts@.len()
        &&& unique_keys(self.pairs())
    }

    /// The sum of all counts in the table.
    pub open spec fn total(&self) -> nat {
        sum_counts(self.pairs())
    }

    /// An empty table.
    pub fn new() -> (t: FreqTable)
        ensures
            t.wf(),
            t.pairs() == Seq::<(Seq<u8>, nat)>::empty(),
            t@ =~= Map::<Seq<u8>, nat>::empty(),
            t.total() == 0,
    {
        let t = FreqTable { keys: Vec::new(), counts: Vec::new() };
        proof {
            assert(t.pairs() =~= Seq::<(Seq<u8>, nat)>::empty());
        }
        t
    }

    /// The number of distinct keys in the table.
    pub fn len(&self) -> (n: usize)
        ensures
            n == self.pairs().len(),
    {
        self.keys.len()
    }

    /// Adds one occurrence of `key`: a present key's count grows by one, an
    /// absent key is appended with count one.
    pub fn increment(&mut self, key: Vec<u8>)
        requires
            old(self).wf(),
            old(self)@.contains_key(key@) ==> old(self)@[key@] < usize::MAX,
        ensures
            final(self).wf(),
            final(self)@ =~= old(self)@.insert(
                key@,
                if old(self)@.contains_key(key@) {
                    (old(self)@[key@] + 1) as nat
                } else {
                    1nat
                },
            ),
            final(self).total() == old(self).total() + 1,
    {
        let ghost es = self.pairs();
        let n = self.keys.len();
        let mut i: usize = 0;
        while i < n
            invariant
                n == self.keys@.len(),
                n == self.counts@.len(),
                0 <= i <= n,
                forall|j: int| 0 <= j < i ==> self.pairs()[j].0 != key@,
                *self == *old(self),
                es == self.pairs(),
                old(self).wf(),
                old(self)@.contains_key(key@) ==> old(self)@[key@] < usize::MAX,
            decreases n - i,
        {
            if bytes_eq(&self.keys[i], &key) {
                proof {
                    lemma_pairs_to_map_index(es, i as int);
                    assert(self@[key@] == es[i as int].1);
                    assert(es[i as int].1 == self.counts@[i as int] as nat);
                    lemma_pairs_to_map_update(es, i as int, (self.counts@[i as int] + 1) as nat);
                    lemma_sum_counts_update(es, i as int, (self.counts@[i as int] + 1) as nat);
                }
                let c = self.counts[i];
                self.counts[i] = c + 1;
                proof {
                    assert(self.pairs() =~= es.update(i as int, (es[i as int].0, (c + 1) as nat)));
                    assert(unique_keys(self.pairs()));
                }
                return;
            }
            i += 1;
        }
        proof {
            lemma_pairs_to_map_domain(es, key@);
            assert(!self@.contains_key(key@));
        }
        self.keys.push(key);
        self.counts.push(1);
        proof {
            let es2 = self.pairs();
            assert(es2.drop_last() =~= es);
            assert(es2.last() == (key@, 1nat));
            assert(unique_keys(es2)) by {
                assert(forall|j: int| 0 <= j < es.len() ==> es2[j] == es[j]);
                assert(es2[es2.len() - 1].0 == key@);
            }
            assert(pairs_to_map(es2) == pairs_to_map(es).insert(key@, 1nat));
        }
    }

    /// The count stored for `key`, or `None` when the key is absent.
    pub fn get(&self, key: &Vec<u8>) -> (r: Option<usize>)
        requires
            self.wf(),
        ensures
            match r {
                Some(c) => self@.contains_key(key@) && self@[key@] == c as nat,
                None => !self@.contains_key(key@),
            },
    {
        let n = self.keys.len();
        let mut i: usize = 0;
        while i < n
            invariant
                self.wf(),
                n == self.keys@.len(),
                n == self.counts@.len(),
                0 <= i <= n,
                forall|j: int| 0 <= j < i ==> self.pairs()[j].0 != key@,
            decreases n - i,
        {
            if bytes_eq(&self.keys[i], key) {
                proof {
                    lemma_pairs_to_map_index(self.pairs(), i as int);
                }
                return Some(self.counts[i]);
            }
            i += 1;
        }
        proof {
            lemma_pairs_to_map_domain(self.pairs(), key@);
        }
        None
    }

    /// A copy of the key at position `i` of the iteration order.
    pub fn key_at(&self, i: usize) -> (k: Vec<u8>)
        requires
            self.wf(),
            i < self.pairs().len(),
        ensures
            k@ == self.pairs()[i as int].0,
    {
        let kr = &self.keys[i];
        let r = copy_range(kr, 0, kr.len());
        proof {
            assert(kr@.subrange(0, kr@.len() as int) =~= kr@);
        }
        r
    }

    /// The count at position `i` of the iteration order.
    pub fn count_at(&self, i: usize) -> (c: usize)
        requires
            self.wf(),
            i < self.pairs().len(),
        ensures
            c as nat == self.pairs()[i as int].1,
    {
        self.counts[i]
    }

    /// The sub-table of entries whose count reaches `threshold`, in the same
    /// order; entries below the threshold are dropped.
    pub fn filter_by_threshold(&self, threshold: usize) -> (r: FreqTable)
        requires
            self.wf(),
        ensures
            r.wf(),
            r.pairs() == filter_pairs(self.pairs(), threshold as nat),
            forall|w: Seq<u8>| #[trigger] r@.contains_key(w) <==>
                (self@.contains_key(w) && self@[w] >= threshold),
            forall|w: Seq<u8>| r@.contains_key(w) ==> r@[w] == self@[w],
    {
        let n = self.keys.len();
        let mut rk: Vec<Vec<u8>> = Vec::new();
        let mut rc: Vec<usize> = Vec::new();
        let mut i: usize = 0;
        while i < n
            invariant
                self.wf(),
                n == self.keys@.len(),
                n == self.counts@.len(),
                0 <= i <= n,
                rk@.len() == rc@.len(),
                Seq::new(rk@.len(), |j: int| (rk@[j]@, rc@[j] as nat)) ==
                    filter_pairs(self.pairs().take(i as int), threshold as nat),
            decreases n - i,
        {
            let ghost prefix = self.pairs().take(i as int);
            let ghost built = Seq::new(rk@.len(), |j: int| (rk@[j]@, rc@[j] as nat));
            if self.counts[i] >= threshold {
                let kr = &self.keys[i];
                let kc = copy_range(kr, 0, kr.len());
                proof {
                    assert(kr@.subrange(0, kr@.len() as int) =~= kr@);
                }
                rk.push(kc);
                rc.push(self.counts[i]);
                proof {
                    assert(Seq::new(rk@.len(), |j: int| (rk@[j]@, rc@[j] as nat)) =~=
                        built.push(self.pairs()[i as int]));
                }
            }
            proof {
                let next = self.pairs().take(i as int + 1);
                assert(next.drop_last() =~= prefix);
                assert(next.last() == self.pairs()[i as int]);
            }
            i += 1;
        }
        let r = FreqTable { keys: rk, counts: rc };
        proof {
            assert(self.pairs().take(n as int) =~= self.pairs());
            lemma_filter_pairs(self.pairs(), threshold as nat);
        }
        r
    }
}

} // verus!
