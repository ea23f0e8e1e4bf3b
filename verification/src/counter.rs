//! Per-sequence k-mer counting.
//!
//! A k-mer is a length-`k` window of the sequence. Every window whose bytes
//! all lie in the single-byte (ASCII) range is counted; a window holding any
//! other byte is skipped silently, without stopping the scan.

use vstd::prelude::*;
use crate::KmerError;
use crate::bytes::copy_range;
use crate::table::FreqTable;
use crate::table::pairs_to_map;

verus! {

/// Whether a byte encodes a character on its own (the single-byte range).
pub open spec fn byte_single(b: u8) -> bool {
    b < 128
}

/// The window of `k` bytes of `s` starting at offset `i`.
pub open spec fn window_at(s: Seq<u8>, i: int, k: int) -> Seq<u8> {
    s.subrange(i, i + k)
}

/// Whether every byte of the window at offset `i` is single-byte-encodable.
pub open spec fn window_valid(s: Seq<u8>, i: int, k: int) -> bool {
    forall|j: int| i <= j < i + k ==> byte_single(#[trigger] s[j])
}

/// Whether the window at offset `i` contributes an occurrence of `w`.
pub open spec fn window_counted(s: Seq<u8>, k: int, w: Seq<u8>, i: int) -> bool {
    window_valid(s, i, k) && window_at(s, i, k) == w
}

/// Occurrences of `w` among the windows at offsets `0 .. n`.
pub open spec fn prefix_count(s: Seq<u8>, k: int, w: Seq<u8>, n: int) -> nat
    decreases n,
{
    if n <= 0 {
        0
    } else {
        prefix_count(s, k, w, n - 1) + if window_counted(s, k, w, n - 1) {
            1nat
        } else {
            0nat
        }
    }
}

/// Occurrences of `w` among all windows of `s`: the number of offsets
/// `0 <= i <= s.len() - k` whose window is valid and equals `w`.
pub open spec fn kmer_count(s: Seq<u8>, k: int, w: Seq<u8>) -> nat {
    if 0 < k <= s.len() {
        prefix_count(s, k, w, s.len() - k + 1)
    } else {
        0
    }
}

/// The number of valid windows at offsets `0 .. n`.
pub open spec fn valid_prefix_count(s: Seq<u8>, k: int, n: int) -> nat
    decreases n,
{
    if n <= 0 {
        0
    } else {
        valid_prefix_count(s, k, n - 1) + if window_valid(s, n - 1, k) {
            1nat
        } else {
            0nat
        }
    }
}

/// The number of valid windows of `s` altogether.
pub open spec fn valid_window_count(s: Seq<u8>, k: int) -> nat {
    if 0 < k <= s.len() {
        valid_prefix_count(s, k, s.len() - k + 1)
    } else {
        0
    }
}

/// Whether `m` is the frequency table of `s` for window length `k`: it holds
/// exactly the k-mers that occur, each with its occurrence count.
pub open spec fn table_matches(m: Map<Seq<u8>, nat>, s: Seq<u8>, k: int) -> bool {
    &&& forall|w: Seq<u8>|
        #![trigger m.contains_key(w)]
        #![trigger kmer_count(s, k, w)]
        m.contains_key(w) <==> kmer_count(s, k, w) > 0
    &&& forall|w: Seq<u8>| #[trigger] m.contains_key(w) ==> m[w] == kmer_count(s, k, w)
}

/// Whether every byte of the window at `start` is single-byte-encodable.
fn window_is_single_byte(v: &Vec<u8>, start: usize, len: usize) -> (r: bool)
    requires
        start + len <= v@.len(),
    ensures
        r == window_valid(v@, start as int, len as int),
{
    let n = v.len();
    let mut j: usize = 0;
    while j < len
        invariant
            start + len <= n,
            n == v@.len(),
            0 <= j <= len,
            forall|l: int| start <= l < start + j ==> byte_single(#[trigger] v@[l]),
        decreases len - j,
    {
        if v[start + j] >= 128 {
            assert(!byte_single(v@[start as int + j as int]));
            return false;
        }
        j += 1;
    }
    true
}

/// Counts every valid length-`k` window of `sequence`.
///
/// `k == 0` is rejected as `InvalidConfiguration`. Otherwise the call
/// succeeds and returns the frequency table of the sequence: a sequence
/// shorter than `k` yields the empty table; every key has length `k`; the
/// counts sum to the number of valid windows.
pub fn count_kmers(sequence: &Vec<u8>, k: usize) -> (r: Result<FreqTable, KmerError>)
    ensures
        k == 0 <==> r == Err::<FreqTable, KmerError>(KmerError::InvalidConfiguration),
        k > 0 ==> r is Ok,
        r is Ok ==> {
            let t = r->Ok_0;
            &&& t.wf()
            &&& table_matches(t@, sequence@, k as int)
            &&& forall|w: Seq<u8>| #[trigger] t@.contains_key(w) ==> w.len() == k
            &&& t.total() == valid_window_count(sequence@, k as int)
            &&& sequence@.len() < k ==> t@ =~= Map::<Seq<u8>, nat>::empty()
        },
{
    if k == 0 {
        return Err(KmerError::InvalidConfiguration);
    }
    let mut table = FreqTable::new();
    let n = sequence.len();
    if n < k {
        return Ok(table);
    }
    let n_windows = n - k + 1;
    let ghost s = sequence@;
    let mut i: usize = 0;
    while i < n_windows
        invariant
            1 <= k <= n,
            n == s.len(),
            s == sequence@,
            n_windows == n - k + 1,
            0 <= i <= n_windows,
            table.wf(),
            forall|w: Seq<u8>|
                #![trigger table@.contains_key(w)]
                #![trigger prefix_count(s, k as int, w, i as int)]
                table@.contains_key(w) <==> prefix_count(s, k as int, w, i as int) > 0,
            forall|w: Seq<u8>| #[trigger] table@.contains_key(w) ==>
                table@[w] == prefix_count(s, k as int, w, i as int),
            forall|w: Seq<u8>| #[trigger] table@.contains_key(w) ==> w.len() == k,
            forall|w: Seq<u8>| #[trigger] table@.contains_key(w) ==> table@[w] <= i,
            table.total() == valid_prefix_count(s, k as int, i as int),
        decreases n_windows - i,
    {
        let ghost m0 = table@;
        if window_is_single_byte(sequence, i, k) {
            let kmer = copy_range(sequence, i, k);
            proof {
                assert(kmer@ == window_at(s, i as int, k as int));
                assert(window_counted(s, k as int, kmer@, i as int));
                if m0.contains_key(kmer@) {
                    assert(m0[kmer@] <= i < n_windows <= usize::MAX);
                }
            }
            table.increment(kmer);
            proof {
                let ki = kmer@;
                assert forall|w: Seq<u8>| #[trigger] table@.contains_key(w) <==>
                    prefix_count(s, k as int, w, i as int + 1) > 0 by {
                    if w == ki {
                        assert(prefix_count(s, k as int, w, i as int + 1) ==
                            prefix_count(s, k as int, w, i as int) + 1);
                    } else {
                        assert(window_at(s, i as int, k as int) != w);
                        assert(!window_counted(s, k as int, w, i as int));
                        assert(prefix_count(s, k as int, w, i as int + 1) ==
                            prefix_count(s, k as int, w, i as int));
                        assert(table@.contains_key(w) == m0.contains_key(w));
                    }
                }
                assert forall|w: Seq<u8>| #[trigger] table@.contains_key(w) implies
                    table@[w] == prefix_count(s, k as int, w, i as int + 1) &&
                    w.len() == k &&
                    table@[w] <= i + 1 by {
                    if w == ki {
                        assert(ki.len() == k);
                        assert(prefix_count(s, k as int, w, i as int + 1) ==
                            prefix_count(s, k as int, w, i as int) + 1);
                    } else {
                        assert(!window_counted(s, k as int, w, i as int));
                        assert(prefix_count(s, k as int, w, i as int + 1) ==
                            prefix_count(s, k as int, w, i as int));
                        assert(table@[w] == m0[w]);
                    }
                }
                assert(valid_prefix_count(s, k as int, i as int + 1) ==
                    valid_prefix_count(s, k as int, i as int) + 1);
            }
        } else {
            proof {
                assert(!window_valid(s, i as int, k as int));
                assert forall|w: Seq<u8>| prefix_count(s, k as int, w, i as int + 1) ==
                    #[trigger] prefix_count(s, k as int, w, i as int) by {
                    assert(!window_counted(s, k as int, w, i as int));
                }
                assert(valid_prefix_count(s, k as int, i as int + 1) ==
                    valid_prefix_count(s, k as int, i as int));
            }
        }
        i += 1;
    }
    proof {
        assert forall|w: Seq<u8>| #[trigger] kmer_count(s, k as int, w) ==
            prefix_count(s, k as int, w, n_windows as int) by {
            assert(0 < k <= s.len());
        }
    }
    Ok(table)
}

/// A sequence shorter than `k` has an empty frequency table.
pub proof fn lemma_short_sequence_empty(m: Map<Seq<u8>, nat>, s: Seq<u8>, k: int)
    requires
        k > 0,
        s.len() < k,
        table_matches(m, s, k),
    ensures
        m =~= Map::<Seq<u8>, nat>::empty(),
{
    assert forall|w: Seq<u8>| !(#[trigger] m.contains_key(w)) by {
        assert(kmer_count(s, k, w) == 0);
    }
}

/// The frequency table of a sequence is determined by the sequence and `k`
/// alone: two matching tables are equal as maps.
pub proof fn lemma_table_determined(m1: Map<Seq<u8>, nat>, m2: Map<Seq<u8>, nat>, s: Seq<u8>, k: int)
    requires
        table_matches(m1, s, k),
        table_matches(m2, s, k),
    ensures
        m1 =~= m2,
{
    assert forall|w: Seq<u8>| #[trigger] m1.contains_key(w) == m2.contains_key(w) by {
        assert(m1.contains_key(w) <==> kmer_count(s, k, w) > 0);
        assert(m2.contains_key(w) <==> kmer_count(s, k, w) > 0);
    }
    assert forall|w: Seq<u8>| m1.contains_key(w) implies m1[w] == m2[w] by {
        assert(m2.contains_key(w));
    }
}

proof fn lemma_valid_prefix_bound(s: Seq<u8>, k: int, n: int)
    requires
        n >= 0,
    ensures
        valid_prefix_count(s, k, n) <= n,
        (forall|i: int| 0 <= i < n ==> window_valid(s, i, k)) ==> valid_prefix_count(s, k, n) == n,
    decreases n,
{
    if n > 0 {
        lemma_valid_prefix_bound(s, k, n - 1);
    }
}

/// The counts of a frequency table sum to at most `s.len() - k + 1`, with
/// equality when every window of `s` is fully single-byte-encodable.
pub proof fn lemma_total_bounded_by_windows(s: Seq<u8>, k: int)
    requires
        0 < k <= s.len(),
    ensures
        valid_window_count(s, k) <= s.len() - k + 1,
        (forall|i: int| 0 <= i <= s.len() - k ==> window_valid(s, i, k)) ==>
            valid_window_count(s, k) == s.len() - k + 1,
{
    lemma_valid_prefix_bound(s, k, s.len() - k + 1);
}

proof fn lemma_prefix_count_at(s: Seq<u8>, k: int, w: Seq<u8>, n: int, i: int)
    requires
        0 <= i < n,
        window_counted(s, k, w, i),
    ensures
        prefix_count(s, k, w, n) > 0,
    decreases n,
{
    if i < n - 1 {
        lemma_prefix_count_at(s, k, w, n - 1, i);
    }
}

/// A valid window is always counted, whatever the neighbouring windows hold:
/// an invalid window does not stop the scan from continuing past it.
pub proof fn lemma_valid_window_counted(s: Seq<u8>, k: int, i: int)
    requires
        0 < k,
        0 <= i,
        i + k <= s.len(),
        window_valid(s, i, k),
    ensures
        kmer_count(s, k, window_at(s, i, k)) > 0,
{
    lemma_prefix_count_at(s, k, window_at(s, i, k), s.len() - k + 1, i);
}

proof fn lemma_prefix_count_witness(s: Seq<u8>, k: int, w: Seq<u8>, n: int)
    requires
        prefix_count(s, k, w, n) > 0,
    ensures
        exists|i: int| 0 <= i < n && window_counted(s, k, w, i),
    decreases n,
{
    if n > 0 {
        if window_counted(s, k, w, n - 1) {
            assert(0 <= n - 1 < n && window_counted(s, k, w, n - 1));
        } else {
            lemma_prefix_count_witness(s, k, w, n - 1);
        }
    }
}

/// Every counted occurrence comes from a valid window: a window holding a
/// non-single-byte character is excluded from all counts.
pub proof fn lemma_count_only_valid_windows(s: Seq<u8>, k: int, w: Seq<u8>)
    requires
        kmer_count(s, k, w) > 0,
    ensures
        exists|i: int|
            0 <= i <= s.len() - k && window_valid(s, i, k) && window_at(s, i, k) == w,
{
    assert(0 < k <= s.len());
    lemma_prefix_count_witness(s, k, w, s.len() - k + 1);
    let i = choose|i: int| 0 <= i < s.len() - k + 1 && window_counted(s, k, w, i);
    assert(0 <= i <= s.len() - k && window_valid(s, i, k) && window_at(s, i, k) == w);
}

} // verus!
