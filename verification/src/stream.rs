//! The per-record step of the stream processor.
//!
//! The record source (file opening, decompression, record iteration) and the
//! output sink live outside the library; they hand each record's identifier
//! and case-normalized sequence bytes to `process_record` and print the
//! report it returns.

use vstd::prelude::*;
use crate::KmerError;
use crate::counter::count_kmers;
use crate::counter::kmer_count;
use crate::table::FreqTable;

verus! {

/// The output section for one processed record: its identifier and the
/// k-mers that survived the threshold filter, in table iteration order.
/// A record whose filtered table is empty still yields a report (its header
/// is printed with no detail lines).
pub struct RecordReport {
    pub id: Vec<u8>,
    pub table: FreqTable,
}

/// Whether `m` is the thresholded frequency table of `s`: it holds exactly
/// the k-mers of `s` whose occurrence count reaches `threshold`, each with
/// its full (unfiltered) count.
pub open spec fn report_matches(m: Map<Seq<u8>, nat>, s: Seq<u8>, k: int, threshold: nat) -> bool {
    &&& forall|w: Seq<u8>|
        #![trigger m.contains_key(w)]
        #![trigger kmer_count(s, k, w)]
        m.contains_key(w) <==> (kmer_count(s, k, w) > 0 && kmer_count(s, k, w) >= threshold)
    &&& forall|w: Seq<u8>| #[trigger] m.contains_key(w) ==> m[w] == kmer_count(s, k, w)
}

/// One step of the stream processor, on a record whose sequence the source
/// has already normalized to upper case.
///
/// `k == 0` fails fast as `InvalidConfiguration`. A record whose sequence is
/// shorter than `k` is skipped entirely (`Ok(None)`: no header line). Any
/// other record yields a report — even one whose filtered table is empty —
/// holding exactly the k-mers whose count reaches `threshold`.
pub fn process_record(id: Vec<u8>, sequence: &Vec<u8>, k: usize, threshold: usize) -> (r: Result<
    Option<RecordReport>,
    KmerError,
>)
    ensures
        k == 0 <==> r == Err::<Option<RecordReport>, KmerError>(KmerError::InvalidConfiguration),
        k > 0 && sequence@.len() < k ==> r == Ok::<Option<RecordReport>, KmerError>(None),
        k > 0 && sequence@.len() >= k ==> (r matches Ok(o) && o matches Some(rep) && {
            &&& rep.id@ == id@
            &&& rep.table.wf()
            &&& report_matches(rep.table@, sequence@, k as int, threshold as nat)
            &&& forall|w: Seq<u8>| #[trigger] rep.table@.contains_key(w) ==> w.len() == k
        }),
{
    if k == 0 {
        return Err(KmerError::InvalidConfiguration);
    }
    if sequence.len() < k {
        return Ok(None);
    }
    let counted = match count_kmers(sequence, k) {
        Ok(t) => t,
        Err(_) => {
            proof {
                assert(false);
            }
            vstd::pervasive::unreached()
        },
    };
    let filtered = counted.filter_by_threshold(threshold);
    proof {
        let s = sequence@;
        assert forall|w: Seq<u8>| #[trigger] filtered@.contains_key(w) <==>
            (kmer_count(s, k as int, w) > 0 && kmer_count(s, k as int, w) >= threshold) by {
            assert(counted@.contains_key(w) <==> kmer_count(s, k as int, w) > 0);
            if counted@.contains_key(w) {
                assert(counted@[w] == kmer_count(s, k as int, w));
            }
        }
        assert forall|w: Seq<u8>| #[trigger] filtered@.contains_key(w) implies
            filtered@[w] == kmer_count(s, k as int, w) && w.len() == k by {
            assert(counted@.contains_key(w));
            assert(filtered@[w] == counted@[w]);
        }
    }
    Ok(Some(RecordReport { id, table: filtered }))
}

} // verus!
