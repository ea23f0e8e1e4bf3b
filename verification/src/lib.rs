//! Per-record k-mer counting.
//!
//! The library counts, for a single sequence of bytes, every length-`k`
//! window whose bytes all lie in the single-byte (ASCII) range, and filters
//! the resulting frequency table by a minimum-count threshold.

use vstd::prelude::*;

mod bytes;
mod table;
mod counter;
mod stream;

pub use bytes::bytes_eq;
pub use bytes::copy_range;
pub use table::FreqTable;
pub use table::pairs_to_map;
pub use table::unique_keys;
pub use table::sum_counts;
pub use table::filter_pairs;
pub use counter::count_kmers;
pub use counter::byte_single;
pub use counter::window_at;
pub use counter::window_valid;
pub use counter::window_counted;
pub use counter::prefix_count;
pub use counter::kmer_count;
pub use counter::valid_prefix_count;
pub use counter::valid_window_count;
pub use counter::table_matches;
pub use counter::lemma_short_sequence_empty;
pub use counter::lemma_table_determined;
pub use counter::lemma_total_bounded_by_windows;
pub use counter::lemma_valid_window_counted;
pub use counter::lemma_count_only_valid_windows;
pub use stream::RecordReport;
pub use stream::report_matches;
pub use stream::process_record;

verus! {

/// The error kinds a run can end with.
///
/// `InvalidConfiguration` reports a caller-supplied parameter that violates
/// its constraint (such as `k == 0`). `SourceError` stands for a failure of
/// the record source (open, read or decompression); the surrounding program
/// constructs it when the source fails.
#[derive(Clone, Copy, Debug, PartialEq, Eq, Structural)]
pub enum KmerError {
    InvalidConfiguration,
    SourceError,
}

} // verus!
