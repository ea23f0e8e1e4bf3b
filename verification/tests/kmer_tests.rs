use kmer_counter_per_read::count_kmers;
use kmer_counter_per_read::process_record;
use kmer_counter_per_read::KmerError;

#[test]
fn test_count_kmers() {
    let sequence = "ACGTACGT";
    let k = 3;
    let result = count_kmers(&sequence.as_bytes().to_vec(), k).unwrap();
    assert_eq!(result.len(), 4);
    assert_eq!(result.get(&b"ACG".to_vec()), Some(2));
    assert_eq!(result.get(&b"CGT".to_vec()), Some(2));
    assert_eq!(result.get(&b"GTA".to_vec()), Some(1));
    assert_eq!(result.get(&b"TAC".to_vec()), Some(1));
}

#[test]
fn test_count_kmers_with_non_ascii() {
    let mut sequence: Vec<u8> = b"ACGTACGT".to_vec();
    sequence.extend_from_slice(&[0xC3, 0xB0, 0xC5, 0xB8, 0xCB, 0x9C, 0xC5, 0xA0]);
    let k = 3;
    let result = count_kmers(&sequence, k).unwrap();
    assert_eq!(result.len(), 4);
    assert_eq!(result.get(&b"ACG".to_vec()), Some(2));
    assert_eq!(result.get(&b"CGT".to_vec()), Some(2));
    assert_eq!(result.get(&b"GTA".to_vec()), Some(1));
    assert_eq!(result.get(&b"TAC".to_vec()), Some(1));
}

#[test]
fn test_count_kmers_with_short_sequence() {
    let sequence = "AC";
    let k = 3;
    let result = count_kmers(&sequence.as_bytes().to_vec(), k).unwrap();
    assert_eq!(result.len(), 0);
}

#[test]
fn count_kmers_rejects_k_zero() {
    let result = count_kmers(&b"ACGT".to_vec(), 0);
    assert!(matches!(result, Err(KmerError::InvalidConfiguration)));
}

#[test]
fn count_kmers_empty_sequence_gives_empty_table() {
    let result = count_kmers(&Vec::new(), 5).unwrap();
    assert_eq!(result.len(), 0);
}

#[test]
fn count_kmers_is_deterministic() {
    let sequence = b"GATTACAGATTACA".to_vec();
    let first = count_kmers(&sequence, 4).unwrap();
    let second = count_kmers(&sequence, 4).unwrap();
    assert_eq!(first.len(), second.len());
    for i in 0..first.len() {
        let key = first.key_at(i);
        assert_eq!(first.count_at(i), second.get(&key).unwrap());
    }
}

#[test]
fn count_kmers_sum_equals_window_count_when_all_ascii() {
    // "ACGTACGT" has 8 - 3 + 1 = 6 windows, all single-byte-encodable.
    let result = count_kmers(&b"ACGTACGT".to_vec(), 3).unwrap();
    let mut sum = 0;
    for i in 0..result.len() {
        sum += result.count_at(i);
    }
    assert_eq!(sum, 6);
}

#[test]
fn count_kmers_sum_below_window_count_with_non_ascii() {
    // 16 bytes give 14 windows, but only the 6 inside the ASCII prefix count.
    let mut sequence: Vec<u8> = b"ACGTACGT".to_vec();
    sequence.extend_from_slice(&[0xC3, 0xB0, 0xC5, 0xB8, 0xCB, 0x9C, 0xC5, 0xA0]);
    let result = count_kmers(&sequence, 3).unwrap();
    let mut sum = 0;
    for i in 0..result.len() {
        sum += result.count_at(i);
    }
    assert_eq!(sum, 6);
    assert!(sum < sequence.len() - 3 + 1);
}

#[test]
fn count_kmers_scan_continues_past_invalid_window() {
    // The window holding 0xFF is skipped, but the windows after it count.
    let sequence = vec![b'A', b'C', b'G', 0xFF, b'A', b'C', b'G'];
    let result = count_kmers(&sequence, 3).unwrap();
    assert_eq!(result.len(), 1);
    assert_eq!(result.get(&b"ACG".to_vec()), Some(2));
}

#[test]
fn filter_keeps_entries_at_or_above_threshold() {
    // From {"ACG":2, "CGT":2, "GTA":1, "TAC":1} threshold 2 keeps exactly
    // {"ACG":2, "CGT":2}.
    let table = count_kmers(&b"ACGTACGT".to_vec(), 3).unwrap();
    let filtered = table.filter_by_threshold(2);
    assert_eq!(filtered.len(), 2);
    assert_eq!(filtered.get(&b"ACG".to_vec()), Some(2));
    assert_eq!(filtered.get(&b"CGT".to_vec()), Some(2));
    assert_eq!(filtered.get(&b"GTA".to_vec()), None);
    assert_eq!(filtered.get(&b"TAC".to_vec()), None);
}

#[test]
fn filter_with_zero_threshold_keeps_everything() {
    let table = count_kmers(&b"ACGTACGT".to_vec(), 3).unwrap();
    let filtered = table.filter_by_threshold(0);
    assert_eq!(filtered.len(), 4);
    for i in 0..table.len() {
        let key = table.key_at(i);
        assert_eq!(filtered.get(&key), table.get(&key));
    }
}

#[test]
fn process_record_skips_short_sequence() {
    // No header line is emitted for a record shorter than k.
    let r = process_record(b"read1".to_vec(), &b"AC".to_vec(), 3, 2);
    assert!(matches!(r, Ok(None)));
}

#[test]
fn process_record_reports_thresholded_table() {
    let r = process_record(b"read1".to_vec(), &b"ACGTACGT".to_vec(), 3, 2);
    let report = r.unwrap().unwrap();
    assert_eq!(report.id, b"read1".to_vec());
    assert_eq!(report.table.len(), 2);
    assert_eq!(report.table.get(&b"ACG".to_vec()), Some(2));
    assert_eq!(report.table.get(&b"CGT".to_vec()), Some(2));
    assert_eq!(report.table.get(&b"GTA".to_vec()), None);
    assert_eq!(report.table.get(&b"TAC".to_vec()), None);
}

#[test]
fn process_record_emits_header_when_filter_empties_table() {
    // Every k-mer of "ACGT" occurs once; threshold 5 filters them all out,
    // but the record still yields a report (its header is still printed).
    let r = process_record(b"read2".to_vec(), &b"ACGT".to_vec(), 3, 5);
    let report = r.unwrap().unwrap();
    assert_eq!(report.id, b"read2".to_vec());
    assert_eq!(report.table.len(), 0);
}

#[test]
fn process_record_rejects_k_zero() {
    let r = process_record(b"read3".to_vec(), &b"ACGT".to_vec(), 0, 2);
    assert!(matches!(r, Err(KmerError::InvalidConfiguration)));
    assert!(!matches!(r, Err(KmerError::SourceError)));
}

#[test]
fn table_iteration_order_is_first_insertion() {
    let table = count_kmers(&b"ACGTACGT".to_vec(), 3).unwrap();
    assert_eq!(table.key_at(0), b"ACG".to_vec());
    assert_eq!(table.key_at(1), b"CGT".to_vec());
    assert_eq!(table.key_at(2), b"GTA".to_vec());
    assert_eq!(table.key_at(3), b"TAC".to_vec());
}
