use loom_storage::error::StorageError;
use loom_storage::log::{encode_frame, RecordLog};

fn accept_all(_b: &Vec<u8>) -> Result<bool, StorageError> {
    Ok(true)
}

#[test]
fn encode_frame_lays_out_length_then_payload() {
    let payload = b"abc".to_vec();
    let frame = encode_frame(&payload);
    assert_eq!(frame, vec![3, 0, 0, 0, b'a', b'b', b'c']);
    let empty = encode_frame(&Vec::new());
    assert_eq!(empty, vec![0, 0, 0, 0]);
    // a length above 255 uses the second little-endian byte
    let long = encode_frame(&vec![7u8; 300]);
    assert_eq!(&long[..4], &[44, 1, 0, 0]);
    assert_eq!(long.len(), 304);
}

#[test]
fn append_then_scan_returns_records_in_insertion_order() {
    let mut log = RecordLog::new();
    log.append(&b"first".to_vec());
    log.append(&b"second".to_vec());
    log.append(&b"third".to_vec());
    let records = log.scan_all(usize::MAX);
    assert_eq!(records, vec![b"first".to_vec(), b"second".to_vec(), b"third".to_vec()]);
}

#[test]
fn batch_append_keeps_order() {
    let mut log = RecordLog::new();
    log.append_batch(&vec![b"u1".to_vec(), b"u2".to_vec()]);
    let records = log.scan_all(10);
    assert_eq!(records, vec![b"u1".to_vec(), b"u2".to_vec()]);
}

#[test]
fn scan_respects_limit() {
    let mut log = RecordLog::new();
    for i in 0..5u8 {
        log.append(&vec![i]);
    }
    let records = log.scan_all(3);
    assert_eq!(records, vec![vec![0], vec![1], vec![2]]);
    let matching = log
        .scan_match(2, |b: &Vec<u8>| Ok(b[0] % 2 == 0))
        .unwrap();
    assert_eq!(matching, vec![vec![0], vec![2]]);
}

#[test]
fn scan_with_predicate_matching_nothing_is_empty_and_ok() {
    let mut log = RecordLog::new();
    log.append(&b"a".to_vec());
    log.append(&b"b".to_vec());
    let r = log.scan_match(10, |_b: &Vec<u8>| Ok(false)).unwrap();
    assert!(r.is_empty());
}

#[test]
fn scan_on_empty_log_is_empty() {
    let log = RecordLog::new();
    assert!(log.scan_all(10).is_empty());
}

#[test]
fn truncated_trailing_frame_yields_prior_frames_without_error() {
    let mut bytes = Vec::new();
    bytes.extend_from_slice(&encode_frame(&b"complete".to_vec()));
    // a valid length prefix promising 100 bytes, followed by only 3
    bytes.extend_from_slice(&[100, 0, 0, 0, 1, 2, 3]);
    let log = RecordLog::from_bytes(bytes);
    let records = log.scan_all(10);
    assert_eq!(records, vec![b"complete".to_vec()]);
}

#[test]
fn short_length_prefix_ends_scan() {
    let mut bytes = encode_frame(&b"x".to_vec());
    bytes.extend_from_slice(&[5, 0]);
    let log = RecordLog::from_bytes(bytes);
    assert_eq!(log.scan_all(10), vec![b"x".to_vec()]);
}

#[test]
fn filter_error_aborts_scan() {
    let mut log = RecordLog::new();
    log.append(&b"good".to_vec());
    log.append(&b"bad".to_vec());
    let r = log.scan_match(10, |b: &Vec<u8>| {
        if b.as_slice() == b"bad" {
            Err(StorageError::Serialization)
        } else {
            Ok(true)
        }
    });
    assert_eq!(r.unwrap_err(), StorageError::Serialization);
}

#[test]
fn scan_filters_then_maps_only_matches() {
    let mut log = RecordLog::new();
    log.append(&b"Offline".to_vec());
    log.append(&b"Online".to_vec());
    log.append(&b"Away".to_vec());
    let mapped: Vec<usize> = log
        .scan(10, |b: &Vec<u8>| Ok(b.as_slice() == b"Online"), |b: Vec<u8>| b.len())
        .unwrap();
    assert_eq!(mapped, vec![6]);
}

#[test]
fn scan_map_receives_matching_payloads_in_order() {
    let mut log = RecordLog::new();
    log.append(&vec![1]);
    log.append(&vec![2]);
    log.append(&vec![3]);
    log.append(&vec![4]);
    let doubled: Vec<u8> = log
        .scan(10, |b: &Vec<u8>| Ok(b[0] % 2 == 1), |b: Vec<u8>| b[0] * 2)
        .unwrap();
    assert_eq!(doubled, vec![2, 6]);
}

#[test]
fn log_bytes_round_trip_through_from_bytes() {
    let mut log = RecordLog::new();
    log.append(&b"persist me".to_vec());
    let saved = log.as_bytes().clone();
    assert_eq!(log.byte_len(), saved.len());
    let reloaded = RecordLog::from_bytes(saved);
    assert_eq!(reloaded.scan_all(10), vec![b"persist me".to_vec()]);
}

#[test]
fn scan_accepts_function_pointers() {
    let mut log = RecordLog::new();
    log.append(&b"only".to_vec());
    let r = log.scan_match(1, accept_all).unwrap();
    assert_eq!(r, vec![b"only".to_vec()]);
}
