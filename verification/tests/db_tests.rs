use loom_storage::db::FileBasedDB;
use loom_storage::error::StorageError;

#[test]
fn get_file_path_joins_base_and_name() {
    let db = FileBasedDB::init("data/loom");
    assert_eq!(db.get_file_path("users.bin"), "data/loom/users.bin");
    assert_eq!(db.get_file_path("totems.bin"), "data/loom/totems.bin");
}

#[test]
fn fresh_db_reads_empty() {
    let db = FileBasedDB::init("d");
    assert!(db.read_users(10).is_empty());
    assert!(db.read_posts(10).is_empty());
    assert!(db.read_totems(10).is_empty());
}

#[test]
fn users_write_then_read_in_order() {
    let mut db = FileBasedDB::init("d");
    db.write_user(&b"alice".to_vec());
    db.write_user(&b"bob".to_vec());
    let users = db.read_users(10);
    assert_eq!(users, vec![b"alice".to_vec(), b"bob".to_vec()]);
    let limited = db.read_users(1);
    assert_eq!(limited, vec![b"alice".to_vec()]);
}

#[test]
fn entity_logs_are_independent() {
    let mut db = FileBasedDB::init("d");
    db.write_user(&b"user-1".to_vec());
    db.write_post(&b"post-1".to_vec());
    db.write_totem(&b"totem-1".to_vec());
    assert_eq!(db.read_users(10), vec![b"user-1".to_vec()]);
    assert_eq!(db.read_posts(10), vec![b"post-1".to_vec()]);
    assert_eq!(db.read_totems(10), vec![b"totem-1".to_vec()]);
}

#[test]
fn batch_writes_keep_order_per_entity() {
    let mut db = FileBasedDB::init("d");
    db.write_posts(&vec![b"p1".to_vec(), b"p2".to_vec(), b"p3".to_vec()]);
    db.write_totems(&vec![b"t1".to_vec(), b"t2".to_vec()]);
    assert_eq!(db.read_posts(10), vec![b"p1".to_vec(), b"p2".to_vec(), b"p3".to_vec()]);
    assert_eq!(db.read_totems(10), vec![b"t1".to_vec(), b"t2".to_vec()]);
}

#[test]
fn read_match_filters_records() {
    let mut db = FileBasedDB::init("d");
    db.write_users(&vec![b"Online".to_vec(), b"Offline".to_vec(), b"Online".to_vec()]);
    let online = db
        .read_users_match(10, |b: &Vec<u8>| Ok(b.as_slice() == b"Online"))
        .unwrap();
    assert_eq!(online.len(), 2);
    assert!(online.iter().all(|b| b.as_slice() == b"Online"));
}

#[test]
fn read_filter_map_maps_only_matches() {
    let mut db = FileBasedDB::init("d");
    db.write_totems(&vec![b"Location A".to_vec(), b"Location B".to_vec(), b"Location A".to_vec()]);
    let lengths: Vec<usize> = db
        .read_totems_filter_map(
            10,
            |b: &Vec<u8>| Ok(b.as_slice() == b"Location A"),
            |b: Vec<u8>| b.len(),
        )
        .unwrap();
    assert_eq!(lengths, vec![10, 10]);
}

#[test]
fn read_filter_map_propagates_decode_errors() {
    let mut db = FileBasedDB::init("d");
    db.write_post(&b"not-a-record".to_vec());
    let r: Result<Vec<Vec<u8>>, StorageError> = db.read_posts_filter_map(
        10,
        |_b: &Vec<u8>| Err(StorageError::Serialization),
        |b: Vec<u8>| b,
    );
    assert_eq!(r.unwrap_err(), StorageError::Serialization);
}

#[test]
fn read_match_limit_counts_matches_not_frames() {
    let mut db = FileBasedDB::init("d");
    db.write_users(&vec![
        b"skip".to_vec(),
        b"keep-1".to_vec(),
        b"skip".to_vec(),
        b"keep-2".to_vec(),
        b"keep-3".to_vec(),
    ]);
    let kept = db
        .read_users_match(2, |b: &Vec<u8>| Ok(b.starts_with(b"keep")))
        .unwrap();
    assert_eq!(kept, vec![b"keep-1".to_vec(), b"keep-2".to_vec()]);
}
