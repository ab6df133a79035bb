use board_mirror::error::MirrorError;
use board_mirror::model::ConflictPolicy;
use board_mirror::record::{copy_bytes, same_bytes, DigestedMessage, LocalMirrorRecord};
use board_mirror::store::LocalMirrorStore;

fn message(external_id: i64, payload: &[u8], content_hash: &[u8]) -> DigestedMessage {
    DigestedMessage { external_id, payload: payload.to_vec(), content_hash: content_hash.to_vec() }
}

fn record(local_id: i64, external_id: i64, payload: &[u8], content_hash: &[u8]) -> LocalMirrorRecord {
    LocalMirrorRecord {
        local_id,
        external_id,
        payload: payload.to_vec(),
        content_hash: content_hash.to_vec(),
    }
}

fn three_messages() -> Vec<DigestedMessage> {
    vec![message(5, b"five", b"h5"), message(7, b"seven", b"h7"), message(9, b"nine", b"h9")]
}

#[test]
fn new_store_is_empty() {
    let store = LocalMirrorStore::new();
    assert!(store.is_empty());
    assert_eq!(store.len(), 0);
    assert_eq!(store.records(), &Vec::<LocalMirrorRecord>::new());
    assert_eq!(store.last_known_external_id(), None);
    assert_eq!(store.last_local_id(), None);
    assert_eq!(store.read_since(None), Vec::<LocalMirrorRecord>::new());
}

#[test]
fn append_assigns_local_ids_from_one() {
    let mut store = LocalMirrorStore::new();
    assert_eq!(store.append(&three_messages(), ConflictPolicy::Abort), Ok(()));
    assert_eq!(
        store.records(),
        &vec![
            record(1, 5, b"five", b"h5"),
            record(2, 7, b"seven", b"h7"),
            record(3, 9, b"nine", b"h9"),
        ]
    );
    assert_eq!(store.len(), 3);
    assert!(!store.is_empty());
    assert_eq!(store.last_local_id(), Some(3));
}

#[test]
fn append_of_empty_batch_changes_nothing() {
    let mut store = LocalMirrorStore::new();
    assert_eq!(store.append(&Vec::new(), ConflictPolicy::Abort), Ok(()));
    assert_eq!(store.append(&Vec::new(), ConflictPolicy::Skip), Ok(()));
    assert!(store.is_empty());
}

#[test]
fn local_ids_grow_over_successive_appends() {
    let mut store = LocalMirrorStore::new();
    assert_eq!(store.append(&three_messages(), ConflictPolicy::Abort), Ok(()));
    let first = store.records().clone();
    assert_eq!(
        store.append(&vec![message(3, b"three", b"h3"), message(11, b"eleven", b"h11")], ConflictPolicy::Abort),
        Ok(())
    );
    assert_eq!(
        store.append(&vec![message(11, b"eleven", b"h11"), message(12, b"twelve", b"h12")], ConflictPolicy::Skip),
        Ok(())
    );
    let records = store.records();
    assert_eq!(records.len(), 6);
    assert_eq!(&records[..3], &first[..]);
    for k in 0..records.len() - 1 {
        assert!(records[k].local_id < records[k + 1].local_id);
    }
    let local_ids: Vec<i64> = records.iter().map(|r| r.local_id).collect();
    assert_eq!(local_ids, vec![1, 2, 3, 4, 5, 6]);
    let external_ids: Vec<i64> = records.iter().map(|r| r.external_id).collect();
    assert_eq!(external_ids, vec![5, 7, 9, 3, 11, 12]);
}

#[test]
fn read_without_cursor_after_append_returns_the_survivors() {
    let mut store = LocalMirrorStore::new();
    let batch = vec![
        message(5, b"five", b"h5"),
        message(5, b"five again", b"h5b"),
        message(6, b"five", b"h5"),
        message(7, b"seven", b"h7"),
    ];
    assert_eq!(store.append(&batch, ConflictPolicy::Skip), Ok(()));
    assert_eq!(
        store.read_since(None),
        vec![record(1, 5, b"five", b"h5"), record(2, 7, b"seven", b"h7")]
    );
}

#[test]
fn read_without_cursor_returns_earlier_records_too() {
    let mut store = LocalMirrorStore::new();
    assert_eq!(store.append(&vec![message(1, b"one", b"h1")], ConflictPolicy::Abort), Ok(()));
    assert_eq!(store.append(&vec![message(2, b"two", b"h2")], ConflictPolicy::Abort), Ok(()));
    assert_eq!(
        store.read_since(None),
        vec![record(1, 1, b"one", b"h1"), record(2, 2, b"two", b"h2")]
    );
}

#[test]
fn skip_of_a_fully_known_batch_adds_nothing() {
    let mut store = LocalMirrorStore::new();
    assert_eq!(store.append(&three_messages(), ConflictPolicy::Abort), Ok(()));
    let before = store.records().clone();
    assert_eq!(store.append(&three_messages(), ConflictPolicy::Skip), Ok(()));
    assert_eq!(store.records(), &before);
    let known_by_hash_only = vec![message(100, b"five", b"h5"), message(101, b"nine", b"h9")];
    assert_eq!(store.append(&known_by_hash_only, ConflictPolicy::Skip), Ok(()));
    assert_eq!(store.records(), &before);
    assert_eq!(store.last_local_id(), Some(3));
}

#[test]
fn skip_keeps_what_is_new() {
    let mut store = LocalMirrorStore::new();
    assert_eq!(store.append(&three_messages(), ConflictPolicy::Abort), Ok(()));
    let batch = vec![
        message(5, b"five", b"h5"),
        message(6, b"six", b"h6"),
        message(7, b"seven", b"h7"),
        message(8, b"eight", b"h8"),
    ];
    assert_eq!(store.append(&batch, ConflictPolicy::Skip), Ok(()));
    assert_eq!(
        store.read_since(Some(3)),
        vec![record(4, 6, b"six", b"h6"), record(5, 8, b"eight", b"h8")]
    );
}

#[test]
fn abort_on_known_external_id_leaves_the_store_unchanged() {
    let mut store = LocalMirrorStore::new();
    assert_eq!(store.append(&three_messages(), ConflictPolicy::Abort), Ok(()));
    let before = store.records().clone();
    let batch = vec![message(10, b"ten", b"h10"), message(7, b"other", b"other"), message(11, b"eleven", b"h11")];
    assert_eq!(store.append(&batch, ConflictPolicy::Abort), Err(MirrorError::IntegrityViolation));
    assert_eq!(store.records(), &before);
    assert_eq!(store.last_local_id(), Some(3));
    assert_eq!(store.append(&vec![message(10, b"ten", b"h10")], ConflictPolicy::Abort), Ok(()));
    assert_eq!(store.last_local_id(), Some(4));
}

#[test]
fn abort_on_known_content_hash_leaves_the_store_unchanged() {
    let mut store = LocalMirrorStore::new();
    assert_eq!(store.append(&three_messages(), ConflictPolicy::Abort), Ok(()));
    let before = store.records().clone();
    let batch = vec![message(10, b"ten", b"h10"), message(11, b"nine", b"h9")];
    assert_eq!(store.append(&batch, ConflictPolicy::Abort), Err(MirrorError::IntegrityViolation));
    assert_eq!(store.records(), &before);
}

#[test]
fn abort_on_a_repeat_within_the_batch() {
    let mut store = LocalMirrorStore::new();
    let batch = vec![message(1, b"one", b"h1"), message(2, b"two", b"h2"), message(1, b"uno", b"hu")];
    assert_eq!(store.append(&batch, ConflictPolicy::Abort), Err(MirrorError::IntegrityViolation));
    assert!(store.is_empty());
    assert_eq!(store.append(&batch, ConflictPolicy::Skip), Ok(()));
    assert_eq!(store.records(), &vec![record(1, 1, b"one", b"h1"), record(2, 2, b"two", b"h2")]);
}

#[test]
fn knows_by_external_id_or_content_hash() {
    let mut store = LocalMirrorStore::new();
    assert!(!store.knows(&message(5, b"five", b"h5")));
    assert_eq!(store.append(&three_messages(), ConflictPolicy::Abort), Ok(()));
    assert!(store.knows(&message(5, b"x", b"x")));
    assert!(store.knows(&message(100, b"x", b"h9")));
    assert!(!store.knows(&message(100, b"five", b"x")));
}

#[test]
fn read_since_is_strict_and_ordered() {
    let mut store = LocalMirrorStore::new();
    assert_eq!(store.append(&three_messages(), ConflictPolicy::Abort), Ok(()));
    assert_eq!(store.read_since(None).len(), 3);
    assert_eq!(store.read_since(Some(-1)).len(), 3);
    assert_eq!(store.read_since(Some(0)).len(), 3);
    assert_eq!(
        store.read_since(Some(1)),
        vec![record(2, 7, b"seven", b"h7"), record(3, 9, b"nine", b"h9")]
    );
    assert_eq!(store.read_since(Some(2)), vec![record(3, 9, b"nine", b"h9")]);
    assert_eq!(store.read_since(Some(3)), Vec::<LocalMirrorRecord>::new());
    assert_eq!(store.read_since(Some(i64::MAX)), Vec::<LocalMirrorRecord>::new());
    assert_eq!(store.read_since(Some(i64::MIN)).len(), 3);
}

#[test]
fn last_known_external_id_is_the_highest_not_the_latest() {
    let mut store = LocalMirrorStore::new();
    assert_eq!(store.append(&vec![message(9, b"nine", b"h9")], ConflictPolicy::Abort), Ok(()));
    assert_eq!(store.last_known_external_id(), Some(9));
    assert_eq!(store.append(&vec![message(-4, b"minus", b"hm"), message(7, b"seven", b"h7")], ConflictPolicy::Skip), Ok(()));
    assert_eq!(store.last_known_external_id(), Some(9));
    assert_eq!(store.append(&vec![message(12, b"twelve", b"h12")], ConflictPolicy::Abort), Ok(()));
    assert_eq!(store.last_known_external_id(), Some(12));
}

#[test]
fn last_known_external_id_may_be_negative() {
    let mut store = LocalMirrorStore::new();
    assert_eq!(store.append(&vec![message(-8, b"a", b"ha"), message(-3, b"b", b"hb")], ConflictPolicy::Abort), Ok(()));
    assert_eq!(store.last_known_external_id(), Some(-3));
}

#[test]
fn from_records_takes_well_formed_rows() {
    let rows = vec![record(2, 5, b"five", b"h5"), record(3, 4, b"four", b"h4"), record(10, 9, b"nine", b"h9")];
    let mut store = LocalMirrorStore::from_records(rows.clone()).unwrap();
    assert_eq!(store.records(), &rows);
    assert_eq!(store.last_known_external_id(), Some(9));
    assert_eq!(store.last_local_id(), Some(10));
    assert_eq!(store.append(&vec![message(11, b"eleven", b"h11")], ConflictPolicy::Abort), Ok(()));
    assert_eq!(store.read_since(Some(10)), vec![record(11, 11, b"eleven", b"h11")]);
    assert!(LocalMirrorStore::from_records(Vec::new()).unwrap().is_empty());
}

#[test]
fn from_records_refuses_corrupted_rows() {
    let not_positive = vec![record(0, 5, b"five", b"h5")];
    assert_eq!(LocalMirrorStore::from_records(not_positive).err(), Some(MirrorError::StorageError));
    let out_of_order = vec![record(2, 5, b"five", b"h5"), record(1, 6, b"six", b"h6")];
    assert_eq!(LocalMirrorStore::from_records(out_of_order).err(), Some(MirrorError::StorageError));
    let repeated_local_id = vec![record(1, 5, b"five", b"h5"), record(1, 6, b"six", b"h6")];
    assert_eq!(LocalMirrorStore::from_records(repeated_local_id).err(), Some(MirrorError::StorageError));
    let repeated_external_id = vec![record(1, 5, b"five", b"h5"), record(2, 6, b"six", b"h6"), record(3, 5, b"x", b"hx")];
    assert_eq!(LocalMirrorStore::from_records(repeated_external_id).err(), Some(MirrorError::StorageError));
    let repeated_hash = vec![record(1, 5, b"five", b"h5"), record(2, 6, b"six", b"h5")];
    assert_eq!(LocalMirrorStore::from_records(repeated_hash).err(), Some(MirrorError::StorageError));
}

#[test]
fn append_fails_when_local_ids_run_out() {
    let rows = vec![record(i64::MAX - 1, 5, b"five", b"h5")];
    let mut store = LocalMirrorStore::from_records(rows.clone()).unwrap();
    let two = vec![message(6, b"six", b"h6"), message(7, b"seven", b"h7")];
    assert_eq!(store.append(&two, ConflictPolicy::Abort), Err(MirrorError::StorageError));
    assert_eq!(store.records(), &rows);
    assert_eq!(store.append(&two, ConflictPolicy::Skip), Err(MirrorError::StorageError));
    assert_eq!(store.records(), &rows);
    assert_eq!(store.append(&two[..1].to_vec(), ConflictPolicy::Abort), Ok(()));
    assert_eq!(store.last_local_id(), Some(i64::MAX));
    assert_eq!(store.append(&two[1..].to_vec(), ConflictPolicy::Skip), Err(MirrorError::StorageError));
    assert_eq!(store.append(&two[..1].to_vec(), ConflictPolicy::Skip), Ok(()));
    assert_eq!(store.len(), 2);
}

#[test]
fn a_collision_under_abort_comes_before_exhaustion() {
    let rows = vec![record(i64::MAX, 5, b"five", b"h5")];
    let mut store = LocalMirrorStore::from_records(rows.clone()).unwrap();
    let batch = vec![message(6, b"six", b"h6"), message(5, b"five", b"h5")];
    assert_eq!(store.append(&batch, ConflictPolicy::Abort), Err(MirrorError::IntegrityViolation));
    assert_eq!(store.append(&batch, ConflictPolicy::Skip), Err(MirrorError::StorageError));
    assert_eq!(store.records(), &rows);
}

#[test]
fn same_bytes_compares_contents() {
    assert!(same_bytes(&vec![], &vec![]));
    assert!(same_bytes(&vec![1, 2, 3], &vec![1, 2, 3]));
    assert!(!same_bytes(&vec![1, 2, 3], &vec![1, 2]));
    assert!(!same_bytes(&vec![1, 2, 3], &vec![1, 2, 4]));
    assert!(!same_bytes(&vec![], &vec![0]));
}

#[test]
fn copies_are_equal_to_what_they_copy() {
    assert_eq!(copy_bytes(&vec![9, 8, 7]), vec![9, 8, 7]);
    assert_eq!(copy_bytes(&Vec::new()), Vec::<u8>::new());
    let first = record(4, 6, b"six", b"h6");
    assert_eq!(first.duplicate(), first);
}
