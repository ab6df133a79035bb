use std::path::PathBuf;

use board_mirror::board::{
    BoardMode, GrpcB3, GrpcB3BoardParams, GRPC_TIMEOUT, MAX_MESSAGE_SIZE, RETRIEVE_ALL_PERIOD,
};
use board_mirror::error::MirrorError;
use board_mirror::model::ConflictPolicy;
use board_mirror::record::{BoardEntry, DigestedMessage, LocalMirrorRecord, RemoteMessage};
use board_mirror::store::LocalMirrorStore;
use board_mirror::sync::{CyclePlan, FetchOutcome, RequestFloor};

fn digested(external_id: i64, payload: &[u8]) -> DigestedMessage {
    let mut content_hash = b"digest of ".to_vec();
    content_hash.extend_from_slice(payload);
    DigestedMessage { external_id, payload: payload.to_vec(), content_hash }
}

#[test]
fn defaults_are_as_documented() {
    assert_eq!(MAX_MESSAGE_SIZE, 1_073_741_824);
    assert_eq!(GRPC_TIMEOUT, 300);
    assert_eq!(RETRIEVE_ALL_PERIOD, 300);
}

#[test]
fn params_make_a_board_with_the_same_settings() {
    let root = PathBuf::from("/var/lib/mirror");
    let params = GrpcB3BoardParams::new("http://[::1]:50051", "default", Some(root.clone()));
    let board = params.get_board();
    assert_eq!(board.url(), "http://[::1]:50051");
    assert_eq!(board.board_name(), "default");
    assert_eq!(board.store_root(), Some(&root));
    assert_eq!(board.mode(), BoardMode::Mirrored);
    assert_eq!(board.step_counter(), 0);
    let again = params.get_board();
    assert_eq!(again.store_root(), Some(&root));
}

#[test]
fn board_without_store_root_is_direct() {
    let board = GrpcB3::new("http://[::1]:50051", "default", None);
    assert_eq!(board.mode(), BoardMode::Direct);
    assert_eq!(board.store_root(), None);
    let board = GrpcBoardParamsWithoutRoot::board();
    assert_eq!(board.mode(), BoardMode::Direct);
}

struct GrpcBoardParamsWithoutRoot;

impl GrpcBoardParamsWithoutRoot {
    fn board() -> GrpcB3 {
        GrpcB3BoardParams::new("http://[::1]:50051", "default", None).get_board()
    }
}

#[test]
fn board_with_store_root_is_mirrored() {
    let board = GrpcB3::new("http://[::1]:50051", "default", Some(PathBuf::from("mirror")));
    assert_eq!(board.mode(), BoardMode::Mirrored);
    assert_eq!(board.store_root(), Some(&PathBuf::from("mirror")));
    assert_eq!(board.url(), "http://[::1]:50051");
    assert_eq!(board.board_name(), "default");
}

#[test]
fn direct_read_asks_after_the_cursor() {
    assert_eq!(GrpcB3::direct_floor(None), RequestFloor::Beginning);
    assert_eq!(GrpcB3::direct_floor(Some(41)), RequestFloor::After(41));
    assert_eq!(GrpcB3::direct_floor(None).last_id(), -1);
    assert_eq!(GrpcB3::direct_floor(Some(41)).last_id(), 41);
    assert_eq!(RequestFloor::After(0).last_id(), 0);
    assert_eq!(RequestFloor::After(i64::MIN).last_id(), i64::MIN);
}

#[test]
fn direct_entries_are_keyed_by_external_id() {
    let fetched = vec![
        RemoteMessage { external_id: 5, payload: b"five".to_vec() },
        RemoteMessage { external_id: 9, payload: b"nine".to_vec() },
    ];
    assert_eq!(
        GrpcB3::direct_entries(&fetched),
        vec![
            BoardEntry { ordering_key: 5, payload: b"five".to_vec() },
            BoardEntry { ordering_key: 9, payload: b"nine".to_vec() },
        ]
    );
    assert_eq!(GrpcB3::direct_entries(&Vec::new()), Vec::<BoardEntry>::new());
}

#[test]
fn mirrored_entries_are_keyed_by_local_id() {
    let records = vec![
        LocalMirrorRecord { local_id: 1, external_id: 9, payload: b"nine".to_vec(), content_hash: b"h9".to_vec() },
        LocalMirrorRecord { local_id: 2, external_id: 5, payload: b"five".to_vec(), content_hash: b"h5".to_vec() },
    ];
    assert_eq!(
        GrpcB3::mirrored_entries(&records),
        vec![
            BoardEntry { ordering_key: 1, payload: b"nine".to_vec() },
            BoardEntry { ordering_key: 2, payload: b"five".to_vec() },
        ]
    );
}

#[test]
fn empty_insert_is_not_forwarded() {
    assert!(!GrpcB3::forwards_insert(0));
    assert!(GrpcB3::forwards_insert(1));
    assert!(GrpcB3::forwards_insert(usize::MAX));
}

#[test]
fn mirrored_read_runs_one_cycle() {
    let mut board = GrpcB3::new("http://[::1]:50051", "default", Some(PathBuf::from("mirror")));
    let mut store = LocalMirrorStore::new();
    let plan = board.begin_sync(&store);
    assert_eq!(plan, CyclePlan { floor: RequestFloor::Beginning, policy: ConflictPolicy::Abort });
    assert_eq!(board.step_counter(), 1);
    let outcome = FetchOutcome::Fetched(vec![digested(5, b"five"), digested(7, b"seven"), digested(9, b"nine")]);
    let entries = GrpcB3::complete_sync(&mut store, plan, &outcome, None).unwrap();
    assert_eq!(
        entries,
        vec![
            BoardEntry { ordering_key: 1, payload: b"five".to_vec() },
            BoardEntry { ordering_key: 2, payload: b"seven".to_vec() },
            BoardEntry { ordering_key: 3, payload: b"nine".to_vec() },
        ]
    );

    let plan = board.begin_sync(&store);
    assert_eq!(plan.floor.last_id(), 9);
    let entries =
        GrpcB3::complete_sync(&mut store, plan, &FetchOutcome::Fetched(Vec::new()), Some(2)).unwrap();
    assert_eq!(entries, vec![BoardEntry { ordering_key: 3, payload: b"nine".to_vec() }]);
    assert_eq!(store.len(), 3);
}

#[test]
fn mirrored_read_reports_failures() {
    let mut board = GrpcB3::new("http://[::1]:50051", "default", Some(PathBuf::from("mirror")));
    let mut store = LocalMirrorStore::new();
    let plan = board.begin_sync(&store);
    assert_eq!(
        GrpcB3::complete_sync(&mut store, plan, &FetchOutcome::Unavailable, None),
        Err(MirrorError::RemoteUnavailable)
    );
    let repeated = FetchOutcome::Fetched(vec![digested(5, b"five"), digested(5, b"again")]);
    assert_eq!(
        GrpcB3::complete_sync(&mut store, plan, &repeated, None),
        Err(MirrorError::IntegrityViolation)
    );
    assert!(store.is_empty());
}

#[test]
fn the_three_hundredth_read_reconciles_in_full() {
    let mut board = GrpcB3::new("http://[::1]:50051", "default", Some(PathBuf::from("mirror")));
    let mut store = LocalMirrorStore::new();
    store.append(&vec![digested(9, b"nine")], ConflictPolicy::Abort).unwrap();
    for _ in 1..300 {
        let plan = board.begin_sync(&store);
        assert_eq!(plan, CyclePlan { floor: RequestFloor::After(9), policy: ConflictPolicy::Abort });
    }
    assert_eq!(board.step_counter(), 299);
    let plan = board.begin_sync(&store);
    assert_eq!(plan, CyclePlan { floor: RequestFloor::Beginning, policy: ConflictPolicy::Skip });
    assert_eq!(board.step_counter(), 300);
    let plan = board.begin_sync(&store);
    assert_eq!(plan, CyclePlan { floor: RequestFloor::After(9), policy: ConflictPolicy::Abort });
}
