//! The board as its users see it: one way to read and write, over a remote
//! board that is either asked directly or mirrored locally.
//!
//! The types here hold what a board is configured with and decide what a
//! read or a write comes to. The calls to the remote board and to the disk
//! are the caller's.

use std::path::PathBuf;
use vstd::prelude::*;

use crate::error::MirrorError;
use crate::model::{append_outcome, since};
use crate::record::{
    copy_bytes, entry_views, message_views, record_views, remote_views, BoardEntry, EntryView,
    LocalMirrorRecord, RecordView, RemoteMessage, RemoteMessageView,
};
use crate::store::LocalMirrorStore;
use crate::sync::{is_plan_of, CyclePlan, FetchOutcome, RequestFloor, SyncEngine};

verus! {

/// The largest message, in bytes, that is accepted from the remote board.
pub const MAX_MESSAGE_SIZE: usize = 1024 * 1024 * 1024;

/// The time, in seconds, after which a request to the remote board is given
/// up.
pub const GRPC_TIMEOUT: u64 = 5 * 60;

/// The number of cycles from one full reconciliation of a mirror to the
/// next.
pub const RETRIEVE_ALL_PERIOD: u64 = 5 * 60;

/// A path of the file system, carried as it is given.
#[verifier::external_type_specification]
#[verifier::external_body]
pub struct ExPathBuf(PathBuf);

/// `PathBuf::clone` of the standard library: the copy is the same path.
#[verifier::external_body]
fn clone_path(path: &PathBuf) -> (copy: PathBuf)
    ensures
        copy == *path,
{
    path.clone()
}

/// How a board is read.
#[derive(Clone, Copy, Debug, PartialEq, Eq, Structural)]
pub enum BoardMode {
    /// Every read asks the remote board; the ordering key of a message is
    /// its external identifier.
    Direct,
    /// Reads go through a local mirror; the ordering key of a message is
    /// the local identifier of its record.
    Mirrored,
}

/// What a board is made from.
pub struct GrpcB3BoardParams {
    url: String,
    board_name: String,
    store_root: Option<PathBuf>,
}

/// Mathematical value of a [`GrpcB3BoardParams`].
pub ghost struct BoardParamsView {
    pub url: Seq<char>,
    pub board_name: Seq<char>,
    pub store_root: Option<PathBuf>,
}

/// A board: where it is, what it is called, where its mirror lives if it has
/// one, and the engine that synchronizes the mirror.
pub struct GrpcB3 {
    url: String,
    board_name: String,
    store_root: Option<PathBuf>,
    engine: SyncEngine,
}

/// Mathematical value of a [`GrpcB3`].
pub ghost struct BoardView {
    pub url: Seq<char>,
    pub board_name: Seq<char>,
    pub store_root: Option<PathBuf>,
    /// The number of synchronization cycles begun.
    pub cycles: nat,
    /// The number of cycles from one reset cycle to the next.
    pub period: nat,
}

/// The mode of a board with the given store root: mirrored exactly if there
/// is one.
pub open spec fn mode_of(store_root: Option<PathBuf>) -> BoardMode {
    if store_root is Some {
        BoardMode::Mirrored
    } else {
        BoardMode::Direct
    }
}

/// The entry under which a message fetched from the remote board is handed
/// to a reader in direct mode.
pub open spec fn direct_entry(message: RemoteMessageView) -> EntryView {
    EntryView { ordering_key: message.external_id, payload: message.payload }
}

/// The entry under which a record of the mirror is handed to a reader.
pub open spec fn mirrored_entry(record: RecordView) -> EntryView {
    EntryView { ordering_key: record.local_id, payload: record.payload }
}

impl View for GrpcB3BoardParams {
    type V = BoardParamsView;

    closed spec fn view(&self) -> BoardParamsView {
        BoardParamsView {
            url: self.url@,
            board_name: self.board_name@,
            store_root: self.store_root,
        }
    }
}

impl View for GrpcB3 {
    type V = BoardView;

    closed spec fn view(&self) -> BoardView {
        BoardView {
            url: self.url@,
            board_name: self.board_name@,
            store_root: self.store_root,
            cycles: self.engine.cycles(),
            period: self.engine.period(),
        }
    }
}

impl GrpcB3BoardParams {
    /// The parameters of the board `board_name` at `url`, mirrored under
    /// `store_root` if one is given.
    pub fn new(url: &str, board_name: &str, store_root: Option<PathBuf>) -> (params:
        GrpcB3BoardParams)
        ensures
            params@ == (BoardParamsView { url: url@, board_name: board_name@, store_root }),
    {
        GrpcB3BoardParams { url: url.to_owned(), board_name: board_name.to_owned(), store_root }
    }

    /// A board with these parameters that has begun no cycle yet.
    pub fn get_board(&self) -> (board: GrpcB3)
        ensures
            board@ == (BoardView {
                url: self@.url,
                board_name: self@.board_name,
                store_root: self@.store_root,
                cycles: 0,
                period: RETRIEVE_ALL_PERIOD as nat,
            }),
    {
        let store_root = match &self.store_root {
            Some(root) => Some(clone_path(root)),
            None => None,
        };
        GrpcB3::new(self.url.as_str(), self.board_name.as_str(), store_root)
    }
}

impl GrpcB3 {
    /// The board `board_name` at `url`, mirrored under `store_root` if one is
    /// given. It has begun no cycle yet, and every
    /// [`RETRIEVE_ALL_PERIOD`]-th cycle of it is a reset cycle.
    pub fn new(url: &str, board_name: &str, store_root: Option<PathBuf>) -> (board: GrpcB3)
        ensures
            board@ == (BoardView {
                url: url@,
                board_name: board_name@,
                store_root,
                cycles: 0,
                period: RETRIEVE_ALL_PERIOD as nat,
            }),
    {
        GrpcB3 {
            url: url.to_owned(),
            board_name: board_name.to_owned(),
            store_root,
            engine: SyncEngine::new(RETRIEVE_ALL_PERIOD),
        }
    }

    /// Where the remote board is.
    pub fn url(&self) -> (url: &str)
        ensures
            url@ == self@.url,
    {
        self.url.as_str()
    }

    /// The name of the board.
    pub fn board_name(&self) -> (name: &str)
        ensures
            name@ == self@.board_name,
    {
        self.board_name.as_str()
    }

    /// The directory under which the mirror of the board lives, if it is
    /// mirrored.
    pub fn store_root(&self) -> (root: Option<&PathBuf>)
        ensures
            match root {
                Some(path) => self@.store_root == Some(*path),
                None => self@.store_root is None,
            },
    {
        self.store_root.as_ref()
    }

    /// The number of synchronization cycles begun.
    pub fn step_counter(&self) -> (count: u64)
        ensures
            count == self@.cycles,
    {
        self.engine.step_counter()
    }

    /// How the board is read: through a mirror exactly if it has a store
    /// root.
    pub fn mode(&self) -> (mode: BoardMode)
        ensures
            mode == mode_of(self@.store_root),
    {
        if self.store_root.is_some() {
            BoardMode::Mirrored
        } else {
            BoardMode::Direct
        }
    }

    /// Begins a read through the mirror: begins a synchronization cycle over
    /// `store` and says what to fetch and how to append it.
    pub fn begin_sync(&mut self, store: &LocalMirrorStore) -> (plan: CyclePlan)
        requires
            old(self)@.cycles < u64::MAX,
        ensures
            final(self)@ == (BoardView { cycles: old(self)@.cycles + 1, ..old(self)@ }),
            is_plan_of(plan, final(self)@.cycles, final(self)@.period, store@),
    {
        self.engine.begin_cycle(store)
    }

    /// Completes a read through the mirror with what the fetch brought: the
    /// synchronization cycle is completed, and the records after `cursor`
    /// are handed out as entries keyed by their local identifiers.
    pub fn complete_sync(
        store: &mut LocalMirrorStore,
        plan: CyclePlan,
        outcome: &FetchOutcome,
        cursor: Option<i64>,
    ) -> (result: Result<Vec<BoardEntry>, MirrorError>)
        ensures
            match *outcome {
                FetchOutcome::Unavailable => {
                    &&& result == Err::<Vec<BoardEntry>, MirrorError>(
                        MirrorError::RemoteUnavailable,
                    )
                    &&& final(store)@ == old(store)@
                },
                FetchOutcome::Fetched(messages) => match append_outcome(
                    old(store)@,
                    message_views(messages@),
                    plan.policy,
                ) {
                    Ok(after) => {
                        &&& final(store)@ == after
                        &&& result is Ok
                        &&& entry_views(result->Ok_0@) == since(after, cursor).map_values(
                            |r: RecordView| mirrored_entry(r),
                        )
                    },
                    Err(e) => {
                        &&& final(store)@ == old(store)@
                        &&& result == Err::<Vec<BoardEntry>, MirrorError>(e)
                    },
                },
            },
    {
        match SyncEngine::complete_cycle(store, plan, outcome, cursor) {
            Ok(records) => Ok(Self::mirrored_entries(&records)),
            Err(e) => Err(e),
        }
    }

    /// The entries for the given records of the mirror, in order: each keeps
    /// its payload and is keyed by its local identifier.
    pub fn mirrored_entries(records: &Vec<LocalMirrorRecord>) -> (entries: Vec<BoardEntry>)
        ensures
            entry_views(entries@) == record_views(records@).map_values(
                |r: RecordView| mirrored_entry(r),
            ),
    {
        let mut entries: Vec<BoardEntry> = Vec::new();
        let mut i: usize = 0;
        while i < records.len()
            invariant
                i <= records.len(),
                entries.len() == i,
                forall|j: int| 0 <= j < i ==> (#[trigger] entries[j])@ == mirrored_entry(records[j]@),
            decreases records.len() - i,
        {
            let record = &records[i];
            entries.push(
                BoardEntry { ordering_key: record.local_id, payload: copy_bytes(&record.payload) },
            );
            i += 1;
        }
        assert(entry_views(entries@) =~= record_views(records@).map_values(
            |r: RecordView| mirrored_entry(r),
        ));
        entries
    }

    /// The floor of a direct read: what lies after the cursor, or everything
    /// if there is no cursor.
    pub fn direct_floor(cursor: Option<i64>) -> (floor: RequestFloor)
        ensures
            floor == match cursor {
                Some(id) => RequestFloor::After(id),
                None => RequestFloor::Beginning,
            },
    {
        match cursor {
            Some(id) => RequestFloor::After(id),
            None => RequestFloor::Beginning,
        }
    }

    /// The entries for the messages that a direct read fetched, in order:
    /// each keeps its payload and is keyed by its external identifier.
    pub fn direct_entries(fetched: &Vec<RemoteMessage>) -> (entries: Vec<BoardEntry>)
        ensures
            entry_views(entries@) == remote_views(fetched@).map_values(
                |m: RemoteMessageView| direct_entry(m),
            ),
    {
        let mut entries: Vec<BoardEntry> = Vec::new();
        let mut i: usize = 0;
        while i < fetched.len()
            invariant
                i <= fetched.len(),
                entries.len() == i,
                forall|j: int| 0 <= j < i ==> (#[trigger] entries[j])@ == direct_entry(fetched[j]@),
            decreases fetched.len() - i,
        {
            let message = &fetched[i];
            entries.push(
                BoardEntry {
                    ordering_key: message.external_id,
                    payload: copy_bytes(&message.payload),
                },
            );
            i += 1;
        }
        assert(entry_views(entries@) =~= remote_views(fetched@).map_values(
            |m: RemoteMessageView| direct_entry(m),
        ));
        entries
    }

    /// Whether a batch of `batch_len` messages to insert is sent to the
    /// remote board: an empty batch is not.
    pub fn forwards_insert(batch_len: usize) -> (forward: bool)
        ensures
            forward == (batch_len > 0),
    {
        batch_len > 0
    }
}

impl RequestFloor {
    /// The value that stands for this floor in a request to the remote
    /// board, which answers with the messages whose identifier is strictly
    /// greater: -1 asks for all of them.
    pub fn last_id(&self) -> (id: i64)
        ensures
            id == match *self {
                RequestFloor::After(floor) => floor as int,
                RequestFloor::Beginning => -1,
            },
    {
        match self {
            RequestFloor::After(floor) => *floor,
            RequestFloor::Beginning => -1,
        }
    }
}

} // verus!
