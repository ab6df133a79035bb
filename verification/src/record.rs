//! The values that flow through the mirror, and their mathematical views.

use vstd::prelude::*;

verus! {

/// A message as the remote board hands it out.
#[derive(Clone, Debug, PartialEq, Eq)]
pub struct RemoteMessage {
    /// Ordering key assigned by the remote board. It grows with each message
    /// of a board, but may skip values and need not start at zero.
    pub external_id: i64,
    /// Opaque content.
    pub payload: Vec<u8>,
}

/// A fetched message together with the digest of its payload, ready to be
/// offered to the local store.
#[derive(Clone, Debug, PartialEq, Eq)]
pub struct DigestedMessage {
    /// Ordering key assigned by the remote board.
    pub external_id: i64,
    /// Opaque content.
    pub payload: Vec<u8>,
    /// Digest of `payload`, computed by whoever fetched the message.
    pub content_hash: Vec<u8>,
}

/// One stored row of the mirror.
#[derive(Clone, Debug, PartialEq, Eq)]
pub struct LocalMirrorRecord {
    /// Key assigned by the local store on insertion. This is the only order
    /// a reader should trust: the remote party has no influence on it.
    pub local_id: i64,
    /// The external identifier of the message that this record mirrors.
    pub external_id: i64,
    /// Opaque content, never changed after insertion.
    pub payload: Vec<u8>,
    /// Digest of `payload`.
    pub content_hash: Vec<u8>,
}

/// A message as returned to a reader of the board: content and the key by
/// which the reader asks for what comes after it.
#[derive(Clone, Debug, PartialEq, Eq)]
pub struct BoardEntry {
    /// The key to pass as cursor to read what follows this entry.
    pub ordering_key: i64,
    /// Opaque content, to be decoded by the reader.
    pub payload: Vec<u8>,
}

/// Mathematical value of a [`RemoteMessage`].
pub ghost struct RemoteMessageView {
    pub external_id: int,
    pub payload: Seq<u8>,
}

/// Mathematical value of a [`DigestedMessage`].
pub ghost struct MessageView {
    pub external_id: int,
    pub payload: Seq<u8>,
    pub content_hash: Seq<u8>,
}

/// Mathematical value of a [`LocalMirrorRecord`].
pub ghost struct RecordView {
    pub local_id: int,
    pub external_id: int,
    pub payload: Seq<u8>,
    pub content_hash: Seq<u8>,
}

/// Mathematical value of a [`BoardEntry`].
pub ghost struct EntryView {
    pub ordering_key: int,
    pub payload: Seq<u8>,
}

impl View for RemoteMessage {
    type V = RemoteMessageView;

    open spec fn view(&self) -> RemoteMessageView {
        RemoteMessageView { external_id: self.external_id as int, payload: self.payload@ }
    }
}

impl View for DigestedMessage {
    type V = MessageView;

    open spec fn view(&self) -> MessageView {
        MessageView {
            external_id: self.external_id as int,
            payload: self.payload@,
            content_hash: self.content_hash@,
        }
    }
}

impl View for LocalMirrorRecord {
    type V = RecordView;

    open spec fn view(&self) -> RecordView {
        RecordView {
            local_id: self.local_id as int,
            external_id: self.external_id as int,
            payload: self.payload@,
            content_hash: self.content_hash@,
        }
    }
}

impl View for BoardEntry {
    type V = EntryView;

    open spec fn view(&self) -> EntryView {
        EntryView { ordering_key: self.ordering_key as int, payload: self.payload@ }
    }
}

/// The views of a sequence of digested messages, in order.
pub open spec fn message_views(batch: Seq<DigestedMessage>) -> Seq<MessageView> {
    batch.map_values(|m: DigestedMessage| m@)
}

/// The views of a sequence of records, in order.
pub open spec fn record_views(records: Seq<LocalMirrorRecord>) -> Seq<RecordView> {
    records.map_values(|r: LocalMirrorRecord| r@)
}

/// The views of a sequence of remote messages, in order.
pub open spec fn remote_views(messages: Seq<RemoteMessage>) -> Seq<RemoteMessageView> {
    messages.map_values(|m: RemoteMessage| m@)
}

/// The views of a sequence of board entries, in order.
pub open spec fn entry_views(entries: Seq<BoardEntry>) -> Seq<EntryView> {
    entries.map_values(|e: BoardEntry| e@)
}

/// Whether two byte strings hold the same bytes.
pub fn same_bytes(left: &Vec<u8>, right: &Vec<u8>) -> (same: bool)
    ensures
        same == (left@ == right@),
{
    if left.len() != right.len() {
        return false;
    }
    let mut i: usize = 0;
    while i < left.len()
        invariant
            left.len() == right.len(),
            i <= left.len(),
            forall|j: int| 0 <= j < i ==> left@[j] == right@[j],
        decreases left.len() - i,
    {
        if left[i] != right[i] {
            return false;
        }
        i += 1;
    }
    assert(left@ =~= right@);
    true
}

/// A fresh copy of a byte string.
pub fn copy_bytes(bytes: &Vec<u8>) -> (copy: Vec<u8>)
    ensures
        copy@ == bytes@,
{
    let copy = bytes.clone();
    assert(copy@ =~= bytes@);
    copy
}

impl LocalMirrorRecord {
    /// A fresh copy of this record.
    pub fn duplicate(&self) -> (copy: LocalMirrorRecord)
        ensures
            copy@ == self@,
    {
        LocalMirrorRecord {
            local_id: self.local_id,
            external_id: self.external_id,
            payload: copy_bytes(&self.payload),
            content_hash: copy_bytes(&self.content_hash),
        }
    }
}

} // verus!
