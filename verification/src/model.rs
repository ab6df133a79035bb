//! The mirror as a mathematical object: a sequence of records in the order
//! in which they were committed, and what offering a batch does to it.

use vstd::prelude::*;

use crate::error::MirrorError;
use crate::record::{MessageView, RecordView};

verus! {

/// What to do with a message whose external identifier or content hash the
/// store already holds.
#[derive(Clone, Copy, Debug, PartialEq, Eq, Structural)]
pub enum ConflictPolicy {
    /// Refuse the whole batch and leave the store as it was.
    Abort,
    /// Leave the known message out and go on with the rest.
    Skip,
}

/// Whether `seen` holds a record with the given external identifier or the
/// given content hash.
pub open spec fn holds_key(seen: Seq<RecordView>, external_id: int, content_hash: Seq<u8>) -> bool {
    exists|i: int|
        0 <= i < seen.len() && ((#[trigger] seen[i]).external_id == external_id
            || seen[i].content_hash == content_hash)
}

/// Whether `seen` already holds a record with the external identifier or the
/// content hash of `m`.
pub open spec fn collides(seen: Seq<RecordView>, m: MessageView) -> bool {
    holds_key(seen, m.external_id, m.content_hash)
}

/// The local identifier that the next committed record receives: one more
/// than the last one handed out, starting from 1.
pub open spec fn next_local_id(store: Seq<RecordView>) -> int {
    if store.len() == 0 {
        1
    } else {
        store.last().local_id + 1
    }
}

/// The record under which `m` is stored with the given local identifier.
pub open spec fn stored(m: MessageView, local_id: int) -> RecordView {
    RecordView {
        local_id,
        external_id: m.external_id,
        payload: m.payload,
        content_hash: m.content_hash,
    }
}

/// The store after one message was offered: unchanged if the message is
/// known, else one record longer.
pub open spec fn offer(store: Seq<RecordView>, m: MessageView) -> Seq<RecordView> {
    if collides(store, m) {
        store
    } else {
        store.push(stored(m, next_local_id(store)))
    }
}

/// The store after the messages of `batch` were offered one by one, in order.
/// A message also counts as known if an earlier message of the same batch
/// brought its external identifier or content hash.
pub open spec fn offer_all(store: Seq<RecordView>, batch: Seq<MessageView>) -> Seq<RecordView>
    decreases batch.len(),
{
    if batch.len() == 0 {
        store
    } else {
        offer(offer_all(store, batch.drop_last()), batch.last())
    }
}

/// The records that `batch` adds to `store`, in the order of commitment.
pub open spec fn survivors(store: Seq<RecordView>, batch: Seq<MessageView>) -> Seq<RecordView> {
    offer_all(store, batch).skip(store.len() as int)
}

/// Whether some message of `batch` is left out when the batch is offered to
/// `store`: fewer records are added than messages were offered.
pub open spec fn has_collision(store: Seq<RecordView>, batch: Seq<MessageView>) -> bool {
    offer_all(store, batch).len() < store.len() + batch.len()
}

/// Whether `batch` would add a record for which no local identifier is left.
pub open spec fn exhausts_local_ids(store: Seq<RecordView>, batch: Seq<MessageView>) -> bool {
    let after = offer_all(store, batch);
    after.len() > store.len() && after.last().local_id > i64::MAX
}

/// The invariant of a mirror: local identifiers start at 1 or above and grow
/// strictly with the position, and no external identifier and no content
/// hash occurs twice.
pub open spec fn well_formed(store: Seq<RecordView>) -> bool {
    &&& forall|i: int| 0 <= i < store.len() ==> (#[trigger] store[i]).local_id >= 1
    &&& forall|i: int, j: int|
        0 <= i < j < store.len() ==> (#[trigger] store[i]).local_id < (#[trigger] store[j]).local_id
    &&& forall|i: int, j: int|
        0 <= i < j < store.len() ==> (#[trigger] store[i]).external_id != (
        #[trigger] store[j]).external_id
    &&& forall|i: int, j: int|
        0 <= i < j < store.len() ==> (#[trigger] store[i]).content_hash != (
        #[trigger] store[j]).content_hash
}

/// What appending `batch` under `policy` comes to: the new contents, or the
/// reason for which nothing is written.
///
/// Under `Abort` a collision anywhere in the batch is an integrity
/// violation. Otherwise the batch is refused only if it needs a local
/// identifier beyond the largest one there is.
pub open spec fn append_outcome(
    store: Seq<RecordView>,
    batch: Seq<MessageView>,
    policy: ConflictPolicy,
) -> Result<Seq<RecordView>, MirrorError> {
    if policy == ConflictPolicy::Abort && has_collision(store, batch) {
        Err(MirrorError::IntegrityViolation)
    } else if exhausts_local_ids(store, batch) {
        Err(MirrorError::StorageError)
    } else {
        Ok(offer_all(store, batch))
    }
}

/// The contents after a call of append: the new contents if it succeeds, the
/// old ones if it fails.
pub open spec fn after_append(
    store: Seq<RecordView>,
    batch: Seq<MessageView>,
    policy: ConflictPolicy,
) -> Seq<RecordView> {
    match append_outcome(store, batch, policy) {
        Ok(after) => after,
        Err(_) => store,
    }
}

/// Whether a record lies strictly after the cursor; without a cursor every
/// record does.
pub open spec fn is_after(record: RecordView, cursor: Option<i64>) -> bool {
    match cursor {
        Some(c) => record.local_id > c,
        None => true,
    }
}

/// The records strictly after the cursor, in stored order.
pub open spec fn since(store: Seq<RecordView>, cursor: Option<i64>) -> Seq<RecordView> {
    store.filter(|r: RecordView| is_after(r, cursor))
}

/// Whether `id` is the highest external identifier in `store`.
pub open spec fn is_highest_external_id(store: Seq<RecordView>, id: int) -> bool {
    &&& exists|i: int| 0 <= i < store.len() && (#[trigger] store[i]).external_id == id
    &&& forall|i: int| 0 <= i < store.len() ==> (#[trigger] store[i]).external_id <= id
}

/// Offering one more message after a prefix of the batch.
pub proof fn lemma_offer_all_step(store: Seq<RecordView>, batch: Seq<MessageView>, k: int)
    requires
        0 <= k < batch.len(),
    ensures
        offer_all(store, batch.take(k + 1)) == offer(offer_all(store, batch.take(k)), batch[k]),
{
    let longer = batch.take(k + 1);
    assert(longer.drop_last() =~= batch.take(k));
    assert(longer.last() == batch[k]);
}

/// Offering a batch never removes or changes a record, and adds at most one
/// record per message.
pub proof fn lemma_offer_all_extends(store: Seq<RecordView>, batch: Seq<MessageView>)
    ensures
        store.len() <= offer_all(store, batch).len() <= store.len() + batch.len(),
        offer_all(store, batch).take(store.len() as int) == store,
    decreases batch.len(),
{
    if batch.len() == 0 {
        assert(store.take(store.len() as int) =~= store);
    } else {
        lemma_offer_all_extends(store, batch.drop_last());
        let before = offer_all(store, batch.drop_last());
        let after = offer(before, batch.last());
        assert(after.take(store.len() as int) =~= before.take(store.len() as int));
    }
}

/// A well-formed store stays so when a record is added at its end whose
/// local identifier is positive and above the last one, and whose external
/// identifier and content hash are new.
pub proof fn lemma_push_well_formed(store: Seq<RecordView>, record: RecordView)
    requires
        well_formed(store),
        record.local_id >= 1,
        store.len() > 0 ==> store.last().local_id < record.local_id,
        !holds_key(store, record.external_id, record.content_hash),
    ensures
        well_formed(store.push(record)),
{
    let after = store.push(record);
    assert forall|i: int| 0 <= i < after.len() implies (#[trigger] after[i]).local_id >= 1 by {
        if i < store.len() {
            assert(after[i] == store[i]);
        }
    }
    assert forall|i: int, j: int| 0 <= i < j < after.len() implies (#[trigger] after[i]).local_id
        < (#[trigger] after[j]).local_id by {
        assert(after[i] == store[i]);
        if j < store.len() {
            assert(after[j] == store[j]);
        } else if i < store.len() - 1 {
            assert(store[i].local_id < store[store.len() - 1].local_id);
        }
    }
    assert forall|i: int, j: int| 0 <= i < j < after.len() implies (
    #[trigger] after[i]).external_id != (#[trigger] after[j]).external_id by {
        assert(after[i] == store[i]);
        if j < store.len() {
            assert(after[j] == store[j]);
        }
    }
    assert forall|i: int, j: int| 0 <= i < j < after.len() implies (
    #[trigger] after[i]).content_hash != (#[trigger] after[j]).content_hash by {
        assert(after[i] == store[i]);
        if j < store.len() {
            assert(after[j] == store[j]);
        }
    }
}

/// A store that is well formed stays so when a message is offered.
pub proof fn lemma_offer_well_formed(store: Seq<RecordView>, m: MessageView)
    requires
        well_formed(store),
    ensures
        well_formed(offer(store, m)),
{
    if !collides(store, m) {
        if store.len() > 0 {
            assert(store[store.len() - 1].local_id >= 1);
        }
        lemma_push_well_formed(store, stored(m, next_local_id(store)));
    }
}

/// A store that is well formed stays so when a batch is offered.
pub proof fn lemma_offer_all_well_formed(store: Seq<RecordView>, batch: Seq<MessageView>)
    requires
        well_formed(store),
    ensures
        well_formed(offer_all(store, batch)),
    decreases batch.len(),
{
    if batch.len() > 0 {
        lemma_offer_all_well_formed(store, batch.drop_last());
        lemma_offer_well_formed(offer_all(store, batch.drop_last()), batch.last());
    }
}

/// What is known to a store is known to every store that extends it.
pub proof fn lemma_collides_in_extension(
    store: Seq<RecordView>,
    longer: Seq<RecordView>,
    m: MessageView,
)
    requires
        store.len() <= longer.len(),
        longer.take(store.len() as int) == store,
        collides(store, m),
    ensures
        collides(longer, m),
{
    let i = choose|i: int|
        0 <= i < store.len() && ((#[trigger] store[i]).external_id == m.external_id
            || store[i].content_hash == m.content_hash);
    assert(longer.take(store.len() as int)[i] == longer[i]);
    assert(longer[i].external_id == m.external_id || longer[i].content_hash == m.content_hash);
}

} // verus!
