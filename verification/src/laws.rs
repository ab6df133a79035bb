//! What holds of every mirror, stated over its mathematical model and proved
//! from the definitions.

use vstd::prelude::*;

use crate::error::MirrorError;
use crate::model::{
    after_append, append_outcome, collides, exhausts_local_ids, has_collision, is_after,
    lemma_collides_in_extension, lemma_offer_all_extends, lemma_offer_all_step,
    lemma_offer_all_well_formed, offer, offer_all, since, survivors, well_formed, ConflictPolicy,
};
use crate::record::{MessageView, RecordView};

verus! {

/// One call of append as a value: the batch offered and the policy chosen.
pub ghost struct AppendCall {
    pub batch: Seq<MessageView>,
    pub policy: ConflictPolicy,
}

/// The contents after a series of calls of append, made in order, each of
/// which may have succeeded or failed.
pub open spec fn after_appends(store: Seq<RecordView>, calls: Seq<AppendCall>) -> Seq<RecordView>
    decreases calls.len(),
{
    if calls.len() == 0 {
        store
    } else {
        after_append(
            after_appends(store, calls.drop_last()),
            calls.last().batch,
            calls.last().policy,
        )
    }
}

/// Offering a batch in two parts, one after the other, comes to the same as
/// offering it whole.
pub proof fn lemma_offer_all_in_parts(store: Seq<RecordView>, batch: Seq<MessageView>, n: int)
    requires
        0 <= n <= batch.len(),
    ensures
        offer_all(store, batch) == offer_all(offer_all(store, batch.take(n)), batch.skip(n)),
    decreases batch.len(),
{
    if n == batch.len() {
        assert(batch.take(n) =~= batch);
        assert(batch.skip(n) =~= Seq::<MessageView>::empty());
    } else {
        let front = batch.drop_last();
        lemma_offer_all_in_parts(store, front, n);
        assert(front.take(n) =~= batch.take(n));
        assert(front.skip(n) =~= batch.skip(n).drop_last());
        assert(batch.skip(n).last() == batch.last());
    }
}

/// Whether the message at position `k` of the batch is already known when
/// its turn comes: to the store, or through an earlier message of the batch.
pub open spec fn known_at_its_turn(store: Seq<RecordView>, batch: Seq<MessageView>, k: int) -> bool {
    collides(offer_all(store, batch.take(k)), batch[k])
}

/// A batch has a collision exactly if one of its messages is already known
/// when its turn comes.
pub proof fn lemma_collision_is_a_known_message(store: Seq<RecordView>, batch: Seq<MessageView>)
    ensures
        has_collision(store, batch) <==> exists|k: int|
            0 <= k < batch.len() && #[trigger] known_at_its_turn(store, batch, k),
    decreases batch.len(),
{
    if batch.len() > 0 {
        let front = batch.drop_last();
        let k_last = batch.len() - 1;
        lemma_collision_is_a_known_message(store, front);
        lemma_offer_all_extends(store, front);
        assert(batch.take(k_last) =~= front);
        if has_collision(store, batch) {
            if has_collision(store, front) {
                let k = choose|k: int|
                    0 <= k < front.len() && #[trigger] known_at_its_turn(store, front, k);
                assert(front.take(k) =~= batch.take(k));
                assert(known_at_its_turn(store, batch, k));
            } else {
                assert(known_at_its_turn(store, batch, k_last));
            }
        }
        if exists|k: int| 0 <= k < batch.len() && #[trigger] known_at_its_turn(store, batch, k) {
            let k = choose|k: int|
                0 <= k < batch.len() && #[trigger] known_at_its_turn(store, batch, k);
            if k < k_last {
                assert(front.take(k) =~= batch.take(k));
                assert(known_at_its_turn(store, front, k));
            }
        }
    }
}

/// A message that the store knows makes a collision, wherever in the batch
/// it stands.
pub proof fn lemma_known_message_is_a_collision(
    store: Seq<RecordView>,
    batch: Seq<MessageView>,
    k: int,
)
    requires
        0 <= k < batch.len(),
        collides(store, batch[k]),
    ensures
        has_collision(store, batch),
{
    let before = offer_all(store, batch.take(k));
    lemma_offer_all_extends(store, batch.take(k));
    lemma_collides_in_extension(store, before, batch[k]);
    assert(known_at_its_turn(store, batch, k));
    lemma_collision_is_a_known_message(store, batch);
}

/// Appending never disturbs what is committed. Whatever the batch and the
/// policy, and whether the call succeeds or fails, the store is well formed
/// afterwards, so that an earlier record has the smaller local identifier,
/// and every record that was there before is still there, unchanged and at
/// its place.
pub proof fn lemma_append_keeps_committed_records(
    store: Seq<RecordView>,
    batch: Seq<MessageView>,
    policy: ConflictPolicy,
)
    requires
        well_formed(store),
    ensures
        well_formed(after_append(store, batch, policy)),
        forall|i: int, j: int|
            0 <= i < j < after_append(store, batch, policy).len() ==> (#[trigger] after_append(
                store,
                batch,
                policy,
            )[i]).local_id < (#[trigger] after_append(store, batch, policy)[j]).local_id,
        store.len() <= after_append(store, batch, policy).len(),
        forall|i: int|
            0 <= i < store.len() ==> #[trigger] after_append(store, batch, policy)[i] == store[i],
{
    let after = after_append(store, batch, policy);
    lemma_offer_all_extends(store, batch);
    lemma_offer_all_well_formed(store, batch);
    assert forall|i: int| 0 <= i < store.len() implies #[trigger] after[i] == store[i] by {
        if append_outcome(store, batch, policy) is Ok {
            assert(offer_all(store, batch).take(store.len() as int)[i] == offer_all(
                store,
                batch,
            )[i]);
        }
    }
}

/// The same holds of any series of calls of append: local identifiers grow
/// strictly along the store, and no call reorders, changes or removes a
/// record that an earlier call committed.
pub proof fn lemma_appends_keep_committed_records(store: Seq<RecordView>, calls: Seq<AppendCall>)
    requires
        well_formed(store),
    ensures
        well_formed(after_appends(store, calls)),
        forall|i: int, j: int|
            0 <= i < j < after_appends(store, calls).len() ==> (#[trigger] after_appends(
                store,
                calls,
            )[i]).local_id < (#[trigger] after_appends(store, calls)[j]).local_id,
        store.len() <= after_appends(store, calls).len(),
        forall|i: int| 0 <= i < store.len() ==> #[trigger] after_appends(store, calls)[i] == store[i],
    decreases calls.len(),
{
    if calls.len() > 0 {
        let before = after_appends(store, calls.drop_last());
        lemma_appends_keep_committed_records(store, calls.drop_last());
        lemma_append_keeps_committed_records(before, calls.last().batch, calls.last().policy);
        let after = after_appends(store, calls);
        assert forall|i: int| 0 <= i < store.len() implies #[trigger] after[i] == store[i] by {
            assert(after[i] == before[i]);
        }
    }
}

/// Reading without a cursor returns the whole store.
pub proof fn lemma_since_none_is_everything(store: Seq<RecordView>)
    ensures
        since(store, None) == store,
    decreases store.len(),
{
    let all = |r: RecordView| is_after(r, None);
    reveal(Seq::filter);
    if store.len() > 0 {
        lemma_since_none_is_everything(store.drop_last());
        assert(store.drop_last().filter(all).push(store.last()) =~= store);
    }
}

/// After a successful append, reading without a cursor returns the records
/// held before, followed by the survivors of the batch in the order in which
/// they were committed. On a store that was empty it returns exactly the
/// survivors.
pub proof fn lemma_read_after_append(
    store: Seq<RecordView>,
    batch: Seq<MessageView>,
    policy: ConflictPolicy,
)
    requires
        append_outcome(store, batch, policy) is Ok,
    ensures
        since(after_append(store, batch, policy), None) == store + survivors(store, batch),
        store.len() == 0 ==> since(after_append(store, batch, policy), None) == survivors(
            store,
            batch,
        ),
{
    let after = after_append(store, batch, policy);
    lemma_since_none_is_everything(after);
    lemma_offer_all_extends(store, batch);
    assert(after =~= after.take(store.len() as int) + after.skip(store.len() as int));
    if store.len() == 0 {
        assert(store + survivors(store, batch) =~= survivors(store, batch));
    }
}

/// After the batch was offered, the store knows every message of it: each
/// was either stored or was known already.
pub proof fn lemma_offered_messages_are_known(
    store: Seq<RecordView>,
    batch: Seq<MessageView>,
    k: int,
)
    requires
        0 <= k < batch.len(),
    ensures
        collides(offer_all(store, batch), batch[k]),
{
    let upto = offer_all(store, batch.take(k));
    let with_k = offer_all(store, batch.take(k + 1));
    lemma_offer_all_step(store, batch, k);
    if !collides(upto, batch[k]) {
        assert(with_k.last().external_id == batch[k].external_id);
    }
    assert(collides(with_k, batch[k]));
    lemma_offer_all_in_parts(store, batch, k + 1);
    lemma_offer_all_extends(with_k, batch.skip(k + 1));
    lemma_collides_in_extension(with_k, offer_all(store, batch), batch[k]);
}

/// Every survivor is a message of the batch that the store did not know,
/// stored as it came.
pub proof fn lemma_survivors_come_from_the_batch(
    store: Seq<RecordView>,
    batch: Seq<MessageView>,
    j: int,
)
    requires
        0 <= j < survivors(store, batch).len(),
    ensures
        exists|k: int|
            0 <= k < batch.len() && !collides(store, #[trigger] batch[k]) && survivors(
                store,
                batch,
            )[j].external_id == batch[k].external_id && survivors(store, batch)[j].payload
                == batch[k].payload && survivors(store, batch)[j].content_hash
                == batch[k].content_hash,
    decreases batch.len(),
{
    lemma_offer_all_extends(store, batch);
    if batch.len() > 0 {
        let front = batch.drop_last();
        let before = offer_all(store, front);
        lemma_offer_all_extends(store, front);
        if j < survivors(store, front).len() {
            lemma_survivors_come_from_the_batch(store, front, j);
            let k = choose|k: int|
                0 <= k < front.len() && !collides(store, #[trigger] front[k]) && survivors(
                    store,
                    front,
                )[j].external_id == front[k].external_id && survivors(store, front)[j].payload
                    == front[k].payload && survivors(store, front)[j].content_hash
                    == front[k].content_hash;
            assert(batch[k] == front[k]);
            assert(survivors(store, batch)[j] == survivors(store, front)[j]);
        } else {
            let k = batch.len() - 1;
            assert(!collides(before, batch[k]));
            if collides(store, batch[k]) {
                lemma_collides_in_extension(store, before, batch[k]);
            }
            assert(survivors(store, batch)[j] == offer(before, batch[k]).last());
        }
    }
}

/// A batch of which the store knows every message adds no record under the
/// skip policy, and raises no error.
pub proof fn lemma_known_batch_adds_nothing(store: Seq<RecordView>, batch: Seq<MessageView>)
    requires
        forall|k: int| 0 <= k < batch.len() ==> collides(store, #[trigger] batch[k]),
    ensures
        offer_all(store, batch) == store,
        append_outcome(store, batch, ConflictPolicy::Skip) == Ok::<Seq<RecordView>, MirrorError>(
            store,
        ),
    decreases batch.len(),
{
    if batch.len() > 0 {
        let front = batch.drop_last();
        assert forall|k: int| 0 <= k < front.len() implies collides(store, #[trigger] front[k]) by {
            assert(front[k] == batch[k]);
        }
        lemma_known_batch_adds_nothing(store, front);
        assert(collides(store, batch[batch.len() - 1]));
    }
    assert(!exhausts_local_ids(store, batch));
}

/// Under the abort policy a batch that holds a message which the store
/// knows, be it by its external identifier or by its content hash, is
/// refused as an integrity violation, and the store stays as it was.
pub proof fn lemma_abort_refuses_known_message(
    store: Seq<RecordView>,
    batch: Seq<MessageView>,
    k: int,
)
    requires
        0 <= k < batch.len(),
        collides(store, batch[k]),
    ensures
        append_outcome(store, batch, ConflictPolicy::Abort) == Err::<Seq<RecordView>, MirrorError>(
            MirrorError::IntegrityViolation,
        ),
        after_append(store, batch, ConflictPolicy::Abort) == store,
{
    lemma_known_message_is_a_collision(store, batch, k);
}

} // verus!
