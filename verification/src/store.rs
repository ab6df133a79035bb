//! The local mirror store: an append-only log of fetched messages, ordered by
//! identifiers that only the store assigns.

use vstd::prelude::*;

use crate::error::MirrorError;
use crate::model::{
    append_outcome, collides, exhausts_local_ids, holds_key, is_after, is_highest_external_id,
    lemma_offer_all_extends, lemma_offer_all_step, lemma_offer_all_well_formed,
    lemma_push_well_formed, next_local_id, offer_all, since, stored, well_formed, ConflictPolicy,
};
use crate::record::{
    copy_bytes, message_views, record_views, same_bytes, DigestedMessage, LocalMirrorRecord,
    MessageView, RecordView,
};

verus! {

/// An ordered, deduplicated, append-only log of mirrored messages.
///
/// Every store is well formed: local identifiers grow strictly with the
/// position, and no external identifier and no content hash occurs twice.
/// Records are only ever added at the end; none is changed or removed.
pub struct LocalMirrorStore {
    records: Vec<LocalMirrorRecord>,
}

impl View for LocalMirrorStore {
    type V = Seq<RecordView>;

    closed spec fn view(&self) -> Seq<RecordView> {
        record_views(self.records@)
    }
}

/// The store with the chosen messages of the batch added, in order, under
/// consecutive local identifiers.
spec fn staged(store: Seq<RecordView>, batch: Seq<MessageView>, chosen: Seq<usize>) -> Seq<
    RecordView,
> {
    store + Seq::new(
        chosen.len(),
        |j: int| stored(batch[chosen[j] as int], next_local_id(store) + j),
    )
}

/// Whether one of the chosen messages of the batch has the external
/// identifier or the content hash of `m`.
spec fn chosen_collides(batch: Seq<MessageView>, chosen: Seq<usize>, m: MessageView) -> bool {
    exists|j: int|
        0 <= j < chosen.len() && (batch[(#[trigger] chosen[j]) as int].external_id == m.external_id
            || batch[chosen[j] as int].content_hash == m.content_hash)
}

proof fn lemma_staged_next_local_id(
    store: Seq<RecordView>,
    batch: Seq<MessageView>,
    chosen: Seq<usize>,
)
    ensures
        next_local_id(staged(store, batch, chosen)) == next_local_id(store) + chosen.len(),
        staged(store, batch, chosen).len() == store.len() + chosen.len(),
{
    let s = staged(store, batch, chosen);
    if chosen.len() == 0 {
        assert(s =~= store);
    } else {
        assert(s.last() == stored(
            batch[chosen[chosen.len() - 1] as int],
            next_local_id(store) + chosen.len() - 1,
        ));
    }
}

proof fn lemma_staged_collides(
    store: Seq<RecordView>,
    batch: Seq<MessageView>,
    chosen: Seq<usize>,
    m: MessageView,
)
    ensures
        collides(staged(store, batch, chosen), m) <==> collides(store, m) || chosen_collides(
            batch,
            chosen,
            m,
        ),
{
    let s = staged(store, batch, chosen);
    if collides(s, m) {
        let i = choose|i: int|
            0 <= i < s.len() && ((#[trigger] s[i]).external_id == m.external_id
                || s[i].content_hash == m.content_hash);
        if i < store.len() {
            assert(s[i] == store[i]);
        } else {
            let j = i - store.len();
            assert(s[i] == stored(batch[chosen[j] as int], next_local_id(store) + j));
            assert(batch[chosen[j] as int].external_id == m.external_id
                || batch[chosen[j] as int].content_hash == m.content_hash);
        }
    }
    if collides(store, m) {
        let i = choose|i: int|
            0 <= i < store.len() && ((#[trigger] store[i]).external_id == m.external_id
                || store[i].content_hash == m.content_hash);
        assert(s[i] == store[i]);
    }
    if chosen_collides(batch, chosen, m) {
        let j = choose|j: int|
            0 <= j < chosen.len() && (batch[(#[trigger] chosen[j]) as int].external_id
                == m.external_id || batch[chosen[j] as int].content_hash == m.content_hash);
        let i = store.len() + j;
        assert(s[i] == stored(batch[chosen[j] as int], next_local_id(store) + j));
    }
}

proof fn lemma_staged_push(
    store: Seq<RecordView>,
    batch: Seq<MessageView>,
    chosen: Seq<usize>,
    k: usize,
)
    requires
        0 <= k < batch.len(),
    ensures
        staged(store, batch, chosen.push(k)) == staged(store, batch, chosen).push(
            stored(batch[k as int], next_local_id(staged(store, batch, chosen))),
        ),
{
    lemma_staged_next_local_id(store, batch, chosen);
    assert(staged(store, batch, chosen.push(k)) =~= staged(store, batch, chosen).push(
        stored(batch[k as int], next_local_id(store) + chosen.len()),
    ));
}

/// Whether one of the first `n` records has the given external identifier or
/// the given content hash.
fn prefix_holds_key(
    records: &Vec<LocalMirrorRecord>,
    n: usize,
    external_id: i64,
    content_hash: &Vec<u8>,
) -> (held: bool)
    requires
        n <= records.len(),
    ensures
        held == holds_key(record_views(records@).take(n as int), external_id as int, content_hash@),
{
    let ghost all = record_views(records@);
    let mut i: usize = 0;
    while i < n
        invariant
            i <= n <= records.len(),
            all == record_views(records@),
            !holds_key(all.take(i as int), external_id as int, content_hash@),
        decreases n - i,
    {
        let record = &records[i];
        assert(all[i as int] == record@);
        if record.external_id == external_id || same_bytes(&record.content_hash, content_hash) {
            assert(all.take(n as int)[i as int] == record@);
            return true;
        }
        proof {
            let shorter = all.take(i as int);
            let longer = all.take(i + 1);
            if holds_key(longer, external_id as int, content_hash@) {
                let w = choose|w: int|
                    0 <= w < longer.len() && ((#[trigger] longer[w]).external_id == external_id
                        || longer[w].content_hash == content_hash@);
                if w < i {
                    assert(shorter[w] == longer[w]);
                }
            }
        }
        i += 1;
    }
    false
}

/// Whether one of the chosen messages of `batch` has the external identifier
/// or the content hash of `message`.
fn repeats_chosen(batch: &Vec<DigestedMessage>, chosen: &Vec<usize>, message: &DigestedMessage) -> (known:
    bool)
    requires
        forall|j: int| 0 <= j < chosen.len() ==> (#[trigger] chosen[j]) < batch.len(),
    ensures
        known == chosen_collides(message_views(batch@), chosen@, message@),
{
    let ghost offered = message_views(batch@);
    let mut j: usize = 0;
    while j < chosen.len()
        invariant
            j <= chosen.len(),
            offered == message_views(batch@),
            forall|j: int| 0 <= j < chosen.len() ==> (#[trigger] chosen[j]) < batch.len(),
            !chosen_collides(offered, chosen@.take(j as int), message@),
        decreases chosen.len() - j,
    {
        let earlier = &batch[chosen[j]];
        assert(offered[chosen[j as int] as int] == earlier@);
        if earlier.external_id == message.external_id || same_bytes(
            &earlier.content_hash,
            &message.content_hash,
        ) {
            return true;
        }
        proof {
            let shorter = chosen@.take(j as int);
            let longer = chosen@.take(j + 1);
            if chosen_collides(offered, longer, message@) {
                let w = choose|w: int|
                    0 <= w < longer.len() && (offered[(#[trigger] longer[w]) as int].external_id
                        == message@.external_id || offered[longer[w] as int].content_hash
                        == message@.content_hash);
                if w < j {
                    assert(shorter[w] == longer[w]);
                }
            }
        }
        j += 1;
    }
    assert(chosen@.take(j as int) =~= chosen@);
    false
}

impl LocalMirrorStore {
    #[verifier::type_invariant]
    spec fn inv(self) -> bool {
        well_formed(record_views(self.records@))
    }

    /// An empty store.
    pub fn new() -> (store: LocalMirrorStore)
        ensures
            store@ == Seq::<RecordView>::empty(),
    {
        let store = LocalMirrorStore { records: Vec::new() };
        assert(store@ =~= Seq::<RecordView>::empty());
        store
    }

    /// A store that holds the given records, as read back from where they
    /// were persisted. The records are refused as corrupted, with
    /// [`MirrorError::StorageError`], unless they satisfy the invariant of a
    /// mirror.
    pub fn from_records(records: Vec<LocalMirrorRecord>) -> (result: Result<
        LocalMirrorStore,
        MirrorError,
    >)
        ensures
            match result {
                Ok(store) => store@ == record_views(records@) && well_formed(store@),
                Err(e) => e == MirrorError::StorageError && !well_formed(record_views(records@)),
            },
    {
        let ghost all = record_views(records@);
        let mut i: usize = 0;
        assert(well_formed(all.take(0)));
        while i < records.len()
            invariant
                i <= records.len(),
                all == record_views(records@),
                well_formed(all.take(i as int)),
            decreases records.len() - i,
        {
            let record = &records[i];
            assert(all[i as int] == record@);
            if record.local_id < 1 {
                return Err(MirrorError::StorageError);
            }
            if i > 0 && records[i - 1].local_id >= record.local_id {
                assert(all[i - 1] == records@[i - 1]@);
                return Err(MirrorError::StorageError);
            }
            if prefix_holds_key(&records, i, record.external_id, &record.content_hash) {
                proof {
                    let shorter = all.take(i as int);
                    let w = choose|w: int|
                        0 <= w < shorter.len() && ((#[trigger] shorter[w]).external_id
                            == record.external_id || shorter[w].content_hash
                            == record.content_hash@);
                    assert(shorter[w] == all[w]);
                    assert(all[w].external_id == all[i as int].external_id || all[w].content_hash
                        == all[i as int].content_hash);
                }
                return Err(MirrorError::StorageError);
            }
            proof {
                let shorter = all.take(i as int);
                if i > 0 {
                    assert(shorter.last() == all[i - 1]);
                    assert(all[i - 1] == records@[i - 1]@);
                }
                lemma_push_well_formed(shorter, record@);
                assert(all.take(i + 1) =~= shorter.push(record@));
            }
            i += 1;
        }
        assert(all.take(i as int) =~= all);
        Ok(LocalMirrorStore { records })
    }

    /// The number of records held.
    pub fn len(&self) -> (n: usize)
        ensures
            n == self@.len(),
    {
        self.records.len()
    }

    /// Whether the store holds no record.
    pub fn is_empty(&self) -> (empty: bool)
        ensures
            empty == (self@.len() == 0),
    {
        self.records.len() == 0
    }

    /// The records held, in the order of their local identifiers. They
    /// satisfy the invariant of a mirror.
    pub fn records(&self) -> (records: &Vec<LocalMirrorRecord>)
        ensures
            record_views(records@) == self@,
            well_formed(self@),
    {
        proof {
            use_type_invariant(self);
        }
        &self.records
    }

    /// Whether the store already holds the external identifier or the
    /// content hash of `message`.
    pub fn knows(&self, message: &DigestedMessage) -> (known: bool)
        ensures
            known == collides(self@, message@),
    {
        let n = self.records.len();
        assert(self@.take(n as int) =~= self@);
        prefix_holds_key(&self.records, n, message.external_id, &message.content_hash)
    }

    /// The highest external identifier held, or none if the store is empty.
    pub fn last_known_external_id(&self) -> (highest: Option<i64>)
        ensures
            match highest {
                Some(id) => is_highest_external_id(self@, id as int),
                None => self@.len() == 0,
            },
    {
        if self.records.len() == 0 {
            return None;
        }
        let mut highest: i64 = self.records[0].external_id;
        let mut i: usize = 1;
        assert(self@.take(1)[0].external_id == highest);
        while i < self.records.len()
            invariant
                1 <= i <= self.records.len(),
                is_highest_external_id(self@.take(i as int), highest as int),
            decreases self.records.len() - i,
        {
            let ghost before = self@.take(i as int);
            let ghost longer = self@.take(i + 1);
            let candidate = self.records[i].external_id;
            assert(longer[i as int].external_id == candidate);
            proof {
                let w = choose|w: int|
                    0 <= w < before.len() && (#[trigger] before[w]).external_id == highest;
                assert(longer[w] == before[w]);
                assert forall|j: int| 0 <= j < before.len() implies (
                #[trigger] longer[j]).external_id <= highest by {
                    assert(longer[j] == before[j]);
                }
            }
            if candidate > highest {
                highest = candidate;
            }
            i += 1;
        }
        assert(self@.take(i as int) =~= self@);
        Some(highest)
    }

    /// The local identifier of the last record, or none if the store is
    /// empty. Every later record receives a higher one.
    pub fn last_local_id(&self) -> (last: Option<i64>)
        ensures
            match last {
                Some(id) => self@.len() > 0 && self@.last().local_id == id,
                None => self@.len() == 0,
            },
    {
        let n = self.records.len();
        if n == 0 {
            None
        } else {
            assert(self@[n - 1] == self.records@[n - 1]@);
            Some(self.records[n - 1].local_id)
        }
    }

    /// The positions of the messages of `batch` that the store would take,
    /// in ascending order: those that repeat neither a record of the store
    /// nor an earlier message of the batch that it would take.
    fn select_new(&self, batch: &Vec<DigestedMessage>) -> (chosen: Vec<usize>)
        ensures
            staged(self@, message_views(batch@), chosen@) == offer_all(
                self@,
                message_views(batch@),
            ),
            forall|j: int| 0 <= j < chosen.len() ==> (#[trigger] chosen[j]) < batch.len(),
    {
        let ghost store = self@;
        let ghost offered = message_views(batch@);
        let mut chosen: Vec<usize> = Vec::new();
        let mut k: usize = 0;
        assert(offered.take(0) =~= Seq::<MessageView>::empty());
        assert(staged(store, offered, chosen@) =~= store);
        while k < batch.len()
            invariant
                k <= batch.len(),
                store == self@,
                offered == message_views(batch@),
                staged(store, offered, chosen@) == offer_all(store, offered.take(k as int)),
                forall|j: int| 0 <= j < chosen.len() ==> (#[trigger] chosen[j]) < k,
            decreases batch.len() - k,
        {
            let message = &batch[k];
            assert(offered[k as int] == message@);
            let known = self.knows(message) || repeats_chosen(batch, &chosen, message);
            proof {
                lemma_staged_collides(store, offered, chosen@, message@);
                lemma_offer_all_step(store, offered, k as int);
                if !known {
                    lemma_staged_push(store, offered, chosen@, k);
                }
            }
            if !known {
                chosen.push(k);
            }
            k += 1;
        }
        assert(offered.take(k as int) =~= offered);
        chosen
    }

    /// Adds the messages of `batch` that the store does not know yet, in
    /// order, each under the next local identifier. Either the whole batch
    /// is applied or nothing is.
    ///
    /// Under [`ConflictPolicy::Abort`] a known message makes the call fail
    /// with [`MirrorError::IntegrityViolation`]; under
    /// [`ConflictPolicy::Skip`] known messages are left out silently. The
    /// call fails with [`MirrorError::StorageError`] if no local identifier
    /// is left for a message that has to be stored. On failure the store is
    /// unchanged.
    pub fn append(&mut self, batch: &Vec<DigestedMessage>, policy: ConflictPolicy) -> (result:
        Result<(), MirrorError>)
        ensures
            match result {
                Ok(()) => append_outcome(old(self)@, message_views(batch@), policy) == Ok::<
                    Seq<RecordView>,
                    MirrorError,
                >(final(self)@),
                Err(e) => append_outcome(old(self)@, message_views(batch@), policy) == Err::<
                    Seq<RecordView>,
                    MirrorError,
                >(e) && final(self)@ == old(self)@,
            },
    {
        let ghost store = self@;
        let ghost offered = message_views(batch@);
        proof {
            use_type_invariant(&*self);
            lemma_offer_all_extends(store, offered);
            lemma_offer_all_well_formed(store, offered);
        }
        let chosen = self.select_new(batch);
        proof {
            lemma_staged_next_local_id(store, offered, chosen@);
        }
        if policy == ConflictPolicy::Abort && chosen.len() < batch.len() {
            return Err(MirrorError::IntegrityViolation);
        }
        let last: i64 = match self.last_local_id() {
            Some(id) => id,
            None => 0,
        };
        assert(last >= 0) by {
            if store.len() > 0 {
                assert(store[store.len() - 1].local_id >= 1);
            }
        }
        assert(next_local_id(store) == last + 1);
        let room: u64 = (i64::MAX - last) as u64;
        if chosen.len() > 0 && chosen.len() as u64 > room {
            assert(exhausts_local_ids(store, offered));
            return Err(MirrorError::StorageError);
        }
        assert(!exhausts_local_ids(store, offered));
        let mut records: Vec<LocalMirrorRecord> = Vec::new();
        std::mem::swap(&mut self.records, &mut records);
        let mut j: usize = 0;
        assert(chosen@.take(0) =~= Seq::<usize>::empty());
        assert(staged(store, offered, chosen@.take(0)) =~= store);
        while j < chosen.len()
            invariant
                j <= chosen.len(),
                chosen.len() <= room,
                room == i64::MAX - last,
                last >= 0,
                next_local_id(store) == last + 1,
                offered == message_views(batch@),
                forall|i: int| 0 <= i < chosen.len() ==> (#[trigger] chosen[i]) < batch.len(),
                record_views(records@) == staged(store, offered, chosen@.take(j as int)),
            decreases chosen.len() - j,
        {
            let message = &batch[chosen[j]];
            assert(offered[chosen[j as int] as int] == message@);
            let record = LocalMirrorRecord {
                local_id: last + 1 + j as i64,
                external_id: message.external_id,
                payload: copy_bytes(&message.payload),
                content_hash: copy_bytes(&message.content_hash),
            };
            proof {
                let shorter = chosen@.take(j as int);
                assert(chosen@.take(j + 1) =~= shorter.push(chosen[j as int]));
                lemma_staged_push(store, offered, shorter, chosen[j as int]);
                lemma_staged_next_local_id(store, offered, shorter);
                assert(record@ == stored(offered[chosen[j as int] as int], last + 1 + j));
                assert(record_views(records@.push(record)) =~= record_views(records@).push(
                    record@,
                ));
            }
            records.push(record);
            j += 1;
        }
        assert(chosen@.take(j as int) =~= chosen@);
        self.records = records;
        Ok(())
    }

    /// The records whose local identifier is strictly greater than the
    /// cursor, or all records if there is no cursor, in ascending order of
    /// their local identifiers.
    pub fn read_since(&self, cursor: Option<i64>) -> (records: Vec<LocalMirrorRecord>)
        ensures
            record_views(records@) == since(self@, cursor),
    {
        let ghost wanted = |r: RecordView| is_after(r, cursor);
        let mut out: Vec<LocalMirrorRecord> = Vec::new();
        let mut i: usize = 0;
        assert(self@.take(0) =~= Seq::<RecordView>::empty());
        assert(record_views(out@) =~= self@.take(0).filter(wanted)) by {
            reveal(Seq::filter);
        }
        while i < self.records.len()
            invariant
                i <= self.records.len(),
                wanted == |r: RecordView| is_after(r, cursor),
                record_views(out@) == self@.take(i as int).filter(wanted),
            decreases self.records.len() - i,
        {
            let record = &self.records[i];
            let keep = match cursor {
                Some(c) => record.local_id > c,
                None => true,
            };
            proof {
                assert(self@[i as int] == record@);
                assert(self@.take(i + 1) =~= self@.take(i as int).push(record@));
                self@.take(i as int).lemma_filter_push(record@, wanted);
                assert(keep == wanted(record@));
            }
            if keep {
                let copy = record.duplicate();
                assert(record_views(out@.push(copy)) =~= record_views(out@).push(copy@));
                out.push(copy);
            }
            i += 1;
        }
        assert(self@.take(i as int) =~= self@);
        out
    }
}

} // verus!
