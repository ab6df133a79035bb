//! The synchronization engine: what one fetch-and-persist cycle asks of the
//! remote board, and what it does with the answer.
//!
//! A cycle has two steps with the fetch in between. [`SyncEngine::begin_cycle`]
//! counts the cycle and says from where to fetch and how to treat known
//! messages; the caller fetches; [`SyncEngine::complete_cycle`] persists what
//! came and reads the store for the caller.

use vstd::prelude::*;

use crate::error::MirrorError;
use crate::model::{append_outcome, is_highest_external_id, since, ConflictPolicy};
use crate::record::{
    message_views, record_views, DigestedMessage, LocalMirrorRecord, MessageView, RecordView,
};
use crate::store::LocalMirrorStore;

verus! {

/// From where the remote board is asked for messages.
#[derive(Clone, Copy, Debug, PartialEq, Eq, Structural)]
pub enum RequestFloor {
    /// From its first message.
    Beginning,
    /// Only messages whose external identifier is strictly greater.
    After(i64),
}

/// What one cycle asks for: the floor of the fetch, and the policy under
/// which the fetched messages are appended.
#[derive(Clone, Copy, Debug, PartialEq, Eq, Structural)]
pub struct CyclePlan {
    pub floor: RequestFloor,
    pub policy: ConflictPolicy,
}

/// How the fetch of a cycle ended.
#[derive(Clone, Debug, PartialEq, Eq)]
pub enum FetchOutcome {
    /// The remote board answered with these messages, in ascending order of
    /// their external identifiers; there may be none.
    Fetched(Vec<DigestedMessage>),
    /// The remote board could not be reached, or did not answer in time.
    Unavailable,
}

/// Whether the cycle with the given number, counted from 1, is a reset
/// cycle: one that fetches the whole history again.
pub open spec fn is_reset_cycle(cycle: nat, period: nat) -> bool {
    period > 0 && cycle % period == 0
}

/// The plan of a reset cycle: everything is fetched, and what is known is
/// skipped.
pub open spec fn reset_plan() -> CyclePlan {
    CyclePlan { floor: RequestFloor::Beginning, policy: ConflictPolicy::Skip }
}

/// Whether `plan` is the plan of the cycle with the given number over the
/// given store. A reset cycle has the reset plan. Any other cycle is
/// incremental: it fetches what lies above the highest external identifier
/// in the store, or everything if the store is empty, and takes a known
/// message for an anomaly.
pub open spec fn is_plan_of(plan: CyclePlan, cycle: nat, period: nat, store: Seq<RecordView>) -> bool {
    if is_reset_cycle(cycle, period) {
        plan == reset_plan()
    } else {
        &&& plan.policy == ConflictPolicy::Abort
        &&& match plan.floor {
            RequestFloor::Beginning => store.len() == 0,
            RequestFloor::After(id) => is_highest_external_id(store, id as int),
        }
    }
}

/// Drives the cycles of one mirror and counts them.
pub struct SyncEngine {
    step_counter: u64,
    resync_period: u64,
}

impl SyncEngine {
    #[verifier::type_invariant]
    spec fn inv(self) -> bool {
        self.resync_period > 0
    }

    /// The number of cycles begun since the engine was made.
    pub closed spec fn cycles(&self) -> nat {
        self.step_counter as nat
    }

    /// The number of cycles from one reset cycle to the next.
    pub closed spec fn period(&self) -> nat {
        self.resync_period as nat
    }

    /// An engine that has begun no cycle yet and makes every
    /// `resync_period`-th cycle a reset cycle.
    pub fn new(resync_period: u64) -> (engine: SyncEngine)
        requires
            resync_period > 0,
        ensures
            engine.cycles() == 0,
            engine.period() == resync_period,
    {
        SyncEngine { step_counter: 0, resync_period }
    }

    /// The number of cycles begun since the engine was made.
    pub fn step_counter(&self) -> (count: u64)
        ensures
            count == self.cycles(),
    {
        self.step_counter
    }

    /// The number of cycles from one reset cycle to the next; never zero.
    pub fn resync_period(&self) -> (period: u64)
        ensures
            period == self.period(),
            period > 0,
    {
        proof {
            use_type_invariant(self);
        }
        self.resync_period
    }

    /// Begins a cycle: counts it, and says what to fetch and how to append
    /// it. Every `period`-th cycle is a reset cycle, whatever the store
    /// holds.
    pub fn begin_cycle(&mut self, store: &LocalMirrorStore) -> (plan: CyclePlan)
        requires
            old(self).cycles() < u64::MAX,
        ensures
            final(self).cycles() == old(self).cycles() + 1,
            final(self).period() == old(self).period(),
            is_plan_of(plan, final(self).cycles(), final(self).period(), store@),
    {
        proof {
            use_type_invariant(&*self);
        }
        self.step_counter = self.step_counter + 1;
        let reset = self.step_counter % self.resync_period == 0;
        if reset {
            CyclePlan { floor: RequestFloor::Beginning, policy: ConflictPolicy::Skip }
        } else {
            let floor = match store.last_known_external_id() {
                Some(id) => RequestFloor::After(id),
                None => RequestFloor::Beginning,
            };
            CyclePlan { floor, policy: ConflictPolicy::Abort }
        }
    }

    /// Completes a cycle with what the fetch brought.
    ///
    /// If the remote board was unavailable the cycle fails with
    /// [`MirrorError::RemoteUnavailable`] and the store is not touched.
    /// Otherwise the fetched messages are appended under the policy of the
    /// plan, all or none, and the records after `cursor` are returned. If the
    /// append fails, its error is returned and the store is unchanged.
    pub fn complete_cycle(
        store: &mut LocalMirrorStore,
        plan: CyclePlan,
        outcome: &FetchOutcome,
        cursor: Option<i64>,
    ) -> (result: Result<Vec<LocalMirrorRecord>, MirrorError>)
        ensures
            match *outcome {
                FetchOutcome::Unavailable => {
                    &&& result == Err::<Vec<LocalMirrorRecord>, MirrorError>(
                        MirrorError::RemoteUnavailable,
                    )
                    &&& final(store)@ == old(store)@
                },
                FetchOutcome::Fetched(messages) => match append_outcome(
                    old(store)@,
                    message_views(messages@),
                    plan.policy,
                ) {
                    Ok(after) => {
                        &&& final(store)@ == after
                        &&& result is Ok
                        &&& record_views(result->Ok_0@) == since(after, cursor)
                    },
                    Err(e) => {
                        &&& final(store)@ == old(store)@
                        &&& result == Err::<Vec<LocalMirrorRecord>, MirrorError>(e)
                    },
                },
            },
    {
        match outcome {
            FetchOutcome::Unavailable => Err(MirrorError::RemoteUnavailable),
            FetchOutcome::Fetched(messages) => {
                if messages.len() > 0 {
                    match store.append(messages, plan.policy) {
                        Ok(()) => {},
                        Err(e) => {
                            return Err(e);
                        },
                    }
                } else {
                    assert(message_views(messages@) =~= Seq::<MessageView>::empty());
                }
                Ok(store.read_since(cursor))
            },
        }
    }
}

/// Counted from the making of the engine, or from any reset cycle, the next
/// `period - 1` cycles are incremental and the one after them is a reset
/// cycle.
pub proof fn lemma_reset_every_period(start: nat, period: nat)
    requires
        period > 0,
        start % period == 0,
    ensures
        forall|k: nat| 1 <= k < period ==> !#[trigger] is_reset_cycle(start + k, period),
        is_reset_cycle(start + period, period),
{
    assert forall|k: nat| 1 <= k < period implies !#[trigger] is_reset_cycle(
        start + k,
        period,
    ) by {
        vstd::arithmetic::div_mod::lemma_mod_adds(start as int, k as int, period as int);
        vstd::arithmetic::div_mod::lemma_small_mod(k, period);
    }
    vstd::arithmetic::div_mod::lemma_mod_add_multiples_vanish(start as int, period as int);
}

/// After `period - 1` incremental cycles in a row, the next cycle is a reset
/// cycle: it has the reset plan, which fetches from the beginning and skips
/// what is known, whatever the store holds.
pub proof fn lemma_reset_follows_incremental_cycles(
    done: nat,
    period: nat,
    plan: CyclePlan,
    store: Seq<RecordView>,
)
    requires
        period > 0,
        done + 1 >= period,
        forall|k: nat| 1 <= k < period ==> !#[trigger] is_reset_cycle((done + 1 - k) as nat, period),
        is_plan_of(plan, done + 1, period, store),
    ensures
        is_reset_cycle(done + 1, period),
        plan.floor == RequestFloor::Beginning,
        plan.policy == ConflictPolicy::Skip,
{
    let next: int = done as int + 1;
    let p: int = period as int;
    let r: int = next % p;
    if r != 0 {
        vstd::arithmetic::div_mod::lemma_mod_bound(next, p);
        vstd::arithmetic::div_mod::lemma_fundamental_div_mod(next, p);
        vstd::arithmetic::div_mod::lemma_mod_multiples_basic(next / p, p);
        assert(next - r == (next / p) * p) by (nonlinear_arith)
            requires
                next == p * (next / p) + r,
        ;
        assert(is_reset_cycle((done + 1 - r as nat) as nat, period));
    }
}

} // verus!
