//! Correlation table: monotone request-id allocation and the id-to-slot map.
//!
//! The table is the single point of mutual exclusion for the pending-request
//! bookkeeping: the host wraps one value of it in a lock, so every operation
//! here is a linearization point. Identifiers are allocated strictly
//! increasing and never reused; each identifier maps to at most one
//! single-use completion slot, and `complete` resolves a slot at most once —
//! once an identifier has left the table, a later `complete` or `cancel` for
//! it is a silent no-op.

use vstd::prelude::*;
use std::collections::HashMap;
use crate::channel::{response_channel, send_response};
use crate::codec::EngineResponse;

verus! {

broadcast use vstd::std_specs::hash::group_hash_axioms;

/// `register` refuses an identifier that already has a live slot.
#[derive(Debug, PartialEq, Eq, Structural, Clone, Copy)]
pub enum RegisterError {
    AlreadyRegistered,
}

/// The id-to-slot map plus the allocation counter.
pub struct CorrelationTable {
    next_id: u64,
    slots: HashMap<u64, tokio::sync::oneshot::Sender<EngineResponse>>,
}

impl CorrelationTable {
    /// The identifier the next `allocate` call returns.
    pub closed spec fn next_spec(&self) -> u64 {
        self.next_id
    }

    /// The identifiers with a live completion slot.
    pub closed spec fn pending(&self) -> Set<u64> {
        self.slots@.dom()
    }

    /// Every pending identifier was allocated in the past: it lies below the
    /// allocation counter. This is what makes a fresh identifier fresh.
    pub open spec fn wf(&self) -> bool {
        forall|id: u64| #[trigger] self.pending().contains(id) ==> id < self.next_spec()
    }

    /// An empty table; identifiers start at 1.
    pub fn new() -> (t: Self)
        ensures
            t.next_spec() == 1,
            t.pending() == Set::<u64>::empty(),
            t.wf(),
    {
        let t = CorrelationTable { next_id: 1, slots: HashMap::new() };
        proof {
            assert(t.pending() =~= Set::<u64>::empty());
        }
        t
    }

    /// Hand out the next identifier. Returned identifiers are strictly
    /// increasing over any sequence of calls, and never collide with a
    /// pending one.
    pub fn allocate(&mut self) -> (id: u64)
        requires
            old(self).wf(),
            old(self).next_spec() < u64::MAX,
        ensures
            id == old(self).next_spec(),
            final(self).next_spec() == id + 1,
            final(self).pending() == old(self).pending(),
            !final(self).pending().contains(id),
            final(self).wf(),
    {
        let id = self.next_id;
        self.next_id = self.next_id + 1;
        id
    }

    /// Insert a single-use completion slot for `id` and return the matching
    /// wait handle. Refused if `id` already has a live slot.
    pub fn register(&mut self, id: u64) -> (r: Result<
        tokio::sync::oneshot::Receiver<EngineResponse>,
        RegisterError,
    >)
        requires
            old(self).wf(),
            id < old(self).next_spec(),
        ensures
            final(self).next_spec() == old(self).next_spec(),
            final(self).wf(),
            match r {
                Ok(_) => {
                    &&& !old(self).pending().contains(id)
                    &&& final(self).pending() == old(self).pending().insert(id)
                },
                Err(_) => {
                    &&& old(self).pending().contains(id)
                    &&& final(self).pending() == old(self).pending()
                },
            },
    {
        if self.slots.contains_key(&id) {
            proof {
                assert(final(self).pending() =~= old(self).pending());
            }
            Err(RegisterError::AlreadyRegistered)
        } else {
            let (tx, rx) = response_channel();
            self.slots.insert(id, tx);
            proof {
                assert(final(self).pending() =~= old(self).pending().insert(id));
            }
            Ok(rx)
        }
    }

    /// Resolve the slot for `id` with `response` and remove it. When `id`
    /// has no slot — never registered, already completed, or cancelled —
    /// the call delivers nothing and changes nothing: late and duplicate
    /// replies are silent no-ops.
    pub fn complete(&mut self, id: u64, response: EngineResponse) -> (delivered: bool)
        requires
            old(self).wf(),
        ensures
            delivered == old(self).pending().contains(id),
            final(self).pending() == old(self).pending().remove(id),
            final(self).next_spec() == old(self).next_spec(),
            final(self).wf(),
    {
        let taken = self.slots.remove(&id);
        proof {
            assert(final(self).pending() =~= old(self).pending().remove(id));
        }
        match taken {
            Some(tx) => {
                let _ = send_response(tx, response);
                true
            },
            None => false,
        }
    }

    /// Remove the slot for `id` without resolving it (timeout or withdrawn
    /// request). Dropping the slot wakes the waiting caller with a
    /// closed-channel error; a later `complete` for `id` is a no-op.
    pub fn cancel(&mut self, id: u64)
        requires
            old(self).wf(),
        ensures
            final(self).pending() == old(self).pending().remove(id),
            final(self).next_spec() == old(self).next_spec(),
            final(self).wf(),
    {
        let _ = self.slots.remove(&id);
        proof {
            assert(final(self).pending() =~= old(self).pending().remove(id));
        }
    }

    /// Remove every slot without resolving it: the worker died, so every
    /// blocked caller is woken at once with a closed-channel error instead
    /// of waiting out its individual timeout.
    pub fn cancel_all(&mut self)
        requires
            old(self).wf(),
        ensures
            final(self).pending() == Set::<u64>::empty(),
            final(self).next_spec() == old(self).next_spec(),
            final(self).wf(),
    {
        self.slots.clear();
        proof {
            assert(final(self).pending() =~= Set::<u64>::empty());
        }
    }

    /// What one `allocate` call does to the table, as its contract states
    /// it: the old counter comes back, the counter advances, the slots are
    /// untouched.
    pub open spec fn allocate_step(pre: Self, post: Self, id: u64) -> bool {
        &&& id == pre.next_spec()
        &&& post.next_spec() == pre.next_spec() + 1
        &&& post.pending() == pre.pending()
    }

    /// Whether another identifier can still be allocated.
    pub fn ids_available(&self) -> (b: bool)
        ensures
            b == (self.next_spec() < u64::MAX),
    {
        self.next_id < u64::MAX
    }

    /// Whether `id` currently has a live slot.
    pub fn is_pending(&self, id: u64) -> (b: bool)
        ensures
            b == self.pending().contains(id),
    {
        self.slots.contains_key(&id)
    }

    /// How many requests are currently pending.
    pub fn pending_count(&self) -> (n: usize)
        ensures
            n == self.pending().len(),
    {
        self.slots.len()
    }
}

/// The allocation counter never moves backward over a chain of `allocate`
/// calls.
proof fn lemma_next_monotone(states: Seq<CorrelationTable>, ids: Seq<u64>, a: int, b: int)
    requires
        states.len() == ids.len() + 1,
        forall|k: int| 0 <= k < ids.len() ==> CorrelationTable::allocate_step(
            #[trigger] states[k],
            states[k + 1],
            ids[k],
        ),
        0 <= a <= b < states.len(),
    ensures
        states[a].next_spec() <= states[b].next_spec(),
    decreases b - a,
{
    if a < b {
        lemma_next_monotone(states, ids, a, b - 1);
        assert(CorrelationTable::allocate_step(states[b - 1], states[b], ids[b - 1]));
    }
}

/// Over any sequence of `allocate` calls the returned identifiers are
/// strictly increasing, and so pairwise distinct. `states` are the table's
/// values through the sequence — under concurrent callers, its values at
/// the linearization points — and `ids` what the calls returned.
pub proof fn lemma_allocate_ids_strictly_increase(states: Seq<CorrelationTable>, ids: Seq<u64>)
    requires
        states.len() == ids.len() + 1,
        forall|k: int| 0 <= k < ids.len() ==> CorrelationTable::allocate_step(
            #[trigger] states[k],
            states[k + 1],
            ids[k],
        ),
    ensures
        forall|i: int, j: int| 0 <= i < j < ids.len() ==> ids[i] < ids[j],
{
    assert forall|i: int, j: int| 0 <= i < j < ids.len() implies ids[i] < ids[j] by {
        assert(CorrelationTable::allocate_step(states[i], states[i + 1], ids[i]));
        assert(CorrelationTable::allocate_step(states[j], states[j + 1], ids[j]));
        lemma_next_monotone(states, ids, i + 1, j);
    }
}

/// A slot is resolved at most once: after any operation that removed `id`
/// — a `complete` that delivered, or a `cancel` — the identifier is no
/// longer pending, and by `complete`'s contract a second `complete` (or a
/// `complete` after `cancel`) for it delivers nothing and changes nothing.
pub proof fn lemma_complete_at_most_once(pre: CorrelationTable, mid: CorrelationTable, id: u64)
    requires
        mid.pending() == pre.pending().remove(id),
    ensures
        !mid.pending().contains(id),
        mid.pending().remove(id) == mid.pending(),
{
    assert(mid.pending().remove(id) =~= mid.pending());
}

/// Responses resolve by identifier, not by arrival order: completing one
/// identifier never disturbs any other pending identifier, so deliveries
/// in any permuted order each resolve exactly their own slot.
pub proof fn lemma_complete_targets_only_its_id(
    pre: CorrelationTable,
    mid: CorrelationTable,
    id: u64,
    other: u64,
)
    requires
        mid.pending() == pre.pending().remove(id),
        other != id,
    ensures
        mid.pending().contains(other) == pre.pending().contains(other),
{
}

} // verus!
