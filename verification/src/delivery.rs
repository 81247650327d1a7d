//! End-to-end delivery as the decision-maker reads it.
//!
//! Which turns reached which clients is folded from delivery cursors elsewhere; what
//! comes back here are its readings, and what goes out are the slots whose cursors no
//! longer count.
use crate::ids::SlotId;
use crate::ordmap::OrdSet;
use vstd::prelude::*;

verus! {

/// What a [`DeliveryTracking`] holds.
#[verifier::ext_equal]
pub struct DeliveryView {
    pub cushion_turns: u32,
    pub worst_lag_turns: Option<u64>,
    pub max_relay_hops: Option<u32>,
    pub forgotten: Set<SlotId>,
}

impl DeliveryView {
    pub open spec fn fresh() -> DeliveryView {
        DeliveryView { cushion_turns: 0, worst_lag_turns: None, max_relay_hops: None, forgotten: Set::empty() }
    }

    pub open spec fn forget_slot(self, slot: SlotId) -> DeliveryView {
        DeliveryView { forgotten: self.forgotten.insert(slot), ..self }
    }
}

/// The latest delivery readings of one session.
pub struct DeliveryTracking {
    cushion_turns: u32,
    worst_lag_turns: Option<u64>,
    max_relay_hops: Option<u32>,
    forgotten: OrdSet<SlotId>,
}

impl View for DeliveryTracking {
    type V = DeliveryView;

    closed spec fn view(&self) -> DeliveryView {
        DeliveryView {
            cushion_turns: self.cushion_turns,
            worst_lag_turns: self.worst_lag_turns,
            max_relay_hops: self.max_relay_hops,
            forgotten: self.forgotten@,
        }
    }
}

impl Default for DeliveryTracking {
    fn default() -> (r: Self)
        ensures
            r@ == DeliveryView::fresh(),
    {
        DeliveryTracking { cushion_turns: 0, worst_lag_turns: None, max_relay_hops: None, forgotten: OrdSet::new() }
    }
}

impl DeliveryTracking {
    /// Takes fresh readings in: the turns of slack the paths call for, the worst pair's
    /// lag, and the longest relay path.
    pub fn publish(&mut self, cushion_turns: u32, worst_lag_turns: Option<u64>, max_relay_hops: Option<u32>)
        ensures
            final(self)@ == (DeliveryView { cushion_turns, worst_lag_turns, max_relay_hops, ..old(self)@ }),
    {
        self.cushion_turns = cushion_turns;
        self.worst_lag_turns = worst_lag_turns;
        self.max_relay_hops = max_relay_hops;
    }

    /// The turns of slack the paths call for.
    pub fn cushion_turns(&self) -> (r: u32)
        ensures
            r == self@.cushion_turns,
    {
        self.cushion_turns
    }

    /// The worst pair's lag in turns.
    pub fn worst_lag_turns(&self) -> (r: Option<u64>)
        ensures
            r == self@.worst_lag_turns,
    {
        self.worst_lag_turns
    }

    /// The most relays a turn passes.
    pub fn max_relay_hops(&self) -> (r: Option<u32>)
        ensures
            r == self@.max_relay_hops,
    {
        self.max_relay_hops
    }

    /// Marks `slot`'s cursors as no longer counting.
    pub fn forget_slot(&mut self, slot: SlotId)
        ensures
            final(self)@ == old(self)@.forget_slot(slot),
    {
        self.forgotten.insert(slot);
    }

    /// Hands out, in ascending order, the slots forgotten since the last call.
    pub fn take_forgotten(&mut self) -> (r: Vec<SlotId>)
        ensures
            r@ == crate::ordmap::listing(old(self)@.forgotten),
            crate::ordmap::lists(r@, old(self)@.forgotten),
            final(self)@ == (DeliveryView { forgotten: Set::empty(), ..old(self)@ }),
    {
        let out = self.forgotten.keys();
        self.forgotten = OrdSet::new();
        out
    }
}

} // verus!
