//! The session's start: when every expected slot is present, and at what depth.
use crate::ids::SlotId;
use crate::maker::DecisionMaker;
use crate::maker::MakerView;
use crate::ordmap::OrdSet;
use crate::time::Instant;
use crate::wire::BufferSize;
use vstd::prelude::*;

verus! {

/// What a restarted coordinator is told of a session.
#[derive(Clone, Debug, PartialEq, Eq)]
pub struct RetainedLoadState {
    /// In ascending order.
    pub ever_connected: Vec<SlotId>,
    /// In ascending order.
    pub started: Vec<SlotId>,
    pub started_at_ms: Option<u64>,
}

/// What a [`RetainedLoadState`] says.
#[verifier::ext_equal]
pub struct LoadView {
    pub ever_connected: Seq<SlotId>,
    pub started: Seq<SlotId>,
    pub started_at_ms: Option<u64>,
}

impl View for RetainedLoadState {
    type V = LoadView;

    open spec fn view(&self) -> LoadView {
        LoadView {
            ever_connected: self.ever_connected@,
            started: self.started@,
            started_at_ms: self.started_at_ms,
        }
    }
}

impl Default for RetainedLoadState {
    fn default() -> (r: Self)
        ensures
            r@ == LoadView::blank(),
    {
        RetainedLoadState { ever_connected: Vec::new(), started: Vec::new(), started_at_ms: None }
    }
}

impl LoadView {
    pub open spec fn blank() -> LoadView {
        LoadView { ever_connected: Seq::empty(), started: Seq::empty(), started_at_ms: None }
    }
}

impl MakerView {
    pub open spec fn has_started(self, slot: SlotId) -> bool {
        self.started_slots.contains(slot) || self.peer_started.contains(slot)
    }

    /// The start latched; its moment is the first one.
    pub open spec fn latch_started(self, now: Instant) -> MakerView {
        MakerView {
            started: true,
            started_at: Some(
                match self.started_at {
                    Some(at) => at,
                    None => now,
                },
            ),
            ..self
        }
    }

    /// Whether the session starts now: this relay decides it, and every expected slot is
    /// present.
    pub open spec fn starts(self) -> bool {
        !self.started && self.is_authority() && !(self.expected =~= Set::empty()) && self.expected.subset_of(self.live)
    }

    /// The session started where it can be, at the depth its conditions call for.
    pub open spec fn maybe_start(self, now: Instant) -> MakerView {
        if self.starts() {
            let depth = self.initial_depth();
            MakerView { buffer: depth, initial_buffer_turns: Some(depth), ..self.latch_started(now) }
        } else {
            self
        }
    }

    /// Whether `slot` can still take part.
    pub open spec fn present_slot_counts(self, slot: SlotId) -> bool {
        !self.departures.contains_key(slot) && !self.decided_leaves.contains_key(slot)
    }

    pub open spec fn with_live(self, slot: SlotId) -> MakerView {
        MakerView { live: self.live.insert(slot), ..self }
    }

    /// The coordinator's latency hint in whole turns.
    pub open spec fn latency_hint_turns(self) -> Option<u32> {
        match self.latency_hint_ms {
            Some(ms) => if self.law.turn_duration_us == 0 {
                None
            } else {
                let us = ms * 1000;
                let up = (us + self.law.turn_duration_us - 1) / self.law.turn_duration_us as int;
                Some(if up <= u32::MAX { up as u32 } else { u32::MAX })
            },
            None => None,
        }
    }

    /// Whether every expected slot that has not departed has a measured RTT.
    pub open spec fn all_expected_measured(self) -> bool {
        forall|s: SlotId| #[trigger]
            self.expected.contains(s) ==> self.departures.contains_key(s) || (self.slots.contains_key(s)
                && self.slots[s].rtt() > 0)
    }

    /// The depth a session starts at, before clamping: what is measured where all of it
    /// is; otherwise the worse of that and the hint, with a turn on top across relays.
    pub open spec fn wanted_depth(self) -> u32 {
        let observed = match self.target_inputs() {
            Some(inputs) => Some(inputs.target),
            None => None,
        };
        let hint = self.latency_hint_turns();
        if self.single_relay && self.all_expected_measured() {
            if observed is Some { observed->0 } else { self.bounds.min }
        } else if observed is None && hint is None {
            self.bounds.min
        } else {
            let a = if observed is Some { observed->0 } else { 0 };
            let b = if hint is Some { hint->0 } else { 0 };
            let base: u32 = if a >= b { a } else { b };
            base.saturating_add(if self.single_relay { 0 } else { 1 })
        }
    }

    pub open spec fn initial_depth(self) -> u32 {
        self.game_safe_clamp(self.wanted_depth())
    }

    pub open spec fn note_started_at_ms(self, started_at_ms: u64) -> MakerView {
        MakerView {
            started_at_ms: Some(
                match self.started_at_ms {
                    Some(at) => at,
                    None => started_at_ms,
                },
            ),
            ..self
        }
    }

    /// Another relay's start adopted, at the depth it started with.
    pub open spec fn adopt_session_start(self, initial_buffer_turns: Option<u32>, now: Instant, now_ms: u64) -> MakerView {
        let latched = self.latch_started(now).note_started_at_ms(now_ms);
        match initial_buffer_turns {
            Some(depth) => MakerView {
                buffer: self.game_safe_clamp(depth),
                initial_buffer_turns: Some(self.game_safe_clamp(depth)),
                ..latched
            },
            None => latched,
        }
    }

    pub open spec fn session_slot_count(self) -> nat {
        if self.live.len() >= self.expected.len() { self.live.len() } else { self.expected.len() }
    }

    pub open spec fn load_state(self) -> LoadView {
        LoadView {
            ever_connected: crate::ordmap::listing(self.connected),
            started: crate::ordmap::listing(self.started_slots),
            started_at_ms: self.started_at_ms,
        }
    }
}

/// The slots in ascending order.
pub(crate) fn sorted_slots(slots: &OrdSet<SlotId>) -> (r: Vec<SlotId>)
    ensures
        r@ == crate::ordmap::listing(slots@),
        crate::ordmap::lists(r@, slots@),
{
    slots.keys()
}

impl DecisionMaker {
    /// Fixes whether finalized drops are enabled for the session.
    pub fn latch_finalized_drops(&mut self, enabled: bool)
        ensures
            final(self)@ == (MakerView { finalized_drops_enabled: enabled, ..old(self)@ }),
    {
        self.finalized_drops_enabled = enabled;
    }

    /// Whether a later descriptor disagrees on finalized drops; the latched value stands.
    pub fn reconcile_finalized_drops(&self, pushed: bool) -> (disagrees: bool)
        ensures
            disagrees == (self@.finalized_drops_enabled != pushed),
    {
        self.finalized_drops_enabled != pushed
    }

    /// Notes that `slot`'s client has connected.
    pub fn note_slot_connected(&mut self, slot: SlotId)
        ensures
            final(self)@ == (MakerView { connected: old(self)@.connected.insert(slot), ..old(self)@ }),
    {
        self.connected_slots.insert(slot);
    }

    /// Notes that a home slot's game has started.
    pub fn note_slot_started(&mut self, slot: SlotId)
        ensures
            final(self)@ == (MakerView { started_slots: old(self)@.started_slots.insert(slot), ..old(self)@ }),
    {
        self.started_slots.insert(slot);
    }

    /// Notes that a slot homed elsewhere has started.
    pub fn note_peer_slot_started(&mut self, slot: SlotId)
        ensures
            final(self)@ == (MakerView { peer_started: old(self)@.peer_started.insert(slot), ..old(self)@ }),
    {
        self.peer_started_slots.insert(slot);
    }

    /// Whether `slot`'s game has started.
    pub(crate) fn has_started(&self, slot: SlotId) -> (r: bool)
        ensures
            r == self@.has_started(slot),
    {
        self.started_slots.contains(slot) || self.peer_started_slots.contains(slot)
    }

    /// The home slots whose game has started, in ascending order.
    pub fn started_home_slots(&self) -> (r: Vec<SlotId>)
        ensures
            r@ == crate::ordmap::listing(self@.started_slots),
            crate::ordmap::lists(r@, self@.started_slots),
    {
        sorted_slots(&self.started_slots)
    }

    /// Notes that `slot` is present; true where this starts the session.
    #[must_use]
    pub fn note_slot_present(&mut self, slot: SlotId, now: Instant) -> (r: bool)
        ensures
            r == (old(self)@.present_slot_counts(slot) && old(self)@.with_live(slot).starts()),
            final(self)@ == if old(self)@.present_slot_counts(slot) {
                old(self)@.with_live(slot).maybe_start(now)
            } else {
                old(self)@
            },
    {
        if self.departures.contains_key(slot) || self.decided_leaves.contains_key(slot) {
            return false;
        }
        self.live_slots.insert(slot);
        self.maybe_start(now)
    }

    /// Looks again whether the session can start; true where it does now.
    #[must_use]
    pub fn reevaluate_start(&mut self, now: Instant) -> (r: bool)
        ensures
            r == old(self)@.starts(),
            final(self)@ == old(self)@.maybe_start(now),
    {
        self.maybe_start(now)
    }

    /// Marks the session as started.
    pub fn mark_started(&mut self, now: Instant)
        ensures
            final(self)@ == old(self)@.latch_started(now),
    {
        self.latch_started(now);
    }

    /// Latches the start; its moment is the first one.
    pub(crate) fn latch_started(&mut self, now: Instant)
        ensures
            final(self)@ == old(self)@.latch_started(now),
    {
        self.started = true;
        if self.started_at.is_none() {
            self.started_at = Some(now);
        }
    }

    /// Whether the session has started.
    pub fn is_started(&self) -> (r: bool)
        ensures
            r == self@.started,
    {
        self.started
    }

    /// How many slots the session has: those present, or those expected where more.
    pub fn session_slot_count(&self) -> (r: usize)
        ensures
            r == self@.session_slot_count(),
    {
        let live: usize = self.live_slots.len();
        let expected: usize = self.expected_slots.len();
        if live >= expected { live } else { expected }
    }

    /// Starts the session where it can be; true where it does now.
    pub(crate) fn maybe_start(&mut self, now: Instant) -> (r: bool)
        ensures
            r == old(self)@.starts(),
            final(self)@ == old(self)@.maybe_start(now),
    {
        if self.started || !self.is_authority() || self.expected_slots.is_empty() {
            return false;
        }
        if self.all_expected_live() {
            let depth: u32 = self.compute_initial_depth();
            self.latch_started(now);
            self.buffer = BufferSize(depth);
            self.initial_buffer_turns = Some(depth);
            return true;
        }
        false
    }

    fn all_expected_live(&self) -> (r: bool)
        ensures
            r == self@.expected.subset_of(self@.live),
    {
        let n: usize = self.expected_slots.len();
        let ghost keys = crate::ordmap::listing(self.expected_slots@);
        let mut i: usize = 0;
        while i < n
            invariant
                i <= n,
                n == keys.len(),
                keys == crate::ordmap::listing(self.expected_slots@),
                forall|j: int| 0 <= j < i ==> self@.live.contains(#[trigger] keys[j]),
            decreases n - i,
        {
            let slot = self.expected_slots.key_at(i);
            if !self.live_slots.contains(slot) {
                assert(self@.expected.contains(slot));
                return false;
            }
            i += 1;
        }
        assert forall|s: SlotId| self@.expected.contains(s) implies #[trigger] self@.live.contains(s) by {
            assert(self.expected_slots@.contains(s));
            assert(keys.contains(s));
        }
        true
    }

    /// Sets the latency hint, and whether one relay serves every slot.
    pub fn set_session_shape(&mut self, latency_hint_ms: Option<u32>, single_relay: bool)
        ensures
            final(self)@ == (MakerView { latency_hint_ms, single_relay, ..old(self)@ }),
    {
        self.latency_hint_ms = latency_hint_ms;
        self.single_relay = single_relay;
    }

    /// The depth the session started at.
    pub fn initial_buffer_turns(&self) -> (r: Option<u32>)
        ensures
            r == self@.initial_buffer_turns,
    {
        self.initial_buffer_turns
    }

    /// Adopts another relay's start, at the depth it started with.
    pub fn adopt_session_start(&mut self, initial_buffer_turns: Option<u32>, now: Instant, now_ms: u64)
        ensures
            final(self)@ == old(self)@.adopt_session_start(initial_buffer_turns, now, now_ms),
    {
        self.latch_started(now);
        self.note_started_at_ms(now_ms);
        if let Some(depth) = initial_buffer_turns {
            let clamped: u32 = self.game_safe_clamp(depth);
            self.buffer = BufferSize(clamped);
            self.initial_buffer_turns = Some(clamped);
        }
    }

    /// Notes when the session started, on the coordinator's clock; the first one stands.
    pub fn note_started_at_ms(&mut self, started_at_ms: u64)
        ensures
            final(self)@ == old(self)@.note_started_at_ms(started_at_ms),
    {
        if self.started_at_ms.is_none() {
            self.started_at_ms = Some(started_at_ms);
        }
    }

    /// The depth the session starts at.
    pub(crate) fn compute_initial_depth(&self) -> (r: u32)
        ensures
            r == self@.initial_depth(),
    {
        let observed = self.target();
        let hint = self.latency_hint_turns();
        let depth: u32 = if self.single_relay && self.all_expected_slots_have_rtt() {
            match observed {
                Some(target) => target,
                None => self.bounds.min,
            }
        } else if observed.is_none() && hint.is_none() {
            self.bounds.min
        } else {
            let a: u32 = match observed {
                Some(target) => target,
                None => 0,
            };
            let b: u32 = match hint {
                Some(turns) => turns,
                None => 0,
            };
            let base: u32 = if a >= b { a } else { b };
            base.saturating_add(if self.single_relay { 0 } else { 1 })
        };
        self.game_safe_clamp(depth)
    }

    /// The coordinator's latency hint in whole turns.
    pub(crate) fn latency_hint_turns(&self) -> (r: Option<u32>)
        ensures
            r == self@.latency_hint_turns(),
    {
        let turn_us: u64 = self.law.turn_duration_us as u64;
        if turn_us == 0 {
            return None;
        }
        match self.latency_hint_ms {
            Some(ms) => {
                let us: u64 = ms as u64 * 1000;
                let up: u64 = (us + turn_us - 1) / turn_us;
                Some(if up <= u32::MAX as u64 { up as u32 } else { u32::MAX })
            },
            None => None,
        }
    }

    /// Whether every expected slot that has not departed has a measured RTT.
    pub(crate) fn all_expected_slots_have_rtt(&self) -> (r: bool)
        ensures
            r == self@.all_expected_measured(),
    {
        let n: usize = self.expected_slots.len();
        let ghost keys = crate::ordmap::listing(self.expected_slots@);
        let mut i: usize = 0;
        while i < n
            invariant
                i <= n,
                n == keys.len(),
                keys == crate::ordmap::listing(self.expected_slots@),
                forall|j: int|
                    0 <= j < i ==> self@.departures.contains_key(#[trigger] keys[j]) || (self@.slots.contains_key(keys[j])
                        && self@.slots[keys[j]].rtt() > 0),
            decreases n - i,
        {
            let slot = self.expected_slots.key_at(i);
            if !self.departures.contains_key(slot) {
                let has_rtt = match self.slots.get(slot) {
                    Some(state) => state.rtt() > 0,
                    None => false,
                };
                if !has_rtt {
                    assert(self@.expected.contains(slot));
                    return false;
                }
            }
            i += 1;
        }
        assert forall|s: SlotId| #[trigger] self@.expected.contains(s) implies self@.departures.contains_key(s) || (
        self@.slots.contains_key(s) && self@.slots[s].rtt() > 0) by {
            assert(self.expected_slots@.contains(s));
            assert(keys.contains(s));
        }
        true
    }

    /// What a restarted coordinator is told of the session.
    pub fn load_state(&self) -> (r: RetainedLoadState)
        ensures
            r@ == self@.load_state(),
    {
        RetainedLoadState {
            ever_connected: sorted_slots(&self.connected_slots),
            started: sorted_slots(&self.started_slots),
            started_at_ms: self.started_at_ms,
        }
    }
}

} // verus!
