//! One session's decision-maker: its state, and what every operation does to it.
use crate::delivery::DeliveryTracking;
use crate::delivery::DeliveryView;
use crate::ids::GameFrameCount;
use crate::ids::RelayId;
use crate::ids::SessionKey;
use crate::ids::SessionKeyView;
use crate::ids::SlotId;
use crate::law::BucketedMax;
use crate::law::BucketsView;
use crate::law::ControlLaw;
use crate::law::TARGET_FLOOR_BUCKETS;
use crate::ordmap::OrdMap;
use crate::ordmap::OrdSet;
use crate::phase::PhaseController;
use crate::phase::PhaseView;
use crate::slot::ConnectionState;
use crate::slot::SlotState;
use crate::slot::SlotView;
use crate::sync::tracker::SyncTracker;
use crate::sync::tracker::TrackerView;
use crate::sync::turns::SlotTurnsView;
use crate::sync::turns::SyncTurns;
use crate::time::Instant;
use crate::wire::Authority;
use crate::wire::BufferBounds;
use crate::wire::BufferDecisionInputs;
use crate::wire::BufferDirective;
use crate::wire::BufferSize;
use crate::wire::EchoView;
use crate::wire::InputsView;
use crate::wire::LabelView;
use crate::wire::LeaveDirective;
use crate::wire::RegionLabel;
use crate::wire::ResultEcho;
use vstd::prelude::*;

pub mod authority;
pub mod buffer;
pub mod connection;
pub mod departure;
pub mod homing;
pub mod leave;
pub mod phase;
pub mod session_start;
pub mod silence;
pub mod sync;

verus! {

/// The last shrink: what it shrank from, and when.
#[derive(Clone, Copy, Debug, PartialEq, Eq, Structural)]
pub struct ShrinkRecord {
    pub from: u32,
    pub frame: u32,
}

/// A recorded departure, from which a leave may be decided or the slot reinstated.
pub struct Departure {
    pub(crate) last_frame: Option<GameFrameCount>,
    pub(crate) slot_state: Option<SlotState>,
    pub(crate) reachable_frame: Option<u32>,
    pub(crate) reason: u32,
    pub(crate) result: Option<ResultEcho>,
    pub(crate) final_turn_count: Option<u64>,
    pub(crate) finalized: bool,
    pub(crate) connection_epoch: Option<u64>,
}

/// What a [`Departure`] records.
#[verifier::ext_equal]
pub struct DepartureView {
    pub last_frame: Option<GameFrameCount>,
    pub slot_state: Option<SlotView>,
    pub reachable_frame: Option<u32>,
    pub reason: u32,
    pub result: Option<EchoView>,
    pub final_turn_count: Option<u64>,
    pub finalized: bool,
    pub connection_epoch: Option<u64>,
}

pub open spec fn slot_state_view(state: Option<SlotState>) -> Option<SlotView> {
    match state {
        Some(s) => Some(s@),
        None => None,
    }
}

impl View for Departure {
    type V = DepartureView;

    open(crate) spec fn view(&self) -> DepartureView {
        DepartureView {
            last_frame: self.last_frame,
            slot_state: slot_state_view(self.slot_state),
            reachable_frame: self.reachable_frame,
            reason: self.reason,
            result: crate::wire::echo_view(self.result),
            final_turn_count: self.final_turn_count,
            finalized: self.finalized,
            connection_epoch: self.connection_epoch,
        }
    }
}

/// What a [`DecisionMaker`] knows and has decided.
#[verifier::ext_equal]
pub struct MakerView {
    pub key: SessionKeyView,
    pub bounds: BufferBounds,
    pub law: ControlLaw,
    pub authority: Authority,
    pub buffer: u32,
    pub phase: PhaseView,
    pub slots: Map<SlotId, SlotView>,
    pub connections: Map<SlotId, ConnectionState>,
    /// Connection epochs that a later one superseded.
    pub retired: Map<SlotId, Set<u64>>,
    pub last_decision_frame: Option<GameFrameCount>,
    pub target_peaks: BucketsView,
    pub last_shrink: Option<ShrinkRecord>,
    pub edge_burned: bool,
    pub last_burn_frame: Option<u32>,
    pub decision_seq: u32,
    pub decision_seq_tiebreak: Option<u64>,
    pub over_ceiling_warned_seq: Option<u32>,
    pub pending_directive: Option<BufferDirective>,
    pub pending_inputs: Option<InputsView>,
    pub initial_directive_sent: bool,
    pub delivery: DeliveryView,
    pub decided_leaves: Map<SlotId, LeaveDirective>,
    pub departures: Map<SlotId, DepartureView>,
    pub next_leave_seq: u32,
    pub observers: Set<SlotId>,
    pub results: Map<SlotId, EchoView>,
    pub sync: TrackerView,
    pub sync_turns: Map<SlotId, SlotTurnsView>,
    pub expected: Set<SlotId>,
    pub homed: Set<SlotId>,
    pub live: Set<SlotId>,
    pub started: bool,
    pub connected: Set<SlotId>,
    pub started_slots: Set<SlotId>,
    pub peer_started: Set<SlotId>,
    pub silence_evicted: Set<SlotId>,
    pub decided_leave_at: Map<SlotId, Instant>,
    pub recovered_leaves: Set<SlotId>,
    pub started_at_ms: Option<u64>,
    pub resumed: bool,
    pub finalized_drops_enabled: bool,
    pub finalizing: Set<SlotId>,
    pub rehomed_homes: Set<SlotId>,
    pub close_reported: bool,
    pub own_relay_id: Option<RelayId>,
    pub latency_hint_ms: Option<u32>,
    pub single_relay: bool,
    pub initial_buffer_turns: Option<u32>,
    pub region_labels: Seq<LabelView>,
    pub region_labels_released: bool,
    pub started_at: Option<Instant>,
}

/// Whether `frame` is the earliest frame any slot is at.
pub open spec fn is_session_frame(slots: Map<SlotId, SlotView>, frame: Option<GameFrameCount>) -> bool {
    match frame {
        Some(f) => {
            &&& exists|s: SlotId| #[trigger] slots.contains_key(s) && slots[s].frame == Some(f)
            &&& forall|s: SlotId| #[trigger]
                slots.contains_key(s) && slots[s].frame is Some ==> f.0 <= (slots[s].frame->0).0
        },
        None => forall|s: SlotId| #[trigger] slots.contains_key(s) ==> slots[s].frame is None,
    }
}

/// The session's frame: the earliest frame any slot is at.
pub open spec fn session_frame_of(slots: Map<SlotId, SlotView>) -> Option<GameFrameCount> {
    choose|f: Option<GameFrameCount>| is_session_frame(slots, f)
}

pub proof fn lemma_session_frame(slots: Map<SlotId, SlotView>, frame: Option<GameFrameCount>)
    requires
        is_session_frame(slots, frame),
    ensures
        session_frame_of(slots) == frame,
{
    let other = session_frame_of(slots);
    assert(is_session_frame(slots, other));
    if frame is Some && other is Some {
        let a = choose|s: SlotId| #[trigger] slots.contains_key(s) && slots[s].frame == frame;
        let b = choose|s: SlotId| #[trigger] slots.contains_key(s) && slots[s].frame == other;
        assert((frame->0).0 <= (slots[b].frame->0).0);
        assert((other->0).0 <= (slots[a].frame->0).0);
        assert(frame->0 == other->0);
    }
}

impl MakerView {
    pub open spec fn fresh(
        key: SessionKeyView,
        bounds: BufferBounds,
        law: ControlLaw,
        authority: Authority,
        observers: Set<SlotId>,
    ) -> MakerView {
        MakerView {
            key,
            bounds,
            law,
            authority,
            buffer: bounds.min,
            phase: PhaseView::fresh(law.turn_duration_us),
            slots: Map::empty(),
            connections: Map::empty(),
            retired: Map::empty(),
            last_decision_frame: None,
            target_peaks: BucketsView::fresh(TARGET_FLOOR_BUCKETS as nat),
            last_shrink: None,
            edge_burned: false,
            last_burn_frame: None,
            decision_seq: 0,
            decision_seq_tiebreak: None,
            over_ceiling_warned_seq: None,
            pending_directive: None,
            pending_inputs: None,
            initial_directive_sent: false,
            delivery: DeliveryView::fresh(),
            decided_leaves: Map::empty(),
            departures: Map::empty(),
            next_leave_seq: 0,
            observers,
            results: Map::empty(),
            sync: TrackerView::fresh(),
            sync_turns: Map::empty(),
            expected: Set::empty(),
            homed: Set::empty(),
            live: Set::empty(),
            started: false,
            connected: Set::empty(),
            started_slots: Set::empty(),
            peer_started: Set::empty(),
            silence_evicted: Set::empty(),
            decided_leave_at: Map::empty(),
            recovered_leaves: Set::empty(),
            started_at_ms: None,
            resumed: false,
            finalized_drops_enabled: false,
            finalizing: Set::empty(),
            rehomed_homes: Set::empty(),
            close_reported: false,
            own_relay_id: None,
            latency_hint_ms: None,
            single_relay: true,
            initial_buffer_turns: None,
            region_labels: Seq::empty(),
            region_labels_released: false,
            started_at: None,
        }
    }

    /// The earliest frame any slot is at.
    pub open spec fn session_frame(self) -> Option<GameFrameCount> {
        session_frame_of(self.slots)
    }

    pub open spec fn is_authority(self) -> bool {
        self.authority == Authority::SelfRelay
    }

    /// The slot's history, nothing yet where it is unknown.
    pub open spec fn slot_or_fresh(self, slot: SlotId) -> SlotView {
        if self.slots.contains_key(slot) { self.slots[slot] } else { SlotView::fresh() }
    }

    pub open spec fn with_slot(self, slot: SlotId, state: SlotView) -> MakerView {
        MakerView { slots: self.slots.insert(slot, state), ..self }
    }
}

/// One session's decision-maker.
pub struct DecisionMaker {
    pub(crate) key: SessionKey,
    pub(crate) bounds: BufferBounds,
    pub(crate) law: ControlLaw,
    pub(crate) authority: Authority,
    pub(crate) buffer: BufferSize,
    pub(crate) phase: PhaseController,
    pub(crate) slots: OrdMap<SlotId, SlotState>,
    pub(crate) connection_states: OrdMap<SlotId, ConnectionState>,
    pub(crate) retired_connection_epochs: OrdMap<SlotId, OrdSet<u64>>,
    pub(crate) last_decision_frame: Option<GameFrameCount>,
    pub(crate) target_peaks: BucketedMax<32>,
    pub(crate) last_shrink: Option<ShrinkRecord>,
    pub(crate) edge_burned: bool,
    pub(crate) last_burn_frame: Option<u32>,
    pub(crate) decision_seq: u32,
    pub(crate) decision_seq_tiebreak: Option<u64>,
    pub(crate) over_ceiling_warned_seq: Option<u32>,
    pub(crate) pending_directive: Option<BufferDirective>,
    pub(crate) pending_decision_inputs: Option<BufferDecisionInputs>,
    pub(crate) initial_directive_sent: bool,
    pub(crate) delivery: DeliveryTracking,
    pub(crate) decided_leaves: OrdMap<SlotId, LeaveDirective>,
    pub(crate) departures: OrdMap<SlotId, Departure>,
    pub(crate) next_leave_seq: u32,
    pub(crate) observers: OrdSet<SlotId>,
    pub(crate) results: OrdMap<SlotId, ResultEcho>,
    pub(crate) sync: SyncTracker,
    pub(crate) sync_turns: SyncTurns,
    pub(crate) expected_slots: OrdSet<SlotId>,
    pub(crate) homed_slots: OrdSet<SlotId>,
    pub(crate) live_slots: OrdSet<SlotId>,
    pub(crate) started: bool,
    pub(crate) connected_slots: OrdSet<SlotId>,
    pub(crate) started_slots: OrdSet<SlotId>,
    pub(crate) peer_started_slots: OrdSet<SlotId>,
    pub(crate) silence_evicted: OrdSet<SlotId>,
    pub(crate) decided_leave_at: OrdMap<SlotId, Instant>,
    pub(crate) recovered_leaves: OrdSet<SlotId>,
    pub(crate) started_at_ms: Option<u64>,
    pub(crate) resumed: bool,
    pub(crate) finalized_drops_enabled: bool,
    pub(crate) finalizing_drops: OrdSet<SlotId>,
    pub(crate) rehomed_homes: OrdSet<SlotId>,
    pub(crate) close_reported: bool,
    pub(crate) own_relay_id: Option<RelayId>,
    pub(crate) latency_hint_ms: Option<u32>,
    pub(crate) single_relay: bool,
    pub(crate) initial_buffer_turns: Option<u32>,
    pub(crate) region_labels: Vec<RegionLabel>,
    pub(crate) region_labels_released: bool,
    pub(crate) started_at: Option<Instant>,
}

impl View for DecisionMaker {
    type V = MakerView;

    open(crate) spec fn view(&self) -> MakerView {
        MakerView {
            key: self.key@,
            bounds: self.bounds,
            law: self.law,
            authority: self.authority,
            buffer: self.buffer.0,
            phase: self.phase@,
            slots: self.slots@,
            connections: self.connection_states@,
            retired: self.retired_connection_epochs@,
            last_decision_frame: self.last_decision_frame,
            target_peaks: self.target_peaks@,
            last_shrink: self.last_shrink,
            edge_burned: self.edge_burned,
            last_burn_frame: self.last_burn_frame,
            decision_seq: self.decision_seq,
            decision_seq_tiebreak: self.decision_seq_tiebreak,
            over_ceiling_warned_seq: self.over_ceiling_warned_seq,
            pending_directive: self.pending_directive,
            pending_inputs: crate::wire::inputs_view(self.pending_decision_inputs),
            initial_directive_sent: self.initial_directive_sent,
            delivery: self.delivery@,
            decided_leaves: self.decided_leaves@,
            departures: self.departures@,
            next_leave_seq: self.next_leave_seq,
            observers: self.observers@,
            results: self.results@,
            sync: self.sync@,
            sync_turns: self.sync_turns@,
            expected: self.expected_slots@,
            homed: self.homed_slots@,
            live: self.live_slots@,
            started: self.started,
            connected: self.connected_slots@,
            started_slots: self.started_slots@,
            peer_started: self.peer_started_slots@,
            silence_evicted: self.silence_evicted@,
            decided_leave_at: self.decided_leave_at@,
            recovered_leaves: self.recovered_leaves@,
            started_at_ms: self.started_at_ms,
            resumed: self.resumed,
            finalized_drops_enabled: self.finalized_drops_enabled,
            finalizing: self.finalizing_drops@,
            rehomed_homes: self.rehomed_homes@,
            close_reported: self.close_reported,
            own_relay_id: self.own_relay_id,
            latency_hint_ms: self.latency_hint_ms,
            single_relay: self.single_relay,
            initial_buffer_turns: self.initial_buffer_turns,
            region_labels: crate::wire::label_views(self.region_labels@),
            region_labels_released: self.region_labels_released,
            started_at: self.started_at,
        }
    }
}

impl DecisionMaker {
    /// A maker for a session nothing is known of yet; its buffer starts at the policy's
    /// minimum.
    pub fn new(
        key: SessionKey,
        bounds: BufferBounds,
        law: ControlLaw,
        authority: Authority,
        observers: OrdSet<SlotId>,
    ) -> (r: Self)
        ensures
            r@ == MakerView::fresh(key@, bounds, law, authority, observers@),
    {
        let r = DecisionMaker {
            key,
            buffer: BufferSize(bounds.min),
            bounds,
            phase: PhaseController::new(law.turn_duration_us),
            law,
            authority,
            slots: OrdMap::new(),
            connection_states: OrdMap::new(),
            retired_connection_epochs: OrdMap::new(),
            last_decision_frame: None,
            target_peaks: BucketedMax::new(),
            last_shrink: None,
            edge_burned: false,
            last_burn_frame: None,
            decision_seq: 0,
            decision_seq_tiebreak: None,
            over_ceiling_warned_seq: None,
            pending_directive: None,
            pending_decision_inputs: None,
            initial_directive_sent: false,
            delivery: DeliveryTracking::default(),
            decided_leaves: OrdMap::new(),
            departures: OrdMap::new(),
            next_leave_seq: 0,
            observers,
            results: OrdMap::new(),
            sync: SyncTracker::default(),
            sync_turns: SyncTurns::default(),
            expected_slots: OrdSet::new(),
            homed_slots: OrdSet::new(),
            live_slots: OrdSet::new(),
            started: false,
            connected_slots: OrdSet::new(),
            started_slots: OrdSet::new(),
            peer_started_slots: OrdSet::new(),
            silence_evicted: OrdSet::new(),
            decided_leave_at: OrdMap::new(),
            recovered_leaves: OrdSet::new(),
            started_at_ms: None,
            resumed: false,
            finalized_drops_enabled: false,
            finalizing_drops: OrdSet::new(),
            rehomed_homes: OrdSet::new(),
            close_reported: false,
            own_relay_id: None,
            latency_hint_ms: None,
            single_relay: true,
            initial_buffer_turns: None,
            region_labels: Vec::new(),
            region_labels_released: false,
            started_at: None,
        };
        assert(r@.region_labels =~= Seq::<LabelView>::empty());
        r
    }

    /// The session.
    pub fn key(&self) -> (r: &SessionKey)
        ensures
            r@ == self@.key,
    {
        &self.key
    }

    /// The session's delivery readings.
    pub fn delivery_mut(&mut self) -> (r: &mut DeliveryTracking)
        ensures
            (*r)@ == old(self)@.delivery,
            final(self)@ == (MakerView { delivery: (*final(r))@, ..old(self)@ }),
    {
        &mut self.delivery
    }

    /// The worst pair's lag in turns, and the most relays a turn passes.
    pub fn delivery_view(&self) -> (r: (Option<u64>, Option<u32>))
        ensures
            r == (self@.delivery.worst_lag_turns, self@.delivery.max_relay_hops),
    {
        (self.delivery.worst_lag_turns(), self.delivery.max_relay_hops())
    }

    /// The session's buffer depth as last decided or observed.
    pub fn buffer(&self) -> (r: BufferSize)
        ensures
            r.0 == self@.buffer,
    {
        self.buffer
    }

    /// The earliest frame any slot is at.
    pub fn session_frame(&self) -> (r: Option<GameFrameCount>)
        ensures
            r == self@.session_frame(),
            is_session_frame(self@.slots, r),
    {
        let n: usize = self.slots.len();
        let ghost keys = crate::ordmap::listing(self.slots@.dom());
        let mut best: Option<GameFrameCount> = None;
        let mut i: usize = 0;
        while i < n
            invariant
                i <= n,
                n == keys.len(),
                keys == crate::ordmap::listing(self.slots@.dom()),
                self.slots@ == self@.slots,
                best is Some ==> exists|s: SlotId| #[trigger] self@.slots.contains_key(s) && self@.slots[s].frame == best,
                forall|j: int|
                    0 <= j < i && self@.slots[#[trigger] keys[j]].frame is Some ==> best is Some && (best->0).0
                        <= (self@.slots[keys[j]].frame->0).0,
            decreases n - i,
        {
            let state = self.slots.value_at(i);
            if let Some(frame) = state.frame {
                let earlier = match best {
                    Some(b) => frame.0 < b.0,
                    None => true,
                };
                if earlier {
                    assert(self@.slots.contains_key(keys[i as int]));
                    best = Some(frame);
                }
            }
            i += 1;
        }
        proof {
            assert forall|s: SlotId| #[trigger] self@.slots.contains_key(s) implies keys.contains(s) by {
                assert(self.slots@.dom().contains(s));
            }
            assert(is_session_frame(self@.slots, best));
            lemma_session_frame(self@.slots, best);
        }
        best
    }
}

} // verus!
