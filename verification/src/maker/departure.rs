//! Departures: recording that a slot is gone, and undoing the record when it returns.
use crate::ids::max_frame;
use crate::ids::GameFrameCount;
use crate::ids::SlotId;
use crate::maker::DecisionMaker;
use crate::maker::Departure;
use crate::maker::DepartureView;
use crate::maker::MakerView;
use crate::slot::ConnectionState;
use crate::slot::SlotState;
use crate::slot::SlotView;
use crate::time::Instant;
use crate::wire::copy_echo;
use crate::wire::result_payload_is_valid;
use crate::wire::EchoView;
use crate::wire::LeaveDirective;
use crate::wire::ResultEcho;
use crate::wire::LEAVE_REASON_DROPPED;
use vstd::prelude::*;

verus! {

/// The home-authored half of a departure record: what the departing slot's home relay
/// stamps, and every other relay folds in.
#[derive(Clone, Debug)]
pub struct DepartureStamps {
    /// The slot's last observed frame at its home relay.
    pub last_frame: Option<GameFrameCount>,
    /// The survivor-reachability ceiling for the leave's apply frame.
    pub reachable_frame: Option<u32>,
    /// The end-of-game result the slot reported before departing.
    pub result: Option<ResultEcho>,
    /// The slot's gap-free forwarded turn count at the departure.
    pub final_turn_count: Option<u64>,
    /// Whether a dropped slot's `final_turn_count` was derived by finalization.
    pub finalized: bool,
}

/// What a [`DepartureStamps`] says.
#[verifier::ext_equal]
pub struct StampsView {
    pub last_frame: Option<GameFrameCount>,
    pub reachable_frame: Option<u32>,
    pub result: Option<EchoView>,
    pub final_turn_count: Option<u64>,
    pub finalized: bool,
}

impl View for DepartureStamps {
    type V = StampsView;

    open spec fn view(&self) -> StampsView {
        StampsView {
            last_frame: self.last_frame,
            reachable_frame: self.reachable_frame,
            result: crate::wire::echo_view(self.result),
            final_turn_count: self.final_turn_count,
            finalized: self.finalized,
        }
    }
}

impl StampsView {
    /// Nothing stamped.
    pub open spec fn blank() -> StampsView {
        StampsView { last_frame: None, reachable_frame: None, result: None, final_turn_count: None, finalized: false }
    }
}

impl Default for DepartureStamps {
    fn default() -> (r: Self)
        ensures
            r@ == StampsView::blank(),
    {
        DepartureStamps { last_frame: None, reachable_frame: None, result: None, final_turn_count: None, finalized: false }
    }
}

/// One recorded departure as it is re-announced: the slot, its stamps, the leave reason
/// and the connection generation that departed.
pub type RecordedDeparture = (SlotId, DepartureStamps, u32, Option<u64>);

/// What a [`RecordedDeparture`] says.
pub open spec fn recorded_view(r: RecordedDeparture) -> (SlotId, StampsView, u32, Option<u64>) {
    (r.0, r.1@, r.2, r.3)
}

/// A leave observed on the mesh as this relay may take it in: a dropped slot's turn count
/// stands only with the finalization proof, and only where finalized drops are enabled.
pub open spec fn normalized_leave(leave: LeaveDirective, finalized_drops_enabled: bool) -> LeaveDirective {
    if leave.reason == LEAVE_REASON_DROPPED && !(leave.finalized && finalized_drops_enabled) {
        LeaveDirective { final_turn_count: None, finalized: false, ..leave }
    } else {
        leave
    }
}

/// Strips an unproven dropped leave's final turn count.
pub fn normalize_observed_leave(leave: &LeaveDirective, finalized_drops_enabled: bool) -> (r: LeaveDirective)
    ensures
        r == normalized_leave(*leave, finalized_drops_enabled),
{
    if leave.reason == LEAVE_REASON_DROPPED && (leave.final_turn_count.is_some() || leave.finalized) && !(
    leave.finalized && finalized_drops_enabled) {
        return LeaveDirective {
            final_turn_count: None,
            finalized: false,
            slot: leave.slot,
            reason: leave.reason,
            apply_at_frame: leave.apply_at_frame,
            leave_seq: leave.leave_seq,
        };
    }
    *leave
}

/// `state` with its frame raised to `frame`.
pub open spec fn raised(state: Option<SlotView>, frame: Option<GameFrameCount>) -> Option<SlotView> {
    match state {
        Some(s) => Some(SlotView { frame: crate::ids::later_frame(s.frame, frame), ..s }),
        None => None,
    }
}

/// The result, unless its payload is not one that may be kept.
pub open spec fn kept_result(result: Option<EchoView>) -> Option<EchoView> {
    match result {
        Some(e) => if crate::wire::valid_payload(e.payload) { Some(e) } else { None },
        None => None,
    }
}

pub open spec fn first_of<T>(a: Option<T>, b: Option<T>) -> Option<T> {
    if a is Some { a } else { b }
}

impl DepartureView {
    /// The record with another observation folded in: frames take the later one, and of
    /// everything else the first word stands.
    pub open spec fn merged(
        self,
        state: Option<SlotView>,
        frame: Option<GameFrameCount>,
        stamps: StampsView,
        connection_epoch: Option<u64>,
    ) -> DepartureView {
        let last_frame = crate::ids::later_frame(self.last_frame, frame);
        DepartureView {
            last_frame,
            slot_state: raised(first_of(self.slot_state, state), last_frame),
            reachable_frame: first_of(self.reachable_frame, stamps.reachable_frame),
            reason: self.reason,
            result: first_of(self.result, kept_result(stamps.result)),
            final_turn_count: first_of(self.final_turn_count, stamps.final_turn_count),
            finalized: self.finalized || stamps.finalized,
            connection_epoch: first_of(self.connection_epoch, connection_epoch),
        }
    }
}

impl MakerView {
    pub open spec fn live_state(self, slot: SlotId) -> Option<SlotView> {
        if self.slots.contains_key(slot) { Some(self.slots[slot]) } else { None }
    }

    pub open spec fn slot_frame(self, slot: SlotId) -> Option<GameFrameCount> {
        if self.slots.contains_key(slot) { self.slots[slot].frame } else { None }
    }

    /// The departure record once this observation is folded in.
    pub open spec fn departure_after(
        self,
        slot: SlotId,
        stamps: StampsView,
        reason: u32,
        connection_epoch: Option<u64>,
    ) -> DepartureView {
        let frame = crate::ids::later_frame(stamps.last_frame, self.slot_frame(slot));
        let state = raised(self.live_state(slot), frame);
        if self.departures.contains_key(slot) {
            self.departures[slot].merged(state, frame, stamps, connection_epoch)
        } else {
            DepartureView {
                last_frame: frame,
                slot_state: state,
                reachable_frame: stamps.reachable_frame,
                reason,
                result: kept_result(stamps.result),
                final_turn_count: stamps.final_turn_count,
                finalized: stamps.finalized,
                connection_epoch,
            }
        }
    }

    /// A departure recorded: the slot's live state is retired into the record.
    pub open spec fn note_departure(
        self,
        slot: SlotId,
        stamps: StampsView,
        reason: u32,
        connection_epoch: Option<u64>,
    ) -> MakerView {
        MakerView {
            slots: self.slots.remove(slot),
            departures: self.departures.insert(slot, self.departure_after(slot, stamps, reason, connection_epoch)),
            sync: self.sync.remove_member(slot),
            live: self.live.remove(slot),
            ..self
        }
    }

    pub open spec fn forgetting(self, slot: SlotId) -> MakerView {
        MakerView { delivery: self.delivery.forget_slot(slot), ..self }
    }

    /// The moment a leave is decided noted; the first one stands.
    pub open spec fn note_leave_decided(self, slot: SlotId, now: Instant) -> MakerView {
        if self.decided_leave_at.contains_key(slot) {
            self
        } else {
            MakerView { decided_leave_at: self.decided_leave_at.insert(slot, now), ..self }
        }
    }

    /// Leave numbering kept at or above `leave_seq`.
    pub open spec fn numbering_past(self, leave_seq: u32) -> MakerView {
        MakerView {
            next_leave_seq: if leave_seq > self.next_leave_seq { leave_seq } else { self.next_leave_seq },
            ..self
        }
    }

    /// An up connection brought down, of the same generation.
    pub open spec fn downed(self, slot: SlotId) -> MakerView {
        if self.connections.contains_key(slot) && self.connections[slot] is Up {
            MakerView {
                connections: self.connections.insert(slot, ConnectionState::Down(self.connections[slot]->Up_0)),
                ..self
            }
        } else {
            self
        }
    }

    /// Whether a leave observed on the mesh is the first for its slot.
    pub open spec fn leave_is_new(self, leave: LeaveDirective) -> bool {
        leave.slot <= 255 && !self.decided_leaves.contains_key(SlotId(leave.slot as u8))
    }

    /// A leave observed on the mesh taken in. The first for its slot is kept verbatim and
    /// records the departure; any other moves the numbering alone.
    pub open spec fn observe_leave(self, observed: LeaveDirective, now: Instant) -> MakerView {
        let leave = normalized_leave(observed, self.finalized_drops_enabled);
        let slot = SlotId(leave.slot as u8);
        if leave.slot > 255 {
            self
        } else if !self.leave_is_new(leave) {
            self.numbering_past(leave.leave_seq)
        } else {
            self.keeping_leave(slot, leave, now).note_departure(
                slot,
                self.observed_stamps(slot, leave),
                leave.reason,
                None,
            ).forgetting(slot)
        }
    }

    /// A leave that another relay decided kept, and the slot's connection ended with it.
    pub open spec fn keeping_leave(self, slot: SlotId, leave: LeaveDirective, now: Instant) -> MakerView {
        MakerView { decided_leaves: self.decided_leaves.insert(slot, leave), ..self }.numbering_past(
            leave.leave_seq,
        ).note_leave_decided(slot, now).downed(slot)
    }

    /// What an observed leave stamps on the departure record.
    pub open spec fn observed_stamps(self, slot: SlotId, leave: LeaveDirective) -> StampsView {
        StampsView {
            result: if self.results.contains_key(slot) { Some(self.results[slot]) } else { None },
            final_turn_count: leave.final_turn_count,
            ..StampsView::blank()
        }
    }

    /// The state a returning slot resumes with: what the game taught, not what the old
    /// link did.
    pub open spec fn resumed_state(self, slot: SlotId, now: Instant) -> SlotView {
        let departure = self.departures[slot];
        let state = match departure.slot_state {
            Some(s) => s,
            None => SlotView::fresh(),
        };
        SlotView {
            frame: crate::ids::later_frame(state.frame, departure.last_frame),
            connection_up_at: Some(now),
            ..state.reset_link_conditions()
        }
    }

    pub open spec fn reinstatable(self, slot: SlotId) -> bool {
        !self.decided_leaves.contains_key(slot) && self.departures.contains_key(slot)
    }

    /// An undecided departure undone.
    pub open spec fn reinstate_slot(self, slot: SlotId, now: Instant) -> MakerView {
        if self.reinstatable(slot) {
            MakerView {
                departures: self.departures.remove(slot),
                slots: self.slots.insert(slot, self.resumed_state(slot, now)),
                ..self
            }
        } else {
            self
        }
    }

    pub open spec fn remove_slot(self, slot: SlotId) -> MakerView {
        MakerView {
            slots: self.slots.remove(slot),
            delivery: self.delivery.forget_slot(slot),
            phase: self.phase.remove_slot(slot),
            ..self
        }
    }

    pub open spec fn connection_epoch_matches(self, slot: SlotId, epoch: Option<u64>) -> bool {
        if self.connections.contains_key(slot) {
            epoch == Some(self.connections[slot].spec_epoch())
        } else {
            epoch is None
        }
    }

    /// A recorded departure as it is re-announced.
    pub open spec fn announced(self, slot: SlotId) -> (SlotId, StampsView, u32, Option<u64>) {
        let d = self.departures[slot];
        (
            slot,
            StampsView {
                last_frame: d.last_frame,
                reachable_frame: d.reachable_frame,
                result: d.result,
                final_turn_count: d.final_turn_count,
                finalized: d.finalized,
            },
            d.reason,
            d.connection_epoch,
        )
    }
}

/// `state` with its frame raised to `frame`.
fn raise_frame(state: Option<SlotState>, frame: Option<GameFrameCount>) -> (r: Option<SlotState>)
    ensures
        crate::maker::slot_state_view(r) == raised(crate::maker::slot_state_view(state), frame),
{
    match state {
        Some(s) => {
            let mut s = s;
            s.frame = max_frame(s.frame, frame);
            Some(s)
        },
        None => None,
    }
}

impl DecisionMaker {
    /// Takes in a leave that another relay decided; true where it is the first for its
    /// slot.
    #[must_use]
    pub fn observe_leave(&mut self, leave: &LeaveDirective, now: Instant) -> (r: bool)
        ensures
            r == old(self)@.leave_is_new(*leave),
            final(self)@ == old(self)@.observe_leave(*leave, now),
    {
        let leave = normalize_observed_leave(leave, self.finalized_drops_enabled);
        if leave.slot > 255 {
            return false;
        }
        let slot = SlotId(leave.slot as u8);
        if self.decided_leaves.contains_key(slot) {
            if leave.leave_seq > self.next_leave_seq {
                self.next_leave_seq = leave.leave_seq;
            }
            return false;
        }
        let retained = match self.results.get(slot) {
            Some(echo) => Some(echo.duplicate()),
            None => None,
        };
        let stamps = DepartureStamps {
            last_frame: None,
            reachable_frame: None,
            result: retained,
            final_turn_count: leave.final_turn_count,
            finalized: false,
        };
        assert(stamps@ == self@.observed_stamps(slot, leave));
        self.keep_leave(slot, leave, now);
        self.note_departure(slot, stamps, leave.reason, None);
        self.forget_delivery(slot);
        true
    }

    /// Marks the slot's delivery cursors as no longer counting.
    pub(crate) fn forget_delivery(&mut self, slot: SlotId)
        ensures
            final(self)@ == old(self)@.forgetting(slot),
    {
        self.delivery.forget_slot(slot);
    }

    /// Keeps a leave that another relay decided, and ends the slot's connection.
    fn keep_leave(&mut self, slot: SlotId, leave: LeaveDirective, now: Instant)
        ensures
            final(self)@ == old(self)@.keeping_leave(slot, leave, now),
    {
        self.decided_leaves.insert(slot, leave);
        if leave.leave_seq > self.next_leave_seq {
            self.next_leave_seq = leave.leave_seq;
        }
        self.note_leave_decided(slot, now);
        self.bring_down(slot);
    }

    /// Brings an up connection down, of the same generation.
    fn bring_down(&mut self, slot: SlotId)
        ensures
            final(self)@ == old(self)@.downed(slot),
    {
        let state = match self.connection_states.get(slot) {
            Some(state) => Some(*state),
            None => None,
        };
        if let Some(ConnectionState::Up(epoch)) = state {
            self.connection_states.insert(slot, ConnectionState::Down(epoch));
        }
    }

    /// Notes the moment `slot`'s leave became decided here; the first one stands.
    pub(crate) fn note_leave_decided(&mut self, slot: SlotId, now: Instant)
        ensures
            final(self)@ == old(self)@.note_leave_decided(slot, now),
    {
        if !self.decided_leave_at.contains_key(slot) {
            self.decided_leave_at.insert(slot, now);
        }
    }

    /// The slot's last observed frame, while it is live.
    pub fn slot_frame(&self, slot: SlotId) -> (r: Option<GameFrameCount>)
        ensures
            r == self@.slot_frame(slot),
    {
        match self.slots.get(slot) {
            Some(state) => state.frame,
            None => None,
        }
    }

    /// Whether a departure is recorded for `slot`.
    pub fn has_departure(&self, slot: SlotId) -> (r: bool)
        ensures
            r == self@.departures.contains_key(slot),
    {
        self.departures.contains_key(slot)
    }

    /// Undoes `slot`'s departure because its client returned; refused once the leave is
    /// decided.
    pub fn reinstate_slot(&mut self, slot: SlotId, now: Instant) -> (r: bool)
        ensures
            r == old(self)@.reinstatable(slot),
            final(self)@ == old(self)@.reinstate_slot(slot, now),
    {
        if self.decided_leaves.contains_key(slot) {
            return false;
        }
        let departure = match self.departures.remove(slot) {
            Some(departure) => departure,
            None => {
                assert(self@.departures =~= old(self)@.departures);
                return false;
            },
        };
        let mut state = match departure.slot_state {
            Some(state) => state,
            None => SlotState::new(),
        };
        state.frame = max_frame(state.frame, departure.last_frame);
        state.reset_link_conditions();
        state.connection_up_at = Some(now);
        self.slots.insert(slot, state);
        true
    }

    /// The slots whose leave is decided, in ascending order.
    pub(crate) fn decided_slots(&self) -> (r: Vec<SlotId>)
        ensures
            r@ == crate::ordmap::listing(self@.decided_leaves.dom()),
            crate::ordmap::lists(r@, self@.decided_leaves.dom()),
    {
        self.decided_leaves.keys()
    }

    /// The decided leaves, in ascending slot order.
    pub(crate) fn decided_directives(&self) -> (r: Vec<LeaveDirective>)
        ensures
            r@ == crate::ordmap::listing(self@.decided_leaves.dom()).map_values(
                |s: SlotId| self@.decided_leaves[s],
            ),
    {
        let n: usize = self.decided_leaves.len();
        let ghost keys = crate::ordmap::listing(self.decided_leaves@.dom());
        let mut out: Vec<LeaveDirective> = Vec::new();
        let mut i: usize = 0;
        while i < n
            invariant
                i <= n,
                n == keys.len(),
                keys == crate::ordmap::listing(self.decided_leaves@.dom()),
                self.decided_leaves@ == self@.decided_leaves,
                out@.len() == i,
                forall|j: int| 0 <= j < i ==> #[trigger] out@[j] == self@.decided_leaves[keys[j]],
            decreases n - i,
        {
            out.push(*self.decided_leaves.value_at(i));
            i += 1;
        }
        assert(out@ =~= keys.map_values(|s: SlotId| self@.decided_leaves[s]));
        out
    }

    /// Everything known of departures and leaves, for a relay that knows nothing: every
    /// recorded departure and every decided leave, in ascending slot order.
    pub(crate) fn leave_reconcile(&self) -> (r: (Vec<RecordedDeparture>, Vec<LeaveDirective>))
        ensures
            r.0@.map_values(|d: RecordedDeparture| recorded_view(d)) == crate::ordmap::listing(
                self@.departures.dom(),
            ).map_values(|s: SlotId| self@.announced(s)),
            r.1@ == crate::ordmap::listing(self@.decided_leaves.dom()).map_values(
                |s: SlotId| self@.decided_leaves[s],
            ),
    {
        let n: usize = self.departures.len();
        let ghost keys = crate::ordmap::listing(self.departures@.dom());
        let mut out: Vec<RecordedDeparture> = Vec::new();
        let mut i: usize = 0;
        while i < n
            invariant
                i <= n,
                n == keys.len(),
                keys == crate::ordmap::listing(self.departures@.dom()),
                self.departures@ == self@.departures,
                out@.len() == i,
                forall|j: int| 0 <= j < i ==> recorded_view(#[trigger] out@[j]) == self@.announced(keys[j]),
            decreases n - i,
        {
            let slot = self.departures.key_at(i);
            let d = self.departures.value_at(i);
            let stamps = DepartureStamps {
                last_frame: d.last_frame,
                reachable_frame: d.reachable_frame,
                result: copy_echo(&d.result),
                final_turn_count: d.final_turn_count,
                finalized: d.finalized,
            };
            out.push((slot, stamps, d.reason, d.connection_epoch));
            i += 1;
        }
        assert(out@.map_values(|d: RecordedDeparture| recorded_view(d)) =~= keys.map_values(
            |s: SlotId| self@.announced(s),
        ));
        (out, self.decided_directives())
    }

    /// Records a departure and retires the slot's live state.
    pub(crate) fn note_departure(
        &mut self,
        slot: SlotId,
        stamps: DepartureStamps,
        reason: u32,
        connection_epoch: Option<u64>,
    )
        ensures
            final(self)@ == old(self)@.note_departure(slot, stamps@, reason, connection_epoch),
    {
        let DepartureStamps { last_frame, reachable_frame, result, final_turn_count, finalized } = stamps;
        let result = match result {
            Some(echo) => {
                if result_payload_is_valid(&echo.payload) {
                    Some(echo)
                } else {
                    None
                }
            },
            None => None,
        };
        let state = self.slots.remove(slot);
        let own_frame = match &state {
            Some(s) => s.frame,
            None => None,
        };
        let frame = max_frame(last_frame, own_frame);
        let state = raise_frame(state, frame);
        let record = match self.departures.remove(slot) {
            Some(prior) => {
                let Departure {
                    last_frame: prior_last,
                    slot_state: prior_state,
                    reachable_frame: prior_reachable,
                    reason: prior_reason,
                    result: prior_result,
                    final_turn_count: prior_count,
                    finalized: prior_finalized,
                    connection_epoch: prior_epoch,
                } = prior;
                let last_frame = max_frame(prior_last, frame);
                Departure {
                    last_frame,
                    slot_state: raise_frame(if prior_state.is_some() { prior_state } else { state }, last_frame),
                    reachable_frame: if prior_reachable.is_some() { prior_reachable } else { reachable_frame },
                    reason: prior_reason,
                    result: if prior_result.is_some() { prior_result } else { result },
                    final_turn_count: if prior_count.is_some() { prior_count } else { final_turn_count },
                    finalized: prior_finalized || finalized,
                    connection_epoch: if prior_epoch.is_some() { prior_epoch } else { connection_epoch },
                }
            },
            None => Departure {
                last_frame: frame,
                slot_state: state,
                reachable_frame,
                reason,
                result,
                final_turn_count,
                finalized,
                connection_epoch,
            },
        };
        assert(record@ == old(self)@.departure_after(slot, stamps@, reason, connection_epoch));
        self.departures.insert(slot, record);
        assert(self.departures@ =~= old(self)@.departures.insert(slot, record@));
        self.sync.remove_member(slot);
        self.live_slots.remove(slot);
    }

    /// Forgets a slot's live state and link.
    pub fn remove_slot(&mut self, slot: SlotId)
        ensures
            final(self)@ == old(self)@.remove_slot(slot),
    {
        let _gone = self.slots.remove(slot);
        self.delivery.forget_slot(slot);
        self.phase.remove_slot(slot);
    }

    /// Forgets a slot's live state and link, unless a newer connection owns them.
    #[must_use]
    pub fn remove_slot_for_epoch(&mut self, slot: SlotId, epoch: Option<u64>) -> (r: bool)
        ensures
            r == old(self)@.connection_epoch_matches(slot, epoch),
            final(self)@ == if r { old(self)@.remove_slot(slot) } else { old(self)@ },
    {
        if !self.connection_epoch_matches(slot, epoch) {
            return false;
        }
        self.remove_slot(slot);
        true
    }

    /// Whether `epoch` is the connection generation `slot` is known by.
    pub fn connection_epoch_matches(&self, slot: SlotId, epoch: Option<u64>) -> (r: bool)
        ensures
            r == self@.connection_epoch_matches(slot, epoch),
    {
        match (self.connection_states.get(slot), epoch) {
            (Some(current), Some(observed)) => current.epoch() == observed,
            (None, None) => true,
            _ => false,
        }
    }
}

} // verus!
