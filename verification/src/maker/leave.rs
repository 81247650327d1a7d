//! Synced leaves: deciding, from a departure record, when every client is to see the
//! player leave.
use crate::ids::SlotId;
use crate::maker::departure::DepartureStamps;
use crate::maker::departure::StampsView;
use crate::maker::DecisionMaker;
use crate::maker::DepartureView;
use crate::maker::MakerView;
use crate::ordmap::OrdSet;
use crate::slot::ConnectionState;
use crate::time::Instant;
use crate::wire::result_payload_is_valid;
use crate::wire::DepartureKind;
use crate::wire::LeaveDirective;
use crate::wire::ResultEcho;
use crate::wire::LEAVE_REASON_DROPPED;
use crate::wire::LEAVE_REASON_LEFT;
use vstd::prelude::*;

verus! {

/// What finalizing a drop came to.
#[derive(Clone, Copy, Debug, PartialEq, Eq, Structural)]
pub enum FinalizeOutcome {
    /// The slot's generation is sealed and its complete turn count recorded.
    Finalized { final_turn_count: u64 },
    /// The slot, or the generation asked about, may still be live.
    RejectedLive,
    /// There is no complete count to record.
    RejectedNoCursor,
}

/// The frame a leave is scheduled from: the departing slot's last frame, and the
/// session's only where the slot never had one.
pub open spec fn base_frame(slot_last: Option<u32>, session: Option<u32>) -> Option<u32> {
    if slot_last is Some { slot_last } else { session }
}

pub(crate) fn leave_base_frame(slot_last: Option<u32>, session: Option<u32>) -> (r: Option<u32>)
    ensures
        r == base_frame(slot_last, session),
{
    if slot_last.is_some() { slot_last } else { session }
}

impl DepartureView {
    /// Whether the record proves a dropped slot's turn count complete.
    pub open spec fn proves_count(self) -> bool {
        self.finalized && self.final_turn_count is Some
    }
}

impl MakerView {
    /// Whether the leave may claim a finalized count.
    pub open spec fn leave_finalized(self, slot: SlotId, reason: u32) -> bool {
        reason == LEAVE_REASON_DROPPED && self.departures.contains_key(slot) && self.departures[slot].proves_count()
    }

    /// The turn count a leave carries: a dropped slot's only with proof, and any other's
    /// only where the session was not resumed from elsewhere.
    pub open spec fn leave_count(self, slot: SlotId, reason: u32) -> Option<u64> {
        let recorded = if self.departures.contains_key(slot) { self.departures[slot].final_turn_count } else { None };
        if reason == LEAVE_REASON_DROPPED {
            if self.leave_finalized(slot, reason) { recorded } else { None }
        } else if self.resumed {
            None
        } else {
            recorded
        }
    }

    pub open spec fn recorded_last(self, slot: SlotId) -> Option<u32> {
        if self.departures.contains_key(slot) {
            match self.departures[slot].last_frame {
                Some(f) => Some(f.0),
                None => None,
            }
        } else {
            None
        }
    }

    pub open spec fn session_frame_count(self) -> Option<u32> {
        match self.session_frame() {
            Some(f) => Some(f.0),
            None => None,
        }
    }

    /// The frame the leave is scheduled from: a slot's own last frame is clamped to what
    /// the survivors can reach.
    pub open spec fn leave_base(self, slot: SlotId) -> Option<u32> {
        let last = self.recorded_last(slot);
        match base_frame(last, self.session_frame_count()) {
            None => None,
            Some(base) => if last is Some && self.departures[slot].reachable_frame is Some {
                let ceiling = self.departures[slot].reachable_frame->0;
                Some(if base <= ceiling { base } else { ceiling })
            } else {
                Some(base)
            },
        }
    }

    /// Whether a leave of `slot` decided now has a frame to be scheduled from.
    pub open spec fn leave_schedulable(self, slot: SlotId) -> bool {
        self.session_frame() is Some || self.recorded_last(slot) is Some
    }

    /// The directive of a leave that applies at `frame`, numbered next.
    pub open spec fn leave_directive(self, slot: SlotId, reason: u32, frame: u32) -> LeaveDirective {
        LeaveDirective {
            finalized: self.leave_finalized(slot, reason),
            slot: slot.0 as u32,
            reason,
            apply_at_frame: frame,
            leave_seq: self.next_leave_seq.saturating_add(1),
            final_turn_count: self.leave_count(slot, reason),
        }
    }

    /// The leave decided: kept, numbered and its moment noted.
    pub open spec fn deciding(self, slot: SlotId, directive: LeaveDirective, now: Instant) -> MakerView {
        MakerView {
            next_leave_seq: self.next_leave_seq.saturating_add(1),
            decided_leaves: self.decided_leaves.insert(slot, directive),
            ..self
        }.note_leave_decided(slot, now)
    }

    /// The directive a commit would decide: none where one is decided already or there is
    /// no frame to schedule from.
    pub open spec fn committed(self, slot: SlotId, reason: u32) -> Option<LeaveDirective> {
        match self.leave_base(slot) {
            Some(base) => if self.decided_leaves.contains_key(slot) {
                None
            } else {
                Some(self.leave_directive(slot, reason, base.saturating_add(1)))
            },
            None => None,
        }
    }

    pub open spec fn commit_leave(self, slot: SlotId, reason: u32, now: Instant) -> MakerView {
        match self.committed(slot, reason) {
            Some(directive) => self.deciding(slot, directive, now),
            None => self,
        }
    }

    pub open spec fn departing(self, slot: SlotId, reason: u32) -> MakerView {
        self.note_departure(slot, StampsView::blank(), reason, None)
    }

    /// The directive an authority's decision yields.
    pub open spec fn leave_decision(self, slot: SlotId, reason: u32) -> Option<LeaveDirective> {
        if self.is_authority() { self.departing(slot, reason).committed(slot, reason) } else { None }
    }

    /// The departure recorded, and the leave decided where this relay is the authority.
    pub open spec fn decide_leave(self, slot: SlotId, reason: u32, now: Instant) -> MakerView {
        let departed = self.departing(slot, reason);
        if self.is_authority() { departed.commit_leave(slot, reason, now) } else { departed }
    }

    /// The directive a forced decision yields: with no frame to schedule from, at once.
    pub open spec fn forced_decision(self, slot: SlotId, reason: u32) -> Option<LeaveDirective> {
        let departed = self.departing(slot, reason);
        if self.decided_leaves.contains_key(slot) {
            None
        } else if departed.committed(slot, reason) is Some {
            departed.committed(slot, reason)
        } else {
            Some(departed.leave_directive(slot, reason, 0))
        }
    }

    pub open spec fn force_decide_leave(self, slot: SlotId, reason: u32, now: Instant) -> MakerView {
        match self.forced_decision(slot, reason) {
            Some(directive) => self.departing(slot, reason).deciding(slot, directive, now),
            None => self.departing(slot, reason),
        }
    }

    /// The first `n` of `slots` decided in turn, with the directives that came of it.
    pub open spec fn decide_leaves(self, slots: Seq<(SlotId, u32)>, n: int, now: Instant) -> (
        MakerView,
        Seq<LeaveDirective>,
    )
        decreases n,
    {
        if n <= 0 {
            (self, Seq::empty())
        } else {
            let (before, out) = self.decide_leaves(slots, n - 1, now);
            let (slot, reason) = slots[n - 1];
            (
                before.decide_leave(slot, reason, now),
                match before.leave_decision(slot, reason) {
                    Some(d) => out.push(d),
                    None => out,
                },
            )
        }
    }

    /// The first `n` of `slots` force-decided in turn, with the directives that came of it.
    pub open spec fn force_decide_leaves(self, slots: Seq<(SlotId, u32)>, n: int, now: Instant) -> (
        MakerView,
        Seq<LeaveDirective>,
    )
        decreases n,
    {
        if n <= 0 {
            (self, Seq::empty())
        } else {
            let (before, out) = self.force_decide_leaves(slots, n - 1, now);
            let (slot, reason) = slots[n - 1];
            (
                before.force_decide_leave(slot, reason, now),
                match before.forced_decision(slot, reason) {
                    Some(d) => out.push(d),
                    None => out,
                },
            )
        }
    }

    /// The departures with no decided leave.
    pub open spec fn undecided(self) -> Set<SlotId> {
        self.departures.dom().difference(self.decided_leaves.dom())
    }

    /// Those of `slots` with the reason they departed for, in ascending order.
    pub open spec fn with_reasons(self, slots: Set<SlotId>) -> Seq<(SlotId, u32)> {
        crate::ordmap::listing(slots).map_values(|s: SlotId| (s, self.departures[s].reason))
    }

    /// Whether some held departure on this relay may still be undone by a reconnect.
    pub open spec fn has_reconnectable_departure(self, held: Set<SlotId>) -> bool {
        exists|s: SlotId| #[trigger]
            self.departures.contains_key(s) && !self.decided_leaves.contains_key(s) && self.admits_slot(s)
                && held.contains(s)
    }

    /// A departing generation noted: an unknown one is established as down, the slot's
    /// own is brought down, and any other is refused.
    pub open spec fn down_accepted(self, slot: SlotId, observed: Option<u64>) -> bool {
        if self.connections.contains_key(slot) {
            observed == Some(self.connections[slot].spec_epoch())
        } else {
            true
        }
    }

    pub open spec fn mark_connection_down(self, slot: SlotId, observed: Option<u64>) -> MakerView {
        if self.down_accepted(slot, observed) && observed is Some {
            MakerView { connections: self.connections.insert(slot, ConnectionState::Down(observed->0)), ..self }
        } else {
            self
        }
    }

    pub open spec fn record_departure_for_epoch(
        self,
        slot: SlotId,
        stamps: StampsView,
        reason: u32,
        connection_epoch: Option<u64>,
    ) -> MakerView {
        if self.down_accepted(slot, connection_epoch) {
            self.mark_connection_down(slot, connection_epoch).note_departure(
                slot,
                stamps,
                reason,
                connection_epoch,
            ).forgetting(slot)
        } else {
            self
        }
    }

    /// Whether a seeded drop's count is taken as finalized.
    pub open spec fn seed_finalized(self, kind: DepartureKind, finalized: bool) -> bool {
        kind == DepartureKind::Dropped && finalized && self.finalized_drops_enabled
    }

    pub open spec fn seed_count(self, kind: DepartureKind, count: Option<u64>, finalized: bool) -> Option<u64> {
        if kind == DepartureKind::Dropped && !self.seed_finalized(kind, finalized) { None } else { count }
    }

    /// The departure a seed records.
    pub open spec fn seeding(self, slot: SlotId, kind: DepartureKind, count: Option<u64>, finalized: bool) -> MakerView {
        self.note_departure(
            slot,
            StampsView {
                final_turn_count: self.seed_count(kind, count, finalized),
                finalized: self.seed_finalized(kind, finalized),
                ..StampsView::blank()
            },
            reason_for(kind),
            None,
        )
    }

    /// The directive a seed decides, one past the survivors' frame.
    pub open spec fn seed_directive(
        self,
        slot: SlotId,
        kind: DepartureKind,
        count: Option<u64>,
        finalized: bool,
    ) -> Option<LeaveDirective> {
        if self.decided_leaves.contains_key(slot) {
            None
        } else {
            let base = match self.seeding(slot, kind, count, finalized).session_frame_count() {
                Some(f) => f,
                None => 0,
            };
            let kept = self.seed_count(kind, count, finalized);
            Some(
                LeaveDirective {
                    finalized: self.seed_finalized(kind, finalized) && kept is Some,
                    slot: slot.0 as u32,
                    reason: reason_for(kind),
                    apply_at_frame: base.saturating_add(1),
                    leave_seq: self.next_leave_seq.saturating_add(1),
                    final_turn_count: kept,
                },
            )
        }
    }

    /// A departure known elsewhere seeded as already decided.
    pub open spec fn seed_departed(
        self,
        slot: SlotId,
        kind: DepartureKind,
        count: Option<u64>,
        finalized: bool,
        now: Instant,
    ) -> MakerView {
        let seeded = self.seeding(slot, kind, count, finalized);
        match self.seed_directive(slot, kind, count, finalized) {
            Some(directive) => seeded.deciding(slot, directive, now),
            None => seeded,
        }
    }

    pub open spec fn connection_is_up(self, slot: SlotId) -> bool {
        self.connections.contains_key(slot) && self.connections[slot] is Up
    }

    pub open spec fn departure_epoch(self, slot: SlotId) -> Option<u64> {
        if self.departures.contains_key(slot) { self.departures[slot].connection_epoch } else { None }
    }

    /// What finalizing `slot`'s drop is answered before its count is read; nothing where
    /// the count is to be read.
    pub open spec fn seal_refusal(self, slot: SlotId, requested_epoch: Option<u64>) -> Option<FinalizeOutcome> {
        if self.decided_leaves.contains_key(slot) {
            let decided = self.decided_leaves[slot];
            Some(
                if decided.finalized && decided.final_turn_count is Some {
                    FinalizeOutcome::Finalized { final_turn_count: decided.final_turn_count->0 }
                } else {
                    FinalizeOutcome::RejectedLive
                },
            )
        } else if self.connection_is_up(slot) || self.departure_epoch(slot) != requested_epoch {
            Some(FinalizeOutcome::RejectedLive)
        } else if self.rehomed_homes.contains(slot) || !self.leave_schedulable(slot) {
            Some(FinalizeOutcome::RejectedNoCursor)
        } else {
            None
        }
    }

    /// The slot's generation sealed against readmission.
    pub open spec fn seal_for_finalize(self, slot: SlotId, requested_epoch: Option<u64>) -> MakerView {
        if self.seal_refusal(slot, requested_epoch) is None {
            MakerView { finalizing: self.finalizing.insert(slot), ..self }
        } else {
            self
        }
    }

    /// The sealed slot's count recorded, or the seal lifted where there is none.
    pub open spec fn finish_finalize(self, slot: SlotId, count: Option<u64>) -> MakerView {
        match count {
            Some(final_turn_count) => self.note_departure(
                slot,
                StampsView { final_turn_count: Some(final_turn_count), finalized: true, ..StampsView::blank() },
                LEAVE_REASON_DROPPED,
                None,
            ),
            None => MakerView { finalizing: self.finalizing.remove(slot), ..self },
        }
    }
}

pub open spec fn reason_for(kind: DepartureKind) -> u32 {
    match kind {
        DepartureKind::Dropped => LEAVE_REASON_DROPPED,
        DepartureKind::Left => LEAVE_REASON_LEFT,
    }
}

/// What finishing a finalization came to.
pub open spec fn finish_outcome(count: Option<u64>) -> FinalizeOutcome {
    match count {
        Some(final_turn_count) => FinalizeOutcome::Finalized { final_turn_count },
        None => FinalizeOutcome::RejectedNoCursor,
    }
}

impl DecisionMaker {
    /// Records `slot`'s departure and, on the authority, decides its leave.
    pub fn decide_leave(&mut self, slot: SlotId, reason: u32, now: Instant) -> (r: Option<LeaveDirective>)
        ensures
            r == old(self)@.leave_decision(slot, reason),
            final(self)@ == old(self)@.decide_leave(slot, reason, now),
    {
        self.note_departure(slot, DepartureStamps::default(), reason, None);
        if !self.is_authority() {
            return None;
        }
        self.commit_leave(slot, reason, now)
    }

    /// Records `slot`'s departure and decides its leave whoever the authority is, to
    /// close out a session every player has abandoned.
    pub fn force_decide_leave(&mut self, slot: SlotId, reason: u32, now: Instant) -> (r: Option<LeaveDirective>)
        ensures
            r == old(self)@.forced_decision(slot, reason),
            final(self)@ == old(self)@.force_decide_leave(slot, reason, now),
    {
        self.note_departure(slot, DepartureStamps::default(), reason, None);
        let committed = self.commit_leave(slot, reason, now);
        if committed.is_some() {
            return committed;
        }
        if self.decided_leaves.contains_key(slot) {
            return None;
        }
        let directive = self.build_leave(slot, reason, 0);
        self.enter_leave(slot, directive, now);
        Some(directive)
    }

    /// The directive of a leave that applies at `frame`, numbered next.
    fn build_leave(&self, slot: SlotId, reason: u32, frame: u32) -> (r: LeaveDirective)
        ensures
            r == self@.leave_directive(slot, reason, frame),
    {
        let (recorded, proven) = match self.departures.get(slot) {
            Some(d) => (d.final_turn_count, d.finalized && d.final_turn_count.is_some()),
            None => (None, false),
        };
        let dropped = reason == LEAVE_REASON_DROPPED;
        let finalized = dropped && proven;
        let final_turn_count: Option<u64> = if dropped {
            if finalized {
                recorded
            } else {
                None
            }
        } else if self.resumed {
            None
        } else {
            recorded
        };
        LeaveDirective {
            finalized,
            slot: slot.0 as u32,
            reason,
            apply_at_frame: frame,
            leave_seq: self.next_leave_seq.saturating_add(1),
            final_turn_count,
        }
    }

    fn enter_leave(&mut self, slot: SlotId, directive: LeaveDirective, now: Instant)
        ensures
            final(self)@ == old(self)@.deciding(slot, directive, now),
    {
        self.next_leave_seq = self.next_leave_seq.saturating_add(1);
        self.decided_leaves.insert(slot, directive);
        self.note_leave_decided(slot, now);
    }

    fn session_frame_count(&self) -> (r: Option<u32>)
        ensures
            r == self@.session_frame_count(),
    {
        match self.session_frame() {
            Some(f) => Some(f.0),
            None => None,
        }
    }

    /// Decides `slot`'s leave from its departure record, once.
    pub(crate) fn commit_leave(&mut self, slot: SlotId, reason: u32, now: Instant) -> (r: Option<LeaveDirective>)
        ensures
            r == old(self)@.committed(slot, reason),
            final(self)@ == old(self)@.commit_leave(slot, reason, now),
    {
        if self.decided_leaves.contains_key(slot) {
            return None;
        }
        let (slot_last, reachable) = match self.departures.get(slot) {
            Some(d) => (
                match d.last_frame {
                    Some(f) => Some(f.0),
                    None => None,
                },
                d.reachable_frame,
            ),
            None => (None, None),
        };
        let session = self.session_frame_count();
        let base: u32 = match leave_base_frame(slot_last, session) {
            Some(base) => base,
            None => {
                return None;
            },
        };
        let base: u32 = match (slot_last, reachable) {
            (Some(_), Some(ceiling)) => if base <= ceiling { base } else { ceiling },
            _ => base,
        };
        let directive = self.build_leave(slot, reason, base.saturating_add(1));
        self.enter_leave(slot, directive, now);
        Some(directive)
    }

    /// Whether `slot`'s leave is decided.
    pub fn leave_decided(&self, slot: SlotId) -> (r: bool)
        ensures
            r == self@.decided_leaves.contains_key(slot),
    {
        self.decided_leaves.contains_key(slot)
    }

    /// Whether a leave of `slot` decided now would have a frame to be scheduled from.
    pub fn leave_schedulable(&self, slot: SlotId) -> (r: bool)
        ensures
            r == self@.leave_schedulable(slot),
    {
        if self.session_frame().is_some() {
            return true;
        }
        match self.departures.get(slot) {
            Some(d) => d.last_frame.is_some(),
            None => false,
        }
    }

    /// The departures, but for those in `skipped`, whose leave is not decided, with the
    /// reason each departed for.
    pub(crate) fn undecided_but(&self, skipped: &OrdSet<SlotId>) -> (r: Vec<(SlotId, u32)>)
        ensures
            r@ == self@.with_reasons(self@.undecided().difference(skipped@)),
            crate::ordmap::lists(
                crate::ordmap::listing(self@.undecided().difference(skipped@)),
                self@.undecided().difference(skipped@),
            ),
    {
        let n: usize = self.departures.len();
        let ghost keys = crate::ordmap::listing(self.departures@.dom());
        let ghost wanted = self@.undecided().difference(skipped@);
        let mut chosen: OrdSet<SlotId> = OrdSet::new();
        let mut i: usize = 0;
        while i < n
            invariant
                i <= n,
                n == keys.len(),
                keys == crate::ordmap::listing(self.departures@.dom()),
                crate::ordmap::lists(keys, self.departures@.dom()),
                wanted == self@.undecided().difference(skipped@),
                self.departures@ == self@.departures,
                forall|s: SlotId| #[trigger] chosen@.contains(s) <==> wanted.contains(s) && keys.take(i as int).contains(s),
            decreases n - i,
        {
            let slot = self.departures.key_at(i);
            if !self.decided_leaves.contains_key(slot) && !skipped.contains(slot) {
                chosen.insert(slot);
            }
            proof {
                crate::sync::tracker::lemma_take_contains(keys, i as int);
            }
            i += 1;
        }
        proof {
            assert(keys.take(n as int) =~= keys);
            assert(chosen@ =~= wanted) by {
                assert forall|s: SlotId| wanted.contains(s) implies #[trigger] chosen@.contains(s) by {
                    assert(self.departures@.dom().contains(s));
                    assert(keys.contains(s));
                }
            }
        }
        let slots = chosen.keys();
        let mut out: Vec<(SlotId, u32)> = Vec::new();
        let mut k: usize = 0;
        while k < slots.len()
            invariant
                k <= slots@.len(),
                slots@ == crate::ordmap::listing(wanted),
                crate::ordmap::lists(slots@, wanted),
                wanted == self@.undecided().difference(skipped@),
                out@.len() == k,
                forall|j: int| 0 <= j < k ==> #[trigger] out@[j] == (slots@[j], self@.departures[slots@[j]].reason),
            decreases slots@.len() - k,
        {
            let slot = slots[k];
            assert(slots@.contains(slot));
            assert(wanted.contains(slot));
            let reason: u32 = match self.departures.get(slot) {
                Some(d) => d.reason,
                None => 0,
            };
            out.push((slot, reason));
            k += 1;
        }
        assert(out@ =~= self@.with_reasons(wanted));
        out
    }

    /// The departures whose leave is not decided, with the reason each departed for, in
    /// ascending slot order.
    pub(crate) fn undecided_departures(&self) -> (r: Vec<(SlotId, u32)>)
        ensures
            r@ == self@.with_reasons(self@.undecided()),
    {
        let none: OrdSet<SlotId> = OrdSet::new();
        assert(self@.undecided().difference(none@) =~= self@.undecided());
        self.undecided_but(&none)
    }

    /// Force-decides every departure whose leave is not decided, in ascending slot order.
    pub(crate) fn force_decide_undecided(&mut self, now: Instant) -> (r: Vec<LeaveDirective>)
        ensures
            ({
                let slots = old(self)@.with_reasons(old(self)@.undecided());
                let (next, decided) = old(self)@.force_decide_leaves(slots, slots.len() as int, now);
                r@ == decided && final(self)@ == next
            }),
    {
        let slots = self.undecided_departures();
        let mut decided: Vec<LeaveDirective> = Vec::new();
        let mut i: usize = 0;
        while i < slots.len()
            invariant
                i <= slots@.len(),
                self@ == old(self)@.force_decide_leaves(slots@, i as int, now).0,
                decided@ == old(self)@.force_decide_leaves(slots@, i as int, now).1,
            decreases slots@.len() - i,
        {
            let (slot, reason) = slots[i];
            if let Some(directive) = self.force_decide_leave(slot, reason, now) {
                decided.push(directive);
            }
            i += 1;
        }
        decided
    }

    /// Whether some departure's leave is not decided.
    pub fn has_undecided_departure(&self) -> (r: bool)
        ensures
            r == !(self@.undecided() =~= Set::empty()),
    {
        let n: usize = self.departures.len();
        let ghost keys = crate::ordmap::listing(self.departures@.dom());
        let mut i: usize = 0;
        while i < n
            invariant
                i <= n,
                n == keys.len(),
                keys == crate::ordmap::listing(self.departures@.dom()),
                self.departures@ == self@.departures,
                forall|j: int| 0 <= j < i ==> self@.decided_leaves.contains_key(#[trigger] keys[j]),
            decreases n - i,
        {
            let slot = self.departures.key_at(i);
            if !self.decided_leaves.contains_key(slot) {
                assert(self@.undecided().contains(slot));
                return true;
            }
            i += 1;
        }
        assert(self@.undecided() =~= Set::empty()) by {
            assert forall|s: SlotId| !self@.undecided().contains(s) by {
                if self@.undecided().contains(s) {
                    assert(self.departures@.dom().contains(s));
                    assert(keys.contains(s));
                }
            }
        }
        false
    }

    /// Whether some held departure on this relay may still be undone by a reconnect.
    pub fn has_reconnectable_departure(&self, held: &OrdSet<SlotId>) -> (r: bool)
        ensures
            r == self@.has_reconnectable_departure(held@),
    {
        let n: usize = self.departures.len();
        let ghost keys = crate::ordmap::listing(self.departures@.dom());
        let mut i: usize = 0;
        while i < n
            invariant
                i <= n,
                n == keys.len(),
                keys == crate::ordmap::listing(self.departures@.dom()),
                self.departures@ == self@.departures,
                forall|j: int|
                    0 <= j < i ==> !(!self@.decided_leaves.contains_key(#[trigger] keys[j]) && self@.admits_slot(keys[j])
                        && held@.contains(keys[j])),
            decreases n - i,
        {
            let slot = self.departures.key_at(i);
            if !self.decided_leaves.contains_key(slot) && self.admits_slot(slot) && held.contains(slot) {
                assert(self@.departures.contains_key(slot));
                return true;
            }
            i += 1;
        }
        assert forall|s: SlotId| #[trigger] self@.departures.contains_key(s) implies !(!self@.decided_leaves.contains_key(s)
            && self@.admits_slot(s) && held@.contains(s)) by {
            assert(self.departures@.dom().contains(s));
            assert(keys.contains(s));
        }
        false
    }

    /// Claims the session's one close report; true exactly once until it is reopened.
    pub fn claim_close_report(&mut self) -> (r: bool)
        ensures
            r == !old(self)@.close_reported,
            final(self)@ == (MakerView { close_reported: true, ..old(self)@ }),
    {
        let first = !self.close_reported;
        self.close_reported = true;
        first
    }

    /// Makes the close report claimable again, because the session is served again.
    pub fn reopen_close_report(&mut self)
        ensures
            final(self)@ == (MakerView { close_reported: false, ..old(self)@ }),
    {
        self.close_reported = false;
    }

    /// Records a departure without deciding a leave for it.
    pub fn record_departure(&mut self, slot: SlotId, stamps: DepartureStamps, reason: u32)
        ensures
            final(self)@ == old(self)@.note_departure(slot, stamps@, reason, None).forgetting(slot),
    {
        self.note_departure(slot, stamps, reason, None);
        self.forget_delivery(slot);
    }

    /// Records a departure of one connection generation; refused where the slot is known
    /// by another.
    #[must_use]
    pub fn record_departure_for_epoch(
        &mut self,
        slot: SlotId,
        stamps: DepartureStamps,
        reason: u32,
        connection_epoch: Option<u64>,
    ) -> (r: bool)
        ensures
            r == old(self)@.down_accepted(slot, connection_epoch),
            final(self)@ == old(self)@.record_departure_for_epoch(slot, stamps@, reason, connection_epoch),
    {
        if !self.mark_connection_down(slot, connection_epoch) {
            return false;
        }
        self.note_departure(slot, stamps, reason, connection_epoch);
        self.forget_delivery(slot);
        true
    }

    /// Folds another observation into the record of a departure whose leave is decided.
    pub(crate) fn merge_terminal_departure(&mut self, slot: SlotId, stamps: DepartureStamps, reason: u32)
        ensures
            final(self)@ == old(self)@.note_departure(slot, stamps@, reason, None).forgetting(slot),
    {
        self.record_departure(slot, stamps, reason);
    }

    /// Notes that a connection generation is gone; refused where the slot is known by
    /// another.
    pub(crate) fn mark_connection_down(&mut self, slot: SlotId, observed: Option<u64>) -> (r: bool)
        ensures
            r == old(self)@.down_accepted(slot, observed),
            final(self)@ == old(self)@.mark_connection_down(slot, observed),
    {
        let current = match self.connection_states.get(slot) {
            Some(state) => Some(*state),
            None => None,
        };
        match (current, observed) {
            (None, None) => true,
            (None, Some(epoch)) => {
                self.connection_states.insert(slot, ConnectionState::Down(epoch));
                true
            },
            (Some(ConnectionState::Up(current)), Some(epoch)) => {
                if current == epoch {
                    self.connection_states.insert(slot, ConnectionState::Down(epoch));
                    true
                } else {
                    false
                }
            },
            (Some(ConnectionState::Down(current)), Some(epoch)) => {
                if current == epoch {
                    assert(self@.connections =~= self@.connections.insert(slot, ConnectionState::Down(epoch)));
                    true
                } else {
                    false
                }
            },
            (Some(_), None) => false,
        }
    }

    /// Seeds a departure known elsewhere as already decided.
    pub fn seed_departed(
        &mut self,
        slot: SlotId,
        kind: DepartureKind,
        final_turn_count: Option<u64>,
        finalized: bool,
        now: Instant,
    ) -> (r: Option<LeaveDirective>)
        ensures
            r == old(self)@.seed_directive(slot, kind, final_turn_count, finalized),
            final(self)@ == old(self)@.seed_departed(slot, kind, final_turn_count, finalized, now),
    {
        let dropped = matches!(kind, DepartureKind::Dropped);
        let finalized = dropped && finalized && self.finalized_drops_enabled;
        let final_turn_count: Option<u64> = if dropped && !finalized { None } else { final_turn_count };
        let reason: u32 = if dropped { LEAVE_REASON_DROPPED } else { LEAVE_REASON_LEFT };
        let stamps = DepartureStamps {
            last_frame: None,
            reachable_frame: None,
            result: None,
            final_turn_count,
            finalized,
        };
        self.note_departure(slot, stamps, reason, None);
        if self.decided_leaves.contains_key(slot) {
            return None;
        }
        let base: u32 = match self.session_frame_count() {
            Some(f) => f,
            None => 0,
        };
        let directive = LeaveDirective {
            finalized: finalized && final_turn_count.is_some(),
            slot: slot.0 as u32,
            reason,
            apply_at_frame: base.saturating_add(1),
            leave_seq: self.next_leave_seq.saturating_add(1),
            final_turn_count,
        };
        self.enter_leave(slot, directive, now);
        Some(directive)
    }

    /// Whether `slot`'s connection is known to be up.
    pub(crate) fn connection_is_up(&self, slot: SlotId) -> (r: bool)
        ensures
            r == self@.connection_is_up(slot),
    {
        match self.connection_states.get(slot) {
            Some(ConnectionState::Up(_)) => true,
            _ => false,
        }
    }

    /// The connection generation that authored `slot`'s departure.
    pub(crate) fn departure_epoch(&self, slot: SlotId) -> (r: Option<u64>)
        ensures
            r == self@.departure_epoch(slot),
    {
        match self.departures.get(slot) {
            Some(d) => d.connection_epoch,
            None => None,
        }
    }

    /// Seals `slot`'s generation against readmission so that its turn count can be read,
    /// or says why not.
    pub(crate) fn seal_for_finalize(&mut self, slot: SlotId, requested_epoch: Option<u64>) -> (r: Result<(), FinalizeOutcome>)
        ensures
            r == match old(self)@.seal_refusal(slot, requested_epoch) {
                Some(outcome) => Err(outcome),
                None => Ok(()),
            },
            final(self)@ == old(self)@.seal_for_finalize(slot, requested_epoch),
    {
        if let Some(decided) = self.decided_leaves.get(slot) {
            let outcome = match (decided.finalized, decided.final_turn_count) {
                (true, Some(final_turn_count)) => FinalizeOutcome::Finalized { final_turn_count },
                _ => FinalizeOutcome::RejectedLive,
            };
            return Err(outcome);
        }
        if self.connection_is_up(slot) {
            return Err(FinalizeOutcome::RejectedLive);
        }
        let recorded = self.departure_epoch(slot);
        let same = match (recorded, requested_epoch) {
            (Some(a), Some(b)) => a == b,
            (None, None) => true,
            _ => false,
        };
        if !same {
            return Err(FinalizeOutcome::RejectedLive);
        }
        if self.rehomed_homes.contains(slot) || !self.leave_schedulable(slot) {
            return Err(FinalizeOutcome::RejectedNoCursor);
        }
        self.finalizing_drops.insert(slot);
        Ok(())
    }

    /// Records a sealed slot's turn count, or lifts the seal where there is none.
    pub(crate) fn finish_finalize(&mut self, slot: SlotId, count: Option<u64>) -> (r: FinalizeOutcome)
        ensures
            r == finish_outcome(count),
            final(self)@ == old(self)@.finish_finalize(slot, count),
    {
        match count {
            Some(final_turn_count) => {
                let stamps = DepartureStamps {
                    last_frame: None,
                    reachable_frame: None,
                    result: None,
                    final_turn_count: Some(final_turn_count),
                    finalized: true,
                };
                self.note_departure(slot, stamps, LEAVE_REASON_DROPPED, None);
                FinalizeOutcome::Finalized { final_turn_count }
            },
            None => {
                self.finalizing_drops.remove(slot);
                FinalizeOutcome::RejectedNoCursor
            },
        }
    }

    /// Keeps the end-of-game result `slot` reported; true where it is the first valid one.
    #[must_use]
    pub fn record_result(&mut self, slot: SlotId, echo: ResultEcho) -> (r: bool)
        ensures
            r == (crate::wire::valid_payload(echo@.payload) && !old(self)@.results.contains_key(slot)),
            final(self)@ == if r {
                MakerView { results: old(self)@.results.insert(slot, echo@), ..old(self)@ }
            } else {
                old(self)@
            },
    {
        if !result_payload_is_valid(&echo.payload) {
            return false;
        }
        if self.results.contains_key(slot) {
            return false;
        }
        self.results.insert(slot, echo);
        true
    }

    /// The result `slot` reported.
    pub fn result_for(&self, slot: SlotId) -> (r: Option<&ResultEcho>)
        ensures
            r is Some == self@.results.contains_key(slot),
            r is Some ==> (*r->0)@ == self@.results[slot],
    {
        self.results.get(slot)
    }
}

} // verus!
