//! Link conditions and connection generations.
//!
//! A slot's connection is known by its epoch. An epoch that was superseded or went down
//! is never admitted again.
use crate::ids::SlotId;
use crate::law::MAX_INGEST_RTT_US;
use crate::maker::DecisionMaker;
use crate::maker::MakerView;
use crate::ordmap::OrdSet;
use crate::slot::ConnectionActivation;
use crate::slot::ConnectionState;
use crate::slot::CounterUpdate;
use crate::slot::ReconnectAdmission;
use crate::slot::ReconnectTransition;
use crate::slot::SlotView;
use crate::time::Instant;
use crate::wire::Decision;
use crate::wire::LinkConditions;
use crate::wire::SlotConditions;
use vstd::prelude::*;

verus! {

impl SlotView {
    /// Whether a sample's RTT is fresh: the counters moved, or it differs from the last.
    pub open spec fn admits_rtt(self, update: CounterUpdate, rtt_us: u32) -> bool {
        match update {
            CounterUpdate::NonAdvancing => self.last_sender_rtt_us != Some(rtt_us),
            CounterUpdate::Stale => false,
            _ => true,
        }
    }

    /// One sample of the slot's link conditions taken in.
    pub open spec fn sampled(self, c: SlotConditions, interval: u32, span: u32, mesh_rtt_us: u32, now: Instant) -> SlotView {
        let counted = self.update_counters(c.lost_packets, c.sent_packets, interval, span, now);
        let rtt_us = if c.rtt_us <= MAX_INGEST_RTT_US { c.rtt_us } else { MAX_INGEST_RTT_US };
        if counted.admits_rtt(self.counter_update(c.lost_packets, c.sent_packets, now), rtt_us) {
            SlotView {
                rtts: crate::law::rtt_push(counted.rtts, rtt_us),
                last_sender_rtt_us: Some(rtt_us),
                mesh_rtt_us,
                ..counted
            }
        } else {
            SlotView { mesh_rtt_us, ..counted }
        }
    }
}

impl MakerView {
    /// Whether conditions are taken in: of a slot that has not departed, from the
    /// connection generation it is up with, or without any where none is known.
    pub open spec fn takes_conditions(self, c: SlotConditions) -> bool {
        let slot = SlotId(c.slot as u8);
        &&& c.slot <= 255
        &&& !self.departures.contains_key(slot)
        &&& if self.connections.contains_key(slot) {
            c.connection_epoch is Some && self.connections[slot] == ConnectionState::Up(c.connection_epoch->0)
        } else {
            c.connection_epoch is None
        }
    }

    /// One slot's conditions taken in.
    pub open spec fn ingest_one(self, c: SlotConditions, mesh_rtt_us: u32, now: Instant) -> MakerView {
        let slot = SlotId(c.slot as u8);
        if self.takes_conditions(c) {
            self.with_slot(
                slot,
                self.slot_or_fresh(slot).sampled(
                    c,
                    self.law.spec_loss_snapshot_interval(),
                    self.law.spec_blackout_run_bucket_span(),
                    mesh_rtt_us,
                    now,
                ),
            )
        } else {
            self
        }
    }

    /// The first `n` conditions taken in, in order.
    pub open spec fn ingest_upto(self, conditions: Seq<SlotConditions>, mesh_rtt_us: u32, n: int, now: Instant) -> MakerView
        decreases n,
    {
        if n <= 0 {
            self
        } else {
            self.ingest_upto(conditions, mesh_rtt_us, n - 1, now).ingest_one(conditions[n - 1], mesh_rtt_us, now)
        }
    }

    /// Conditions taken in and, on the authority, the control law run on them.
    pub open spec fn ingest_slots(self, conditions: Seq<SlotConditions>, mesh_rtt_us: u32, now: Instant) -> (
        MakerView,
        Option<Decision>,
    ) {
        let ingested = self.ingest_upto(conditions, mesh_rtt_us, conditions.len() as int, now);
        if self.is_authority() { ingested.decide(now) } else { (ingested, None) }
    }

    pub open spec fn epoch_retired(self, slot: SlotId, epoch: u64) -> bool {
        self.retired.contains_key(slot) && self.retired[slot].contains(epoch)
    }

    pub open spec fn connection(self, slot: SlotId) -> Option<ConnectionState> {
        if self.connections.contains_key(slot) { Some(self.connections[slot]) } else { None }
    }

    /// Whether `slot` is up, or can come up, with generation `epoch`.
    pub open spec fn epoch_activates(self, slot: SlotId, epoch: u64) -> bool {
        &&& !self.departures.contains_key(slot)
        &&& !self.decided_leaves.contains_key(slot)
        &&& !self.epoch_retired(slot, epoch)
        &&& self.connection(slot) != Some(ConnectionState::Down(epoch))
    }

    /// The superseded generation retired.
    pub open spec fn retiring(self, slot: SlotId) -> MakerView {
        match self.connection(slot) {
            Some(superseded) => {
                let retired = if self.retired.contains_key(slot) { self.retired[slot] } else { Set::empty() };
                MakerView { retired: self.retired.insert(slot, retired.insert(superseded.spec_epoch())), ..self }
            },
            None => self,
        }
    }

    /// The slot's link conditions begun anew.
    pub open spec fn relinked(self, slot: SlotId, now: Instant) -> MakerView {
        if self.slots.contains_key(slot) {
            self.with_slot(
                slot,
                SlotView { connection_up_at: Some(now), ..self.slots[slot].reset_link_conditions() },
            )
        } else {
            self
        }
    }

    /// `slot` up with generation `epoch`, where it can be.
    pub open spec fn activate_connection_epoch(self, slot: SlotId, epoch: u64, now: Instant) -> MakerView {
        if !self.epoch_activates(slot, epoch) || self.connection(slot) == Some(ConnectionState::Up(epoch)) {
            self
        } else {
            let retired = self.retiring(slot);
            MakerView {
                connections: self.connections.insert(slot, ConnectionState::Up(epoch)),
                ..retired
            }.relinked(slot, now)
        }
    }

    /// The generation a home client's conditions name brought up.
    pub open spec fn activate_one(self, c: SlotConditions, now: Instant) -> MakerView {
        if c.slot <= 255 && c.connection_epoch is Some {
            self.activate_connection_epoch(SlotId(c.slot as u8), c.connection_epoch->0, now)
        } else {
            self
        }
    }

    pub open spec fn activate_upto(self, conditions: Seq<SlotConditions>, n: int, now: Instant) -> MakerView
        decreases n,
    {
        if n <= 0 {
            self
        } else {
            self.activate_upto(conditions, n - 1, now).activate_one(conditions[n - 1], now)
        }
    }

    pub open spec fn activate_local_epochs(self, conditions: Seq<SlotConditions>, now: Instant) -> MakerView {
        self.activate_upto(conditions, conditions.len() as int, now)
    }

    /// What a report that `observed` is up would do.
    pub open spec fn connection_activation(self, slot: SlotId, observed: Option<u64>) -> ConnectionActivation {
        if self.decided_leaves.contains_key(slot) || (observed is Some && self.epoch_retired(slot, observed->0)) {
            ConnectionActivation::Rejected
        } else {
            match (self.connection(slot), observed) {
                (None, None) => if self.departures.contains_key(slot) {
                    ConnectionActivation::Replacement
                } else {
                    ConnectionActivation::Current
                },
                (None, Some(_)) => ConnectionActivation::Replacement,
                (Some(current), Some(epoch)) => if current == ConnectionState::Up(epoch) {
                    ConnectionActivation::Current
                } else if current == ConnectionState::Down(epoch) {
                    ConnectionActivation::Rejected
                } else {
                    ConnectionActivation::Replacement
                },
                (Some(_), None) => ConnectionActivation::Rejected,
            }
        }
    }

    /// Whether a connection-up report is admitted.
    pub open spec fn up_admitted(self, slot: SlotId, observed: Option<u64>) -> bool {
        match observed {
            Some(epoch) => self.epoch_activates(slot, epoch),
            None => !self.departures.contains_key(slot) && !self.decided_leaves.contains_key(slot)
                && !self.connections.contains_key(slot),
        }
    }

    pub open spec fn admit_connection_up(self, slot: SlotId, observed: Option<u64>, now: Instant) -> MakerView {
        match observed {
            Some(epoch) => self.activate_connection_epoch(slot, epoch, now),
            None => self,
        }
    }

    /// Whether a reconnecting client is let back in: not once its leave is decided, it was
    /// evicted, its drop is being finalized or its generation is spent; and a departed one
    /// only while its drop is held.
    pub open spec fn readmits(self, slot: SlotId, observed: Option<u64>, hold_pending: bool) -> bool {
        &&& !self.silence_evicted.contains(slot)
        &&& !self.finalizing.contains(slot)
        &&& self.connection_activation(slot, observed) != ConnectionActivation::Rejected
        &&& self.departures.contains_key(slot) ==> hold_pending
    }

    /// The answer to a reconnecting client. A decided leave spends the hold as much as a
    /// readmission does.
    pub open spec fn reconnect_transition(self, slot: SlotId, observed: Option<u64>, hold_pending: bool) -> ReconnectTransition {
        if self.readmits(slot, observed, hold_pending) {
            ReconnectTransition {
                admission: ReconnectAdmission::Admitted { reinstated: self.departures.contains_key(slot) },
                consume_hold: hold_pending,
            }
        } else {
            ReconnectTransition {
                admission: ReconnectAdmission::Rejected,
                consume_hold: hold_pending && self.decided_leaves.contains_key(slot),
            }
        }
    }

    pub open spec fn resolve_reconnect(self, slot: SlotId, observed: Option<u64>, hold_pending: bool, now: Instant) -> MakerView {
        if self.readmits(slot, observed, hold_pending) {
            self.reinstate_slot(slot, now).admit_connection_up(slot, observed, now)
        } else {
            self
        }
    }
}

impl DecisionMaker {
    /// Takes home clients' conditions in and, on the authority, runs the control law.
    pub fn ingest_local(&mut self, conditions: &LinkConditions, now: Instant) -> (r: Option<Decision>)
        ensures
            r == old(self)@.activate_local_epochs(conditions.slots@, now).ingest_slots(conditions.slots@, 0, now).1,
            final(self)@ == old(self)@.activate_local_epochs(conditions.slots@, now).ingest_slots(
                conditions.slots@,
                0,
                now,
            ).0,
    {
        self.activate_local_epochs(&conditions.slots, now);
        self.ingest_slots(&conditions.slots, 0, now)
    }

    /// Takes one home client's conditions in and, on the authority, runs the control law.
    pub fn ingest_local_condition(&mut self, conditions: &SlotConditions, now: Instant) -> (r: Option<Decision>)
        ensures
            r == old(self)@.activate_local_epochs(seq![*conditions], now).ingest_slots(seq![*conditions], 0, now).1,
            final(self)@ == old(self)@.activate_local_epochs(seq![*conditions], now).ingest_slots(
                seq![*conditions],
                0,
                now,
            ).0,
    {
        let mut one: Vec<SlotConditions> = Vec::new();
        one.push(*conditions);
        assert(one@ =~= seq![*conditions]);
        self.activate_local_epochs(&one, now);
        self.ingest_slots(&one, 0, now)
    }

    /// Takes a peer relay's conditions in and, on the authority, runs the control law.
    pub fn ingest_remote(&mut self, conditions: &LinkConditions, mesh_rtt_us: u32, now: Instant) -> (r: Option<Decision>)
        ensures
            r == old(self)@.ingest_slots(conditions.slots@, mesh_rtt_us, now).1,
            final(self)@ == old(self)@.ingest_slots(conditions.slots@, mesh_rtt_us, now).0,
    {
        self.ingest_slots(&conditions.slots, mesh_rtt_us, now)
    }

    /// Takes one slot's conditions in.
    fn ingest_condition(&mut self, c: SlotConditions, mesh_rtt_us: u32, now: Instant)
        ensures
            final(self)@ == old(self)@.ingest_one(c, mesh_rtt_us, now),
    {
        if c.slot > 255 {
            return;
        }
        let slot = SlotId(c.slot as u8);
        if self.departures.contains_key(slot) {
            return;
        }
        let current = match (self.connection_states.get(slot), c.connection_epoch) {
            (Some(ConnectionState::Up(current)), Some(observed)) => *current == observed,
            (None, None) => true,
            _ => false,
        };
        if !current {
            return;
        }
        let interval: u32 = self.law.loss_snapshot_interval();
        let span: u32 = self.law.blackout_run_bucket_span();
        let mut state = self.take_slot(slot);
        let ghost before = state@;
        let update = state.update_counters(c.lost_packets, c.sent_packets, interval, span, now);
        let rtt_us: u32 = if c.rtt_us <= MAX_INGEST_RTT_US { c.rtt_us } else { MAX_INGEST_RTT_US };
        let fresh_rtt = match update {
            CounterUpdate::NonAdvancing => match state.last_sender_rtt_us {
                Some(last) => last != rtt_us,
                None => true,
            },
            CounterUpdate::Stale => false,
            _ => true,
        };
        if fresh_rtt {
            state.rtt_window.push(rtt_us);
            state.last_sender_rtt_us = Some(rtt_us);
        }
        state.mesh_rtt_us = mesh_rtt_us;
        assert(state@ == before.sampled(c, interval, span, mesh_rtt_us, now));
        self.slots.insert(slot, state);
        assert(self@.slots =~= old(self)@.ingest_one(c, mesh_rtt_us, now).slots);
    }

    /// Takes conditions in and, on the authority, runs the control law.
    pub(crate) fn ingest_slots(&mut self, conditions: &Vec<SlotConditions>, mesh_rtt_us: u32, now: Instant) -> (r: Option<
        Decision,
    >)
        ensures
            r == old(self)@.ingest_slots(conditions@, mesh_rtt_us, now).1,
            final(self)@ == old(self)@.ingest_slots(conditions@, mesh_rtt_us, now).0,
    {
        let mut i: usize = 0;
        while i < conditions.len()
            invariant
                i <= conditions@.len(),
                self@ == old(self)@.ingest_upto(conditions@, mesh_rtt_us, i as int, now),
                self@.authority == old(self)@.authority,
            decreases conditions@.len() - i,
        {
            self.ingest_condition(conditions[i], mesh_rtt_us, now);
            i += 1;
        }
        if !self.is_authority() {
            return None;
        }
        self.decide(now)
    }

    /// Brings up the generations that home clients' conditions name.
    pub(crate) fn activate_local_epochs(&mut self, conditions: &Vec<SlotConditions>, now: Instant)
        ensures
            final(self)@ == old(self)@.activate_local_epochs(conditions@, now),
    {
        let mut i: usize = 0;
        while i < conditions.len()
            invariant
                i <= conditions@.len(),
                self@ == old(self)@.activate_upto(conditions@, i as int, now),
            decreases conditions@.len() - i,
        {
            let c = conditions[i];
            if c.slot <= 255 {
                if let Some(epoch) = c.connection_epoch {
                    let _up = self.activate_connection_epoch(SlotId(c.slot as u8), epoch, now);
                }
            }
            i += 1;
        }
    }

    fn is_epoch_retired(&self, slot: SlotId, epoch: u64) -> (r: bool)
        ensures
            r == self@.epoch_retired(slot, epoch),
    {
        match self.retired_connection_epochs.get(slot) {
            Some(retired) => retired.contains(epoch),
            None => false,
        }
    }

    fn connection(&self, slot: SlotId) -> (r: Option<ConnectionState>)
        ensures
            r == self@.connection(slot),
    {
        match self.connection_states.get(slot) {
            Some(state) => Some(*state),
            None => None,
        }
    }

    /// What a report that `observed` is up would do.
    pub(crate) fn connection_activation(&self, slot: SlotId, observed: Option<u64>) -> (r: ConnectionActivation)
        ensures
            r == self@.connection_activation(slot, observed),
    {
        if self.decided_leaves.contains_key(slot) {
            return ConnectionActivation::Rejected;
        }
        if let Some(epoch) = observed {
            if self.is_epoch_retired(slot, epoch) {
                return ConnectionActivation::Rejected;
            }
        }
        match (self.connection(slot), observed) {
            (None, None) => {
                if self.departures.contains_key(slot) {
                    ConnectionActivation::Replacement
                } else {
                    ConnectionActivation::Current
                }
            },
            (None, Some(_)) => ConnectionActivation::Replacement,
            (Some(ConnectionState::Up(current)), Some(epoch)) => {
                if current == epoch {
                    ConnectionActivation::Current
                } else {
                    ConnectionActivation::Replacement
                }
            },
            (Some(ConnectionState::Down(current)), Some(epoch)) => {
                if current == epoch {
                    ConnectionActivation::Rejected
                } else {
                    ConnectionActivation::Replacement
                }
            },
            (Some(_), None) => ConnectionActivation::Rejected,
        }
    }

    /// Admits a connection-up report, where it can be.
    pub(crate) fn admit_connection_up(&mut self, slot: SlotId, observed: Option<u64>, now: Instant) -> (r: bool)
        ensures
            r == old(self)@.up_admitted(slot, observed),
            final(self)@ == old(self)@.admit_connection_up(slot, observed, now),
    {
        match observed {
            Some(epoch) => self.activate_connection_epoch(slot, epoch, now),
            None => !self.departures.contains_key(slot) && !self.decided_leaves.contains_key(slot)
                && !self.connection_states.contains_key(slot),
        }
    }

    /// Brings `slot` up with generation `epoch`, where it can be. A repeated report of the
    /// same generation changes nothing.
    #[must_use]
    pub fn activate_connection_epoch(&mut self, slot: SlotId, epoch: u64, now: Instant) -> (r: bool)
        ensures
            r == old(self)@.epoch_activates(slot, epoch),
            final(self)@ == old(self)@.activate_connection_epoch(slot, epoch, now),
    {
        if self.departures.contains_key(slot) || self.decided_leaves.contains_key(slot) {
            return false;
        }
        if self.is_epoch_retired(slot, epoch) {
            return false;
        }
        let current = self.connection(slot);
        match current {
            Some(ConnectionState::Up(current)) => {
                if current == epoch {
                    return true;
                }
            },
            Some(ConnectionState::Down(current)) => {
                if current == epoch {
                    return false;
                }
            },
            None => {},
        }
        self.retire_superseded(slot);
        self.connection_states.insert(slot, ConnectionState::Up(epoch));
        self.relink(slot, now);
        true
    }

    /// Retires the generation the slot is known by, for a later one to take its place.
    fn retire_superseded(&mut self, slot: SlotId)
        ensures
            final(self)@ == old(self)@.retiring(slot),
    {
        if let Some(superseded) = self.connection(slot) {
            let mut retired = match self.retired_connection_epochs.remove(slot) {
                Some(retired) => retired,
                None => OrdSet::new(),
            };
            retired.insert(superseded.epoch());
            self.retired_connection_epochs.insert(slot, retired);
            assert(self@.retired =~= old(self)@.retiring(slot).retired);
        }
    }

    /// Begins the slot's link conditions anew.
    fn relink(&mut self, slot: SlotId, now: Instant)
        ensures
            final(self)@ == old(self)@.relinked(slot, now),
    {
        if let Some(state) = self.slots.remove(slot) {
            let mut state = state;
            state.reset_link_conditions();
            state.connection_up_at = Some(now);
            self.slots.insert(slot, state);
            assert(self@.slots =~= old(self)@.relinked(slot, now).slots);
        } else {
            assert(self@.slots =~= old(self)@.slots);
        }
    }

    /// Answers a reconnecting client, undoing its departure and bringing its connection up
    /// where it is let back in. `after_reinstate` runs between the two, and only where a
    /// departure was undone.
    pub(crate) fn resolve_reconnect_with<F: FnOnce()>(
        &mut self,
        slot: SlotId,
        observed: Option<u64>,
        hold_pending: bool,
        after_reinstate: F,
        now: Instant,
    ) -> (r: ReconnectTransition)
        requires
            after_reinstate.requires(()),
        ensures
            old(self)@.readmits(slot, observed, hold_pending) && old(self)@.departures.contains_key(slot)
                ==> after_reinstate.ensures((), ()),
            r == old(self)@.reconnect_transition(slot, observed, hold_pending),
            final(self)@ == old(self)@.resolve_reconnect(slot, observed, hold_pending, now),
    {
        if self.decided_leaves.contains_key(slot) {
            return ReconnectTransition { admission: ReconnectAdmission::Rejected, consume_hold: hold_pending };
        }
        if self.silence_evicted.contains(slot) || self.finalizing_drops.contains(slot) {
            return ReconnectTransition { admission: ReconnectAdmission::Rejected, consume_hold: false };
        }
        if self.connection_activation(slot, observed) == ConnectionActivation::Rejected {
            return ReconnectTransition { admission: ReconnectAdmission::Rejected, consume_hold: false };
        }
        let reinstated = self.departures.contains_key(slot);
        if reinstated && !hold_pending {
            return ReconnectTransition { admission: ReconnectAdmission::Rejected, consume_hold: false };
        }
        if reinstated {
            let _restored = self.reinstate_slot(slot, now);
            after_reinstate();
        }
        let admitted = self.admit_connection_up(slot, observed, now);
        assert(admitted);
        ReconnectTransition { admission: ReconnectAdmission::Admitted { reinstated }, consume_hold: hold_pending }
    }
}

} // verus!
