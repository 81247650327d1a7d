//! Departures, connection generations and results, for any session of the registry.
use crate::ids::SessionKey;
use crate::ids::SessionKeyView;
use crate::ids::SlotId;
use crate::maker::departure::DepartureStamps;
use crate::maker::leave::FinalizeOutcome;
use crate::maker::MakerView;
use crate::notice::NoticeView;
use crate::notice::RelayNotice;
use crate::registry::DecisionMakers;
use crate::registry::RegistryView;
use crate::slot::DepartureRecordOutcome;
use crate::slot::ReconnectAdmission;
use crate::slot::ReconnectTransition;
use crate::time::Instant;
use crate::wire::EchoView;
use crate::wire::LeaveDirective;
use crate::wire::ResultEcho;
use vstd::prelude::*;

verus! {

impl MakerView {
    /// What recording a departure of one generation comes to. A decided leave takes any
    /// further observation in.
    pub open spec fn departure_outcome(self, slot: SlotId, connection_epoch: Option<u64>) -> DepartureRecordOutcome {
        if self.decided_leaves.contains_key(slot) {
            DepartureRecordOutcome::Terminal
        } else if self.down_accepted(slot, connection_epoch) {
            DepartureRecordOutcome::Pending
        } else {
            DepartureRecordOutcome::Rejected
        }
    }

    pub open spec fn record_departure_outcome(
        self,
        slot: SlotId,
        stamps: crate::maker::departure::StampsView,
        reason: u32,
        connection_epoch: Option<u64>,
    ) -> MakerView {
        if self.decided_leaves.contains_key(slot) {
            self.note_departure(slot, stamps, reason, None).forgetting(slot)
        } else {
            self.record_departure_for_epoch(slot, stamps, reason, connection_epoch)
        }
    }

    /// A result with where the session stood when it arrived.
    pub open spec fn stamped_result(self, slot: SlotId, payload: Seq<u8>, now_ms: u64) -> EchoView {
        EchoView {
            payload,
            arrival_ms: now_ms,
            session_frame: self.session_frame_count(),
            slot_frame: crate::registry::frame_count(self.slot_frame(slot)),
        }
    }
}

impl RegistryView {
    /// A result recorded; the first valid one of a slot is reported.
    pub open spec fn record_result(self, key: SessionKeyView, slot: SlotId, payload: Seq<u8>, now_ms: u64) -> RegistryView {
        match self.maker(key) {
            None => self,
            Some(m) => if crate::wire::valid_payload(payload) && !m.results.contains_key(slot) {
                let echo = m.stamped_result(slot, payload, now_ms);
                self.with_maker(key, MakerView { results: m.results.insert(slot, echo), ..m }).noticing(
                    NoticeView::Result(self.result_notice(key, slot, echo)),
                )
            } else {
                self
            },
        }
    }

    /// Every departure left undecided force-decided, reported and recorded.
    pub open spec fn decide_abandoned_departures(self, key: SessionKeyView, now: Instant) -> RegistryView {
        match self.maker(key) {
            None => self,
            Some(m) => {
                let slots = m.with_reasons(m.undecided());
                let (next, decided) = m.force_decide_leaves(slots, slots.len() as int, now);
                self.with_maker(key, next).announcing_all(key, decided, decided.len() as int)
            },
        }
    }

    pub open spec fn abandoned_leaves(self, key: SessionKeyView, now: Instant) -> Seq<LeaveDirective> {
        match self.maker(key) {
            None => Seq::empty(),
            Some(m) => {
                let slots = m.with_reasons(m.undecided());
                m.force_decide_leaves(slots, slots.len() as int, now).1
            },
        }
    }
}

impl DecisionMakers {
    /// Records a departure without deciding a leave for it.
    pub fn record_departure(&mut self, key: &SessionKey, slot: SlotId, stamps: DepartureStamps, reason: u32)
        ensures
            final(self)@ == match old(self)@.maker(key@) {
                Some(m) => old(self)@.with_maker(
                    key@,
                    m.note_departure(slot, stamps@, reason, None).forgetting(slot),
                ),
                None => old(self)@,
            },
    {
        if let Some(maker) = self.makers.get_mut(key) {
            maker.record_departure(slot, stamps, reason);
        }
    }

    /// Records a departure of one connection generation; false where it is refused.
    #[must_use]
    pub fn record_departure_for_epoch(
        &mut self,
        key: &SessionKey,
        slot: SlotId,
        stamps: DepartureStamps,
        reason: u32,
        connection_epoch: Option<u64>,
    ) -> (r: bool)
        ensures
            match old(self)@.maker(key@) {
                Some(m) => {
                    &&& r == (m.departure_outcome(slot, connection_epoch) != DepartureRecordOutcome::Rejected)
                    &&& final(self)@ == old(self)@.with_maker(
                        key@,
                        m.record_departure_outcome(slot, stamps@, reason, connection_epoch),
                    )
                },
                None => r && final(self)@ == old(self)@,
            },
    {
        let outcome = self.record_departure_for_epoch_outcome(key, slot, stamps, reason, connection_epoch);
        outcome != DepartureRecordOutcome::Rejected
    }

    /// Records a departure of one connection generation, and says what it came to.
    #[must_use]
    pub fn record_departure_for_epoch_outcome(
        &mut self,
        key: &SessionKey,
        slot: SlotId,
        stamps: DepartureStamps,
        reason: u32,
        connection_epoch: Option<u64>,
    ) -> (r: DepartureRecordOutcome)
        ensures
            match old(self)@.maker(key@) {
                Some(m) => {
                    &&& r == m.departure_outcome(slot, connection_epoch)
                    &&& final(self)@ == old(self)@.with_maker(
                        key@,
                        m.record_departure_outcome(slot, stamps@, reason, connection_epoch),
                    )
                },
                None => r == DepartureRecordOutcome::Pending && final(self)@ == old(self)@,
            },
    {
        match self.makers.get_mut(key) {
            None => DepartureRecordOutcome::Pending,
            Some(maker) => {
                if maker.leave_decided(slot) {
                    maker.merge_terminal_departure(slot, stamps, reason);
                    DepartureRecordOutcome::Terminal
                } else if maker.record_departure_for_epoch(slot, stamps, reason, connection_epoch) {
                    DepartureRecordOutcome::Pending
                } else {
                    DepartureRecordOutcome::Rejected
                }
            },
        }
    }

    /// Brings `slot` up with generation `epoch`, where it can be.
    #[must_use]
    pub fn activate_connection_epoch(&mut self, key: &SessionKey, slot: SlotId, epoch: u64, now: Instant) -> (r: bool)
        ensures
            match old(self)@.maker(key@) {
                Some(m) => r == m.epoch_activates(slot, epoch) && final(self)@ == old(self)@.with_maker(
                    key@,
                    m.activate_connection_epoch(slot, epoch, now),
                ),
                None => !r && final(self)@ == old(self)@,
            },
    {
        match self.makers.get_mut(key) {
            Some(maker) => maker.activate_connection_epoch(slot, epoch, now),
            None => false,
        }
    }

    /// Answers a reconnecting client; an unknown session lets it in. `after_reinstate` runs
    /// where a departure was undone.
    pub fn resolve_reconnect<F: FnOnce()>(
        &mut self,
        key: &SessionKey,
        slot: SlotId,
        epoch: Option<u64>,
        hold_pending: bool,
        after_reinstate: F,
        now: Instant,
    ) -> (r: ReconnectTransition)
        requires
            after_reinstate.requires(()),
        ensures
            r.admission == (ReconnectAdmission::Admitted { reinstated: true }) ==> after_reinstate.ensures((), ()),
            match old(self)@.maker(key@) {
                Some(m) => r == m.reconnect_transition(slot, epoch, hold_pending) && final(self)@ == old(
                    self,
                )@.with_maker(key@, m.resolve_reconnect(slot, epoch, hold_pending, now)),
                None => r == (ReconnectTransition {
                    admission: ReconnectAdmission::Admitted { reinstated: false },
                    consume_hold: hold_pending,
                }) && final(self)@ == old(self)@,
            },
    {
        match self.makers.get_mut(key) {
            Some(maker) => maker.resolve_reconnect_with(slot, epoch, hold_pending, after_reinstate, now),
            None => ReconnectTransition {
                admission: ReconnectAdmission::Admitted { reinstated: false },
                consume_hold: hold_pending,
            },
        }
    }

    /// Notes that a connection generation is gone; an unknown session accepts any.
    #[must_use]
    pub fn mark_connection_down(&mut self, key: &SessionKey, slot: SlotId, epoch: Option<u64>) -> (r: bool)
        ensures
            match old(self)@.maker(key@) {
                Some(m) => r == m.down_accepted(slot, epoch) && final(self)@ == old(self)@.with_maker(
                    key@,
                    m.mark_connection_down(slot, epoch),
                ),
                None => r && final(self)@ == old(self)@,
            },
    {
        match self.makers.get_mut(key) {
            Some(maker) => maker.mark_connection_down(slot, epoch),
            None => true,
        }
    }

    /// Whether `epoch` is the connection generation `slot` is known by; in an unknown
    /// session any is.
    pub fn connection_epoch_matches(&self, key: &SessionKey, slot: SlotId, epoch: Option<u64>) -> (r: bool)
        ensures
            r == match self@.maker(key@) {
                Some(m) => m.connection_epoch_matches(slot, epoch),
                None => true,
            },
    {
        match self.makers.get(key) {
            Some(maker) => maker.connection_epoch_matches(slot, epoch),
            None => true,
        }
    }

    /// Forgets a slot's live state and link, unless a newer connection owns them.
    #[must_use]
    pub fn remove_slot_for_epoch(&mut self, key: &SessionKey, slot: SlotId, epoch: Option<u64>) -> (r: bool)
        ensures
            match old(self)@.maker(key@) {
                Some(m) => {
                    &&& r == m.connection_epoch_matches(slot, epoch)
                    &&& final(self)@ == old(self)@.with_maker(key@, if r { m.remove_slot(slot) } else { m })
                },
                None => !r && final(self)@ == old(self)@,
            },
    {
        match self.makers.get_mut(key) {
            Some(maker) => maker.remove_slot_for_epoch(slot, epoch),
            None => false,
        }
    }

    /// Keeps and reports the end-of-game result `slot` reported, where it is the first
    /// valid one.
    pub fn record_result(&mut self, key: &SessionKey, slot: SlotId, payload: Vec<u8>, now_ms: u64)
        ensures
            final(self)@ == old(self)@.record_result(key@, slot, payload@, now_ms),
    {
        let ghost before = self@;
        let kept = match self.makers.get_mut(key) {
            None => None,
            Some(maker) => {
                let echo = ResultEcho {
                    payload,
                    arrival_ms: now_ms,
                    session_frame: match maker.session_frame() {
                        Some(f) => Some(f.0),
                        None => None,
                    },
                    slot_frame: match maker.slot_frame(slot) {
                        Some(f) => Some(f.0),
                        None => None,
                    },
                };
                let copy = echo.duplicate();
                if maker.record_result(slot, echo) {
                    Some(copy)
                } else {
                    None
                }
            },
        };
        match kept {
            Some(echo) => {
                let notice = self.result_notice(key, slot, echo);
                self.emit_notice(RelayNotice::Result(notice));
            },
            None => {
                assert(self@.makers =~= before.makers);
            },
        }
    }

    /// The result `slot` reported.
    pub fn result_for(&self, key: &SessionKey, slot: SlotId) -> (r: Option<ResultEcho>)
        ensures
            crate::wire::echo_view(r) == match self@.maker(key@) {
                Some(m) => if m.results.contains_key(slot) { Some(m.results[slot]) } else { None },
                None => None,
            },
    {
        match self.makers.get(key) {
            Some(maker) => match maker.result_for(slot) {
                Some(echo) => Some(echo.duplicate()),
                None => None,
            },
            None => None,
        }
    }

    /// Seals a dropped slot's generation against readmission, so that its turn count can be
    /// read, or says why not.
    pub fn seal_for_finalize(&mut self, key: &SessionKey, slot: SlotId, requested_epoch: Option<u64>) -> (r: Result<
        (),
        FinalizeOutcome,
    >)
        ensures
            match old(self)@.maker(key@) {
                Some(m) => {
                    &&& r == match m.seal_refusal(slot, requested_epoch) {
                        Some(outcome) => Err(outcome),
                        None => Ok(()),
                    }
                    &&& final(self)@ == old(self)@.with_maker(key@, m.seal_for_finalize(slot, requested_epoch))
                },
                None => r == Err::<(), FinalizeOutcome>(FinalizeOutcome::RejectedNoCursor) && final(self)@ == old(self)@,
            },
    {
        match self.makers.get_mut(key) {
            Some(maker) => maker.seal_for_finalize(slot, requested_epoch),
            None => Err(FinalizeOutcome::RejectedNoCursor),
        }
    }

    /// Records a sealed slot's turn count, or lifts the seal where there is none.
    pub fn finish_finalize(&mut self, key: &SessionKey, slot: SlotId, count: Option<u64>) -> (r: FinalizeOutcome)
        ensures
            match old(self)@.maker(key@) {
                Some(m) => r == crate::maker::leave::finish_outcome(count) && final(self)@ == old(self)@.with_maker(
                    key@,
                    m.finish_finalize(slot, count),
                ),
                None => r == FinalizeOutcome::RejectedNoCursor && final(self)@ == old(self)@,
            },
    {
        match self.makers.get_mut(key) {
            Some(maker) => maker.finish_finalize(slot, count),
            None => FinalizeOutcome::RejectedNoCursor,
        }
    }

    /// Finalizes a drop: seals the slot's generation against readmission and only then reads
    /// its turn count through `read_cursor`.
    pub fn finalize_drop<F: FnOnce() -> Option<u64>>(
        &mut self,
        key: &SessionKey,
        slot: SlotId,
        requested_epoch: Option<u64>,
        read_cursor: F,
    ) -> (r: FinalizeOutcome)
        requires
            read_cursor.requires(()),
        ensures
            match old(self)@.maker(key@) {
                Some(m) => match m.seal_refusal(slot, requested_epoch) {
                    Some(outcome) => r == outcome && final(self)@ == old(self)@,
                    None => exists|count: Option<u64>| #[trigger]
                        read_cursor.ensures((), count) && r == crate::maker::leave::finish_outcome(count) && final(self)@
                            == old(self)@.with_maker(
                            key@,
                            m.seal_for_finalize(slot, requested_epoch).finish_finalize(slot, count),
                        ),
                },
                None => r == FinalizeOutcome::RejectedNoCursor && final(self)@ == old(self)@,
            },
    {
        let ghost before = self@;
        let sealed = self.seal_for_finalize(key, slot, requested_epoch);
        match sealed {
            Err(outcome) => {
                assert(self@.makers =~= before.makers);
                outcome
            },
            Ok(()) => {
                let count = read_cursor();
                let outcome = self.finish_finalize(key, slot, count);
                assert(self@.makers =~= before.with_maker(
                    key@,
                    before.makers[key@].seal_for_finalize(slot, requested_epoch).finish_finalize(slot, count),
                ).makers);
                outcome
            },
        }
    }

    /// The connection generation that authored `slot`'s departure.
    pub fn departure_epoch(&self, key: &SessionKey, slot: SlotId) -> (r: Option<u64>)
        ensures
            r == match self@.maker(key@) {
                Some(m) => m.departure_epoch(slot),
                None => None,
            },
    {
        match self.makers.get(key) {
            Some(maker) => maker.departure_epoch(slot),
            None => None,
        }
    }

    /// Whether the session is known.
    pub fn maker_exists(&self, key: &SessionKey) -> (r: bool)
        ensures
            r == self@.makers.contains_key(key@),
    {
        self.makers.contains_key(key)
    }

    /// Claims the session's one close report; nothing where the session is unknown.
    pub fn claim_close_report(&mut self, key: &SessionKey) -> (r: Option<bool>)
        ensures
            match old(self)@.maker(key@) {
                Some(m) => r == Some(!m.close_reported) && final(self)@ == old(self)@.with_maker(
                    key@,
                    MakerView { close_reported: true, ..m },
                ),
                None => r is None && final(self)@ == old(self)@,
            },
    {
        match self.makers.get_mut(key) {
            Some(maker) => Some(maker.claim_close_report()),
            None => None,
        }
    }

    /// Makes the session's close report claimable again.
    pub fn reopen_close_report(&mut self, key: &SessionKey)
        ensures
            final(self)@ == match old(self)@.maker(key@) {
                Some(m) => old(self)@.with_maker(key@, MakerView { close_reported: false, ..m }),
                None => old(self)@,
            },
    {
        if let Some(maker) = self.makers.get_mut(key) {
            maker.reopen_close_report();
        }
    }

    /// Decides every departure left undecided, to close out a session every player has
    /// abandoned, reporting and recording each.
    pub fn decide_abandoned_departures(&mut self, key: &SessionKey, now: Instant) -> (r: Vec<LeaveDirective>)
        ensures
            r@ == old(self)@.abandoned_leaves(key@, now),
            final(self)@ == old(self)@.decide_abandoned_departures(key@, now),
    {
        let decided = match self.makers.get_mut(key) {
            None => {
                return Vec::new();
            },
            Some(maker) => maker.force_decide_undecided(now),
        };
        self.announce_all(key, &decided);
        decided
    }
}

} // verus!
