//! Leaves, for any session of the registry.
use crate::ids::SessionKey;
use crate::ids::SessionKeyView;
use crate::ids::SlotId;
use crate::maker::departure::normalize_observed_leave;
use crate::maker::departure::RecordedDeparture;
use crate::notice::EventView;
use crate::notice::FlightEvent;
use crate::notice::NoticeView;
use crate::notice::RelayNotice;
use crate::ordmap::OrdSet;
use crate::registry::DecisionMakers;
use crate::registry::RegistryView;
use crate::time::Instant;
use crate::wire::LeaveDirective;
use vstd::prelude::*;

verus! {

impl RegistryView {
    /// A leave observed on the mesh taken in; the first for its slot is reported.
    pub open spec fn observe_leave(self, key: SessionKeyView, leave: LeaveDirective, now: Instant) -> RegistryView {
        match self.maker(key) {
            None => self,
            Some(m) => {
                let next = self.with_maker(key, m.observe_leave(leave, now));
                let kept = crate::maker::departure::normalized_leave(leave, m.finalized_drops_enabled);
                if m.leave_is_new(leave) {
                    next.noticing(NoticeView::Departure(next.departure_notice(key, kept)))
                } else {
                    next
                }
            },
        }
    }

    /// A leave decided where this relay is the authority, reported and recorded.
    pub open spec fn decide_leave(self, key: SessionKeyView, slot: SlotId, reason: u32, now: Instant) -> RegistryView {
        match self.maker(key) {
            None => self,
            Some(m) => {
                let next = self.with_maker(key, m.decide_leave(slot, reason, now));
                match m.leave_decision(slot, reason) {
                    Some(directive) => next.announcing(key, directive),
                    None => next,
                }
            },
        }
    }
}

impl DecisionMakers {
    /// The highest frame that every survivor of `slot` had provably executed.
    pub fn reachable_frame(&self, key: &SessionKey, slot: SlotId) -> (r: Option<u32>)
        ensures
            match self@.maker(key@) {
                Some(m) => crate::maker::authority::is_reachable(m.slots, slot, m.bounds.max, r),
                None => r is None,
            },
    {
        match self.makers.get(key) {
            Some(maker) => maker.reachable_frame(slot),
            None => None,
        }
    }

    /// Whether `slot`'s leave is decided.
    pub fn leave_decided(&self, key: &SessionKey, slot: SlotId) -> (r: bool)
        ensures
            r == match self@.maker(key@) {
                Some(m) => m.decided_leaves.contains_key(slot),
                None => false,
            },
    {
        match self.makers.get(key) {
            Some(maker) => maker.leave_decided(slot),
            None => false,
        }
    }

    /// Whether a leave of `slot` decided now would have a frame to be scheduled from.
    pub fn leave_schedulable(&self, key: &SessionKey, slot: SlotId) -> (r: bool)
        ensures
            r == match self@.maker(key@) {
                Some(m) => m.leave_schedulable(slot),
                None => false,
            },
    {
        match self.makers.get(key) {
            Some(maker) => maker.leave_schedulable(slot),
            None => false,
        }
    }

    /// Takes in a leave that another relay decided, reporting the first for its slot.
    #[must_use]
    pub fn observe_leave(&mut self, key: &SessionKey, leave: &LeaveDirective, now: Instant) -> (r: bool)
        ensures
            r == match old(self)@.maker(key@) {
                Some(m) => m.leave_is_new(*leave),
                None => false,
            },
            final(self)@ == old(self)@.observe_leave(key@, *leave, now),
    {
        let kept = match self.makers.get_mut(key) {
            Some(maker) => {
                let kept = normalize_observed_leave(leave, maker.finalized_drops_enabled);
                if maker.observe_leave(leave, now) {
                    Some(kept)
                } else {
                    None
                }
            },
            None => None,
        };
        if let Some(kept) = kept {
            let notice = self.departure_notice(key, &kept);
            self.emit_notice(RelayNotice::Departure(notice));
            true
        } else {
            false
        }
    }

    /// Whether this relay would admit `slot`; an unknown session admits any.
    pub fn admits_slot(&self, key: &SessionKey, slot: SlotId) -> (r: bool)
        ensures
            r == match self@.maker(key@) {
                Some(m) => m.admits_slot(slot),
                None => true,
            },
    {
        match self.makers.get(key) {
            Some(maker) => maker.admits_slot(slot),
            None => true,
        }
    }

    /// Whether a departure is recorded for `slot`.
    pub fn has_departure(&self, key: &SessionKey, slot: SlotId) -> (r: bool)
        ensures
            r == match self@.maker(key@) {
                Some(m) => m.departures.contains_key(slot),
                None => false,
            },
    {
        match self.makers.get(key) {
            Some(maker) => maker.has_departure(slot),
            None => false,
        }
    }

    /// Undoes `slot`'s departure because its client returned.
    pub fn reinstate_slot(&mut self, key: &SessionKey, slot: SlotId, now: Instant) -> (r: bool)
        ensures
            match old(self)@.maker(key@) {
                Some(m) => r == m.reinstatable(slot) && final(self)@ == old(self)@.with_maker(
                    key@,
                    m.reinstate_slot(slot, now),
                ),
                None => !r && final(self)@ == old(self)@,
            },
    {
        match self.makers.get_mut(key) {
            Some(maker) => maker.reinstate_slot(slot, now),
            None => false,
        }
    }

    /// The slots whose leave is decided, in ascending order.
    pub fn decided_slots(&self, key: &SessionKey) -> (r: Vec<SlotId>)
        ensures
            r@ == match self@.maker(key@) {
                Some(m) => crate::ordmap::listing(m.decided_leaves.dom()),
                None => Seq::empty(),
            },
    {
        match self.makers.get(key) {
            Some(maker) => maker.decided_slots(),
            None => Vec::new(),
        }
    }

    /// Reports that this relay serves the session no longer, and hands out the end of its
    /// flight record. That entry ends a record that already exists and begins none: whoever
    /// keeps the records drops it where nothing of the session is recorded, or its record
    /// was flushed by an earlier close.
    pub fn session_closed(&mut self, key: &SessionKey)
        ensures
            final(self)@ == old(self)@.noticing(
                NoticeView::SessionClosed { tenant: key@.tenant, session: key@.session },
            ).recording(key@, EventView::SessionClosed { sealed: old(self)@.makers.contains_key(key@) }),
    {
        let sealed = self.makers.contains_key(key);
        self.emit_notice(RelayNotice::SessionClosed { tenant: key.tenant.duplicate(), session: key.session });
        self.record_event(key, FlightEvent::SessionClosed { sealed });
    }

    /// Everything known of a session's departures and leaves, in ascending slot order.
    pub fn leave_reconcile(&self, key: &SessionKey) -> (r: (Vec<RecordedDeparture>, Vec<LeaveDirective>))
        ensures
            match self@.maker(key@) {
                Some(m) => {
                    &&& r.0@.map_values(|d: RecordedDeparture| crate::maker::departure::recorded_view(d))
                        == crate::ordmap::listing(m.departures.dom()).map_values(|s: SlotId| m.announced(s))
                    &&& r.1@ == crate::ordmap::listing(m.decided_leaves.dom()).map_values(
                        |s: SlotId| m.decided_leaves[s],
                    )
                },
                None => r.0@.len() == 0 && r.1@.len() == 0,
            },
    {
        match self.makers.get(key) {
            Some(maker) => maker.leave_reconcile(),
            None => (Vec::new(), Vec::new()),
        }
    }

    /// Forgets a session and what it is called outside.
    pub fn deregister_maker(&mut self, key: &SessionKey)
        ensures
            final(self)@ == (RegistryView {
                makers: old(self)@.makers.remove(key@),
                refs: old(self)@.refs.remove(key@),
                ..old(self)@
            }),
    {
        let _gone = self.makers.remove(key);
        self.forget_session_refs(key);
    }

    /// Records `slot`'s departure and, on the authority, decides its leave, reporting and
    /// recording it.
    pub fn decide_leave(&mut self, key: &SessionKey, slot: SlotId, reason: u32, now: Instant) -> (r: Option<LeaveDirective>)
        ensures
            r == match old(self)@.maker(key@) {
                Some(m) => m.leave_decision(slot, reason),
                None => None,
            },
            final(self)@ == old(self)@.decide_leave(key@, slot, reason, now),
    {
        let decided = match self.makers.get_mut(key) {
            Some(maker) => maker.decide_leave(slot, reason, now),
            None => None,
        };
        if let Some(directive) = decided {
            self.announce(key, &directive);
        }
        decided
    }

    /// Whether some departure's leave is not decided.
    pub fn has_undecided_departure(&self, key: &SessionKey) -> (r: bool)
        ensures
            r == match self@.maker(key@) {
                Some(m) => !(m.undecided() =~= Set::empty()),
                None => false,
            },
    {
        match self.makers.get(key) {
            Some(maker) => maker.has_undecided_departure(),
            None => false,
        }
    }

    /// Whether some held departure on this relay may still be undone by a reconnect.
    pub fn has_reconnectable_departure(&self, key: &SessionKey, held: &OrdSet<SlotId>) -> (r: bool)
        ensures
            r == match self@.maker(key@) {
                Some(m) => m.has_reconnectable_departure(held@),
                None => false,
            },
    {
        match self.makers.get(key) {
            Some(maker) => maker.has_reconnectable_departure(held),
            None => false,
        }
    }

    /// Whether finalized drops are enabled for the session.
    pub fn finalized_drops_enabled(&self, key: &SessionKey) -> (r: bool)
        ensures
            r == match self@.maker(key@) {
                Some(m) => m.finalized_drops_enabled,
                None => false,
            },
    {
        match self.makers.get(key) {
            Some(maker) => maker.finalized_drops_enabled,
            None => false,
        }
    }

    /// Whether `slot` is known to be homed here.
    pub fn strictly_homes(&self, key: &SessionKey, slot: SlotId) -> (r: bool)
        ensures
            r == match self@.maker(key@) {
                Some(m) => m.homed.contains(slot),
                None => false,
            },
    {
        match self.makers.get(key) {
            Some(maker) => maker.strictly_homes(slot),
            None => false,
        }
    }
}

} // verus!
