//! Send-phase alignment, for any session of the registry.
use crate::ids::SessionKey;
use crate::ids::SlotId;
use crate::maker::MakerView;
use crate::registry::DecisionMakers;
use crate::time::Instant;
use vstd::prelude::*;

verus! {

impl DecisionMakers {
    /// Notes a home turn's arrival; the result is the delays to command.
    #[must_use]
    pub fn ingest_arrival_phase(&mut self, key: &SessionKey, slot: SlotId, seq: u64, received_at: Instant) -> (r: Vec<
        (SlotId, u32),
    >)
        ensures
            match old(self)@.maker(key@) {
                Some(m) => {
                    &&& r@ == if m.started {
                        m.phase.note_arrival(slot, seq, received_at).issued(received_at)
                    } else {
                        Seq::empty()
                    }
                    &&& final(self)@ == old(self)@.with_maker(key@, m.ingest_arrival_phase(slot, seq, received_at))
                },
                None => r@.len() == 0 && final(self)@ == old(self)@,
            },
    {
        match self.makers.get_mut(key) {
            Some(maker) => maker.ingest_arrival_phase(slot, seq, received_at),
            None => Vec::new(),
        }
    }

    /// The delay `slot` was last commanded.
    pub fn commanded_phase_delay(&self, key: &SessionKey, slot: SlotId) -> (r: Option<u32>)
        ensures
            r == match self@.maker(key@) {
                Some(m) => if m.phase.commanded.contains_key(slot) { Some(m.phase.commanded[slot]) } else { None },
                None => None,
            },
    {
        match self.makers.get(key) {
            Some(maker) => maker.commanded_phase_delay(slot),
            None => None,
        }
    }

    /// Takes `slot`'s acknowledgement of a commanded delay in.
    pub fn note_phase_applied(&mut self, key: &SessionKey, slot: SlotId, delay_us: u32, now: Instant)
        ensures
            final(self)@ == match old(self)@.maker(key@) {
                Some(m) => old(self)@.with_maker(
                    key@,
                    MakerView { phase: m.phase.note_applied(slot, delay_us, now), ..m },
                ),
                None => old(self)@,
            },
    {
        if let Some(maker) = self.makers.get_mut(key) {
            maker.note_phase_applied(slot, delay_us, now);
        }
    }
}

} // verus!
