//! Send-phase alignment of the session's home slots.
use crate::ids::SlotId;
use crate::maker::DecisionMaker;
use crate::maker::MakerView;
use crate::time::Instant;
use vstd::prelude::*;

verus! {

impl MakerView {
    /// One turn's arrival noted and the controller run; not before the session starts.
    pub open spec fn ingest_arrival_phase(self, slot: SlotId, seq: u64, now: Instant) -> MakerView {
        if self.started {
            MakerView { phase: self.phase.note_arrival(slot, seq, now).evaluate(now), ..self }
        } else {
            self
        }
    }
}

impl DecisionMaker {
    /// Notes a home turn's arrival; the result is the delays to command.
    #[must_use]
    pub fn ingest_arrival_phase(&mut self, slot: SlotId, seq: u64, now: Instant) -> (r: Vec<(SlotId, u32)>)
        ensures
            r@ == if old(self)@.started {
                old(self)@.phase.note_arrival(slot, seq, now).issued(now)
            } else {
                Seq::empty()
            },
            final(self)@ == old(self)@.ingest_arrival_phase(slot, seq, now),
    {
        if !self.started {
            return Vec::new();
        }
        self.phase.note_arrival(slot, seq, now);
        self.phase.evaluate(now)
    }

    /// The delay `slot` was last commanded.
    pub fn commanded_phase_delay(&self, slot: SlotId) -> (r: Option<u32>)
        ensures
            r == if self@.phase.commanded.contains_key(slot) { Some(self@.phase.commanded[slot]) } else { None },
    {
        self.phase.commanded(slot)
    }

    /// Takes `slot`'s acknowledgement of a commanded delay in.
    pub fn note_phase_applied(&mut self, slot: SlotId, delay_us: u32, now: Instant)
        ensures
            final(self)@ == (MakerView { phase: old(self)@.phase.note_applied(slot, delay_us, now), ..old(self)@ }),
    {
        self.phase.note_applied(slot, delay_us, now);
    }
}

} // verus!
