//! The silence watch: which slot, if any, a stalled session is waiting for.
//!
//! In lockstep one silent player stalls everyone. The slot that stopped strictly before
//! all others is the one the others are waiting for.
use crate::ids::SlotId;
use crate::maker::DecisionMaker;
use crate::maker::MakerView;
use crate::ordmap::OrdSet;
use crate::slot::SlotState;
use crate::slot::SlotView;
use crate::time::Duration;
use crate::time::Instant;
use vstd::prelude::*;

verus! {

/// A slot the session is waiting for.
#[derive(Clone, Copy, Debug, PartialEq, Eq, Structural)]
pub struct SilentSlot {
    pub slot: SlotId,
    /// How long ago its turns stopped.
    pub silent_for: Duration,
    /// How much later the next slot's turns stopped.
    pub lead: Duration,
}

/// When a slot's turns last advanced; the session's start where they never did.
pub open spec fn stop_of(state: Option<SlotView>, session_started_at: Instant) -> Instant {
    match state {
        Some(s) => match s.last_forward_advance_at {
            Some(at) => at,
            None => session_started_at,
        },
        None => session_started_at,
    }
}

pub(crate) fn stopped_at(state: Option<&SlotState>, session_started_at: Instant) -> (r: Instant)
    ensures
        r == stop_of(
            match state {
                Some(s) => Some((*s)@),
                None => None,
            },
            session_started_at,
        ),
{
    match state {
        Some(s) => match s.last_forward_advance_at {
            Some(at) => at,
            None => session_started_at,
        },
        None => session_started_at,
    }
}

impl MakerView {
    /// The slots whose silence could matter: those expected, or all that are known of, but
    /// for those whose leave the survivors have moved past.
    pub open spec fn watched(self) -> Set<SlotId> {
        let all = if self.expected =~= Set::empty() {
            self.slots.dom().union(self.departures.dom())
        } else {
            self.expected
        };
        all.difference(self.recovered_leaves)
    }

    /// When `slot`'s turns last advanced, live or departed.
    pub open spec fn stop(self, slot: SlotId, session_started_at: Instant) -> Instant {
        stop_of(
            if self.slots.contains_key(slot) {
                Some(self.slots[slot])
            } else {
                self.departures[slot].slot_state
            },
            session_started_at,
        )
    }

    /// Whether every watched live slot advanced after `slot`'s leave was decided.
    pub open spec fn recovers(self, slot: SlotId, session_started_at: Instant) -> bool {
        &&& self.watched().contains(slot)
        &&& self.decided_leave_at.contains_key(slot)
        &&& forall|l: SlotId| #[trigger]
            self.watched().contains(l) && self.slots.contains_key(l) ==> self.stop(l, session_started_at).nanos
                > self.decided_leave_at[slot].nanos
    }

    /// Whether the watch runs at all: the session has started here, and was not resumed.
    pub open spec fn watches(self) -> bool {
        self.started_at is Some && !self.resumed
    }

    /// Leaves the survivors have moved past no longer watched.
    pub open spec fn recovering(self) -> MakerView {
        if self.watches() {
            MakerView {
                recovered_leaves: self.recovered_leaves.union(
                    Set::new(|s: SlotId| self.recovers(s, self.started_at->0)),
                ),
                ..self
            }
        } else {
            self
        }
    }

    /// Whether every watched slot has started, is accounted for, and stopped at least
    /// `window` ago.
    pub open spec fn all_stalled(self, now: Instant, window: Duration) -> bool {
        forall|s: SlotId| #[trigger]
            self.watched().contains(s) ==> self.has_started(s) && (self.slots.contains_key(s)
                || self.departures.contains_key(s)) && now.spec_since(self.stop(s, self.started_at->0)).nanos
                >= window.nanos
    }

    /// Whether `slot` may be evicted from here: homed here, up for at least `window`, and
    /// neither gone nor evicted already.
    pub open spec fn evictable(self, slot: SlotId, now: Instant, window: Duration) -> bool {
        &&& self.homed.contains(slot)
        &&& self.connection_is_up(slot)
        &&& !self.departures.contains_key(slot)
        &&& !self.decided_leaves.contains_key(slot)
        &&& !self.silence_evicted.contains(slot)
        &&& (self.slots.contains_key(slot) && self.slots[slot].connection_up_at is Some) ==> now.spec_since(
            self.slots[slot].connection_up_at->0,
        ).nanos >= window.nanos
    }

    /// Whether `slot` stopped strictly before every other watched slot.
    pub open spec fn stopped_first(self, slot: SlotId) -> bool {
        forall|o: SlotId| #[trigger]
            self.watched().contains(o) && o != slot ==> self.stop(o, self.started_at->0).nanos > self.stop(
                slot,
                self.started_at->0,
            ).nanos
    }

    /// Whether `lead` is how much later the next watched slot stopped.
    pub open spec fn is_lead(self, slot: SlotId, lead: Duration) -> bool {
        let at = self.stop(slot, self.started_at->0);
        &&& exists|o: SlotId| #[trigger]
            self.watched().contains(o) && o != slot && self.stop(o, self.started_at->0).spec_since(at) == lead
        &&& forall|o: SlotId| #[trigger]
            self.watched().contains(o) && o != slot ==> self.stop(o, self.started_at->0).spec_since(at).nanos
                >= lead.nanos
    }

    /// Whether the watch names `slot`: everyone has stalled, there is someone else, and
    /// `slot` stopped first and may be evicted.
    pub open spec fn names_silent(self, slot: SlotId, now: Instant, window: Duration) -> bool {
        &&& self.watches()
        &&& self.all_stalled(now, window)
        &&& self.watched().contains(slot)
        &&& self.evictable(slot, now, window)
        &&& self.stopped_first(slot)
        &&& exists|o: SlotId| #[trigger] self.watched().contains(o) && o != slot
    }

    /// Whether `answer` is what the watch says.
    pub open spec fn silence_answer(self, now: Instant, window: Duration, answer: Option<SilentSlot>) -> bool {
        match answer {
            Some(found) => {
                &&& self.names_silent(found.slot, now, window)
                &&& found.silent_for == now.spec_since(self.stop(found.slot, self.started_at->0))
                &&& self.is_lead(found.slot, found.lead)
            },
            None => forall|s: SlotId| !#[trigger] self.names_silent(s, now, window),
        }
    }
}

impl DecisionMaker {
    /// Notes that `slot`'s forwarded turns advanced.
    pub fn note_forward_advance(&mut self, slot: SlotId, now: Instant)
        ensures
            final(self)@ == if old(self)@.slots.contains_key(slot) {
                old(self)@.with_slot(
                    slot,
                    SlotView { last_forward_advance_at: Some(now), ..old(self)@.slots[slot] },
                )
            } else {
                old(self)@
            },
    {
        if let Some(state) = self.slots.remove(slot) {
            let mut state = state;
            state.last_forward_advance_at = Some(now);
            self.slots.insert(slot, state);
            assert(self@.slots =~= old(self)@.slots.insert(
                slot,
                SlotView { last_forward_advance_at: Some(now), ..old(self)@.slots[slot] },
            ));
        } else {
            assert(self@.slots =~= old(self)@.slots);
        }
    }

    /// The slots whose silence could matter.
    fn watched_slots(&self) -> (r: OrdSet<SlotId>)
        ensures
            r@ == self@.watched(),
    {
        let mut out: OrdSet<SlotId> = OrdSet::new();
        if self.expected_slots.is_empty() {
            self.add_unrecovered(&mut out, &self.slots.keys());
            self.add_unrecovered(&mut out, &self.departures.keys());
        } else {
            self.add_unrecovered(&mut out, &self.expected_slots.keys());
        }
        assert(out@ =~= self@.watched());
        out
    }

    /// Adds those of `slots` whose leave the survivors have not moved past.
    fn add_unrecovered(&self, out: &mut OrdSet<SlotId>, slots: &Vec<SlotId>)
        ensures
            forall|s: SlotId| #[trigger]
                final(out)@.contains(s) <==> old(out)@.contains(s) || (slots@.contains(s)
                    && !self@.recovered_leaves.contains(s)),
    {
        let mut i: usize = 0;
        while i < slots.len()
            invariant
                i <= slots@.len(),
                forall|s: SlotId| #[trigger]
                    out@.contains(s) <==> old(out)@.contains(s) || (slots@.take(i as int).contains(s)
                        && !self@.recovered_leaves.contains(s)),
            decreases slots@.len() - i,
        {
            let slot = slots[i];
            if !self.recovered_leaves.contains(slot) {
                out.insert(slot);
            }
            proof {
                crate::sync::tracker::lemma_take_contains(slots@, i as int);
            }
            i += 1;
        }
        assert(slots@.take(slots@.len() as int) =~= slots@);
    }

    /// Whether every watched live slot advanced after `decided`.
    fn survivors_advanced(&self, watched: &OrdSet<SlotId>, decided: Instant, session_started_at: Instant) -> (r: bool)
        requires
            watched@ == self@.watched(),
        ensures
            r == (forall|l: SlotId| #[trigger]
                self@.watched().contains(l) && self@.slots.contains_key(l) ==> self@.stop(
                    l,
                    session_started_at,
                ).nanos > decided.nanos),
    {
        let n: usize = watched.len();
        let ghost keys = crate::ordmap::listing(watched@);
        let mut i: usize = 0;
        while i < n
            invariant
                i <= n,
                n == keys.len(),
                keys == crate::ordmap::listing(watched@),
                watched@ == self@.watched(),
                forall|j: int|
                    0 <= j < i && self@.slots.contains_key(#[trigger] keys[j]) ==> self@.stop(
                        keys[j],
                        session_started_at,
                    ).nanos > decided.nanos,
            decreases n - i,
        {
            let slot = watched.key_at(i);
            let state = self.slots.get(slot);
            if state.is_some() {
                let stop = stopped_at(state, session_started_at);
                if stop.nanos <= decided.nanos {
                    assert(self@.watched().contains(slot));
                    return false;
                }
            }
            i += 1;
        }
        assert forall|l: SlotId| #[trigger] self@.watched().contains(l) && self@.slots.contains_key(l) implies self@.stop(
            l,
            session_started_at,
        ).nanos > decided.nanos by {
            assert(keys.contains(l));
        }
        true
    }

    /// Stops watching leaves the survivors have moved past.
    fn note_recoveries(&mut self, session_started_at: Instant)
        requires
            old(self)@.watches(),
            old(self)@.started_at == Some(session_started_at),
        ensures
            final(self)@ == old(self)@.recovering(),
    {
        let watched = self.watched_slots();
        let keys = watched.keys();
        let mut recovered: OrdSet<SlotId> = OrdSet::new();
        let mut i: usize = 0;
        while i < keys.len()
            invariant
                i <= keys@.len(),
                crate::ordmap::lists(keys@, watched@),
                watched@ == self@.watched(),
                forall|s: SlotId| #[trigger]
                    recovered@.contains(s) <==> keys@.take(i as int).contains(s) && self@.recovers(
                        s,
                        session_started_at,
                    ),
            decreases keys@.len() - i,
        {
            let slot = keys[i];
            assert(keys@.contains(slot));
            if let Some(decided) = self.decided_leave_at.get(slot) {
                let decided: Instant = *decided;
                if self.survivors_advanced(&watched, decided, session_started_at) {
                    recovered.insert(slot);
                }
            }
            proof {
                crate::sync::tracker::lemma_take_contains(keys@, i as int);
            }
            i += 1;
        }
        assert(keys@.take(keys@.len() as int) =~= keys@);
        let ghost before = self@;
        let found = recovered.keys();
        let mut k: usize = 0;
        while k < found.len()
            invariant
                k <= found@.len(),
                self@ == (MakerView { recovered_leaves: self@.recovered_leaves, ..before }),
                forall|s: SlotId| #[trigger]
                    self@.recovered_leaves.contains(s) <==> before.recovered_leaves.contains(s) || found@.take(
                        k as int,
                    ).contains(s),
            decreases found@.len() - k,
        {
            self.recovered_leaves.insert(found[k]);
            proof {
                crate::sync::tracker::lemma_take_contains(found@, k as int);
            }
            k += 1;
        }
        assert(found@.take(found@.len() as int) =~= found@);
        assert(self@.recovered_leaves =~= before.recovering().recovered_leaves) by {
            assert forall|s: SlotId| #[trigger] before.recovering().recovered_leaves.contains(s)
                <==> self@.recovered_leaves.contains(s) by {
                assert(recovered@.contains(s) <==> before.recovers(s, session_started_at));
                assert(found@.contains(s) <==> recovered@.contains(s));
            }
        }
    }

    /// When each watched slot stopped, in ascending slot order; nothing unless everyone
    /// has stalled.
    fn stalled_stops(&self, session_started_at: Instant, now: Instant, window: Duration) -> (r: Option<Vec<(SlotId, Instant)>>)
        requires
            self@.started_at == Some(session_started_at),
        ensures
            r is Some == self@.all_stalled(now, window),
            r is Some ==> {
                let keys = crate::ordmap::listing(self@.watched());
                &&& crate::ordmap::lists(keys, self@.watched())
                &&& (r->0)@.len() == keys.len()
                &&& forall|i: int|
                    0 <= i < keys.len() ==> #[trigger] (r->0)@[i] == (keys[i], self@.stop(keys[i], session_started_at))
            },
    {
        let watched = self.watched_slots();
        let keys = watched.keys();
        let mut out: Vec<(SlotId, Instant)> = Vec::new();
        let mut i: usize = 0;
        while i < keys.len()
            invariant
                i <= keys@.len(),
                keys@ == crate::ordmap::listing(watched@),
                crate::ordmap::lists(keys@, watched@),
                watched@ == self@.watched(),
                self@.started_at == Some(session_started_at),
                out@.len() == i,
                forall|j: int|
                    0 <= j < i ==> #[trigger] out@[j] == (keys@[j], self@.stop(keys@[j], session_started_at)),
                forall|j: int|
                    0 <= j < i ==> {
                        let s = #[trigger] keys@[j];
                        &&& self@.has_started(s)
                        &&& self@.slots.contains_key(s) || self@.departures.contains_key(s)
                        &&& now.spec_since(self@.stop(s, session_started_at)).nanos >= window.nanos
                    },
            decreases keys@.len() - i,
        {
            let slot = keys[i];
            assert(keys@.contains(slot));
            assert(self@.watched().contains(slot));
            if !self.has_started(slot) {
                return None;
            }
            let stop = match (self.slots.get(slot), self.departures.get(slot)) {
                (Some(state), _) => stopped_at(Some(state), session_started_at),
                (None, Some(departure)) => stopped_at(departure.slot_state.as_ref(), session_started_at),
                (None, None) => {
                    return None;
                },
            };
            if now.since(stop).nanos < window.nanos {
                return None;
            }
            out.push((slot, stop));
            i += 1;
        }
        assert forall|s: SlotId| #[trigger] self@.watched().contains(s) implies self@.has_started(s) && (
        self@.slots.contains_key(s) || self@.departures.contains_key(s)) && now.spec_since(
            self@.stop(s, session_started_at),
        ).nanos >= window.nanos by {
            assert(keys@.contains(s));
        }
        Some(out)
    }

    /// How much later the next of `stops` is than the one at `i`, where that one is
    /// strictly the first.
    fn lead_of(stops: &Vec<(SlotId, Instant)>, i: usize) -> (r: Option<Duration>)
        requires
            i < stops@.len(),
        ensures
            r is Some == (stops@.len() > 1 && forall|j: int|
                0 <= j < stops@.len() && j != i ==> (#[trigger] stops@[j]).1.nanos > stops@[i as int].1.nanos),
            r is Some ==> exists|j: int|
                0 <= j < stops@.len() && j != i && (#[trigger] stops@[j]).1.spec_since(stops@[i as int].1) == r->0,
            r is Some ==> forall|j: int|
                0 <= j < stops@.len() && j != i ==> (#[trigger] stops@[j]).1.spec_since(stops@[i as int].1).nanos
                    >= (r->0).nanos,
    {
        let at: Instant = stops[i].1;
        let mut lead: Option<Duration> = None;
        let mut j: usize = 0;
        while j < stops.len()
            invariant
                j <= stops@.len(),
                i < stops@.len(),
                at == stops@[i as int].1,
                lead is None ==> j == 0 || (j == 1 && i == 0),
                lead is Some ==> stops@.len() > 1,
                forall|k: int| 0 <= k < j && k != i ==> (#[trigger] stops@[k]).1.nanos > at.nanos,
                lead is Some ==> exists|k: int|
                    0 <= k < j && k != i && (#[trigger] stops@[k]).1.spec_since(at) == lead->0,
                lead is Some ==> forall|k: int|
                    0 <= k < j && k != i ==> (#[trigger] stops@[k]).1.spec_since(at).nanos >= (lead->0).nanos,
            decreases stops@.len() - j,
        {
            if j != i {
                let other: Instant = stops[j].1;
                if other.nanos <= at.nanos {
                    return None;
                }
                let gap = other.since(at);
                assert(stops@[j as int].1.spec_since(at) == gap);
                let shorter = match lead {
                    Some(l) => gap.nanos < l.nanos,
                    None => true,
                };
                if shorter {
                    lead = Some(gap);
                }
            }
            j += 1;
        }
        lead
    }

    /// The slot the session is waiting for, if the watch can name one.
    pub fn silent_slot(&mut self, now: Instant, window: Duration) -> (r: Option<SilentSlot>)
        ensures
            final(self)@ == old(self)@.recovering(),
            final(self)@.silence_answer(now, window, r),
    {
        let session_started_at = match self.started_at {
            Some(at) => at,
            None => {
                return None;
            },
        };
        if self.resumed {
            return None;
        }
        self.note_recoveries(session_started_at);
        let stops = match self.stalled_stops(session_started_at, now, window) {
            Some(stops) => stops,
            None => {
                return None;
            },
        };
        let ghost keys = crate::ordmap::listing(self@.watched());
        let mut i: usize = 0;
        while i < stops.len()
            invariant
                i <= stops@.len(),
                self@.watches(),
                self@.started_at == Some(session_started_at),
                self@.all_stalled(now, window),
                keys == crate::ordmap::listing(self@.watched()),
                crate::ordmap::lists(keys, self@.watched()),
                stops@.len() == keys.len(),
                forall|k: int|
                    0 <= k < keys.len() ==> #[trigger] stops@[k] == (keys[k], self@.stop(keys[k], session_started_at)),
                self@ == old(self)@.recovering(),
                forall|k: int| 0 <= k < i ==> !self@.names_silent(#[trigger] keys[k], now, window),
            decreases stops@.len() - i,
        {
            let (slot, stop) = stops[i];
            assert(stops@[i as int] == (keys[i as int], self@.stop(keys[i as int], session_started_at)));
            assert(keys.contains(slot));
            if self.is_evictable(slot, now, window) {
                let lead = Self::lead_of(&stops, i);
                proof {
                    self.lemma_lead(stops@, i as int, session_started_at);
                }
                if let Some(lead) = lead {
                    proof {
                        let j = choose|j: int|
                            0 <= j < stops@.len() && j != i && (#[trigger] stops@[j]).1.spec_since(stops@[i as int].1) == lead;
                        assert(stops@[j].1.spec_since(stop) == lead);
                        assert(keys.contains(keys[j]));
                        assert(self@.watched().contains(keys[j]));
                        assert(keys[j] != slot) by {
                            assert(crate::ordmap::OrdKey::rank(keys[j]) != crate::ordmap::OrdKey::rank(keys[i as int])) by {
                                if j < i {
                                    assert(crate::ordmap::OrdKey::rank(keys[j]) < crate::ordmap::OrdKey::rank(keys[i as int]));
                                } else {
                                    assert(crate::ordmap::OrdKey::rank(keys[i as int]) < crate::ordmap::OrdKey::rank(keys[j]));
                                }
                            }
                        }
                        assert forall|o: SlotId| #[trigger] self@.watched().contains(o) && o != slot implies self@.stop(
                            o,
                            session_started_at,
                        ).spec_since(stop).nanos >= lead.nanos by {
                            assert(keys.contains(o));
                            let k = choose|k: int| 0 <= k < keys.len() && keys[k] == o;
                            assert(stops@[k] == (keys[k], self@.stop(keys[k], session_started_at)));
                        }
                        assert(self@.is_lead(slot, lead));
                    }
                    return Some(SilentSlot { slot, silent_for: now.since(stop), lead });
                }
            }
            i += 1;
        }
        assert forall|s: SlotId| !#[trigger] self@.names_silent(s, now, window) by {
            if self@.names_silent(s, now, window) {
                assert(keys.contains(s));
            }
        }
        None
    }

    proof fn lemma_lead(&self, stops: Seq<(SlotId, Instant)>, i: int, session_started_at: Instant)
        requires
            self@.started_at == Some(session_started_at),
            ({
                let keys = crate::ordmap::listing(self@.watched());
                &&& crate::ordmap::lists(keys, self@.watched())
                &&& stops.len() == keys.len()
                &&& forall|k: int|
                    0 <= k < keys.len() ==> #[trigger] stops[k] == (keys[k], self@.stop(keys[k], session_started_at))
            }),
            0 <= i < stops.len(),
        ensures
            (stops.len() > 1 && forall|j: int|
                0 <= j < stops.len() && j != i ==> (#[trigger] stops[j]).1.nanos > stops[i].1.nanos) == (
            self@.stopped_first(stops[i].0) && exists|o: SlotId| #[trigger] self@.watched().contains(o) && o != stops[i].0),
    {
        let keys = crate::ordmap::listing(self@.watched());
        let slot = stops[i].0;
        assert(stops[i] == (keys[i], self@.stop(keys[i], session_started_at)));
        assert forall|j: int| 0 <= j < keys.len() && j != i implies #[trigger] keys[j] != slot by {
            if j < i {
                assert(crate::ordmap::OrdKey::rank(keys[j]) < crate::ordmap::OrdKey::rank(keys[i]));
            } else {
                assert(crate::ordmap::OrdKey::rank(keys[i]) < crate::ordmap::OrdKey::rank(keys[j]));
            }
        }
        if stops.len() > 1 {
            let j: int = if i == 0 { 1 } else { 0 };
            assert(keys[j] != slot);
            assert(keys.contains(keys[j]));
            assert(self@.watched().contains(keys[j]));
        }
        if exists|o: SlotId| #[trigger] self@.watched().contains(o) && o != slot {
            let o = choose|o: SlotId| #[trigger] self@.watched().contains(o) && o != slot;
            assert(keys.contains(o));
        }
        if self@.stopped_first(slot) {
            assert forall|j: int| 0 <= j < stops.len() && j != i implies (#[trigger] stops[j]).1.nanos > stops[i].1.nanos by {
                assert(stops[j] == (keys[j], self@.stop(keys[j], session_started_at)));
                assert(keys[j] != slot);
                assert(keys.contains(keys[j]));
                assert(self@.watched().contains(keys[j]));
            }
        }
        if forall|j: int| 0 <= j < stops.len() && j != i ==> (#[trigger] stops[j]).1.nanos > stops[i].1.nanos {
            assert forall|o: SlotId| #[trigger] self@.watched().contains(o) && o != slot implies self@.stop(
                o,
                session_started_at,
            ).nanos > self@.stop(slot, session_started_at).nanos by {
                assert(keys.contains(o));
                let k = choose|k: int| 0 <= k < keys.len() && keys[k] == o;
                assert(stops[k] == (keys[k], self@.stop(keys[k], session_started_at)));
            }
        }
    }

    /// Whether `slot` may be evicted from here.
    fn is_evictable(&self, slot: SlotId, now: Instant, window: Duration) -> (r: bool)
        ensures
            r == self@.evictable(slot, now, window),
    {
        if !self.strictly_homes(slot) || !self.connection_is_up(slot) || self.departures.contains_key(slot)
            || self.decided_leaves.contains_key(slot) || self.silence_evicted.contains(slot) {
            return false;
        }
        match self.slots.get(slot) {
            Some(state) => match state.connection_up_at {
                Some(up) => now.since(up).nanos >= window.nanos,
                None => true,
            },
            None => true,
        }
    }

    /// Marks `slot` as evicted for its silence.
    pub fn mark_silence_evicted(&mut self, slot: SlotId)
        ensures
            final(self)@ == (MakerView { silence_evicted: old(self)@.silence_evicted.insert(slot), ..old(self)@ }),
    {
        self.silence_evicted.insert(slot);
    }
}

} // verus!
