//! The session's coordinate and its authority: what frames and directives teach, and what
//! changes when the authority moves.
use crate::ids::GameFrameCount;
use crate::ids::SlotId;
use crate::maker::DecisionMaker;
use crate::maker::MakerView;
use crate::ordmap::OrdSet;
use crate::slot::SlotState;
use crate::slot::SlotView;
use crate::sync::tracker::SyncTracker;
use crate::sync::tracker::TrackerView;
use crate::time::Instant;
use crate::wire::Authority;
use crate::wire::BufferBounds;
use crate::wire::BufferDirective;
use crate::wire::BufferSize;
use crate::wire::LeaveDirective;
use vstd::prelude::*;

verus! {

/// A frame stamped below a slot's newest frame at a higher sequence number.
#[derive(Clone, Copy, Debug, PartialEq, Eq, Structural)]
pub struct FrameRegression {
    pub prior_frame: u32,
}

impl MakerView {
    /// One frame observation of a slot: it can only raise what is known, and a departed
    /// slot stays departed.
    pub open spec fn observe_frame(self, slot: SlotId, frame: GameFrameCount) -> MakerView {
        if self.departures.contains_key(slot) {
            self
        } else {
            let state = self.slot_or_fresh(slot);
            self.with_slot(slot, SlotView { frame: crate::ids::later_frame(state.frame, Some(frame)), ..state })
        }
    }

    /// How many recent turns' stamps are kept per slot.
    pub open spec fn history_cap(self) -> int {
        if self.bounds.max + 4 >= 8 { self.bounds.max + 4 } else { 8 }
    }

    /// The regression a stamp gives away, reported once per slot.
    pub open spec fn frame_regression(self, slot: SlotId, seq: u64, frame: GameFrameCount) -> Option<FrameRegression> {
        let state = self.slot_or_fresh(slot);
        if !self.departures.contains_key(slot) && state.regresses(seq, frame) {
            Some(FrameRegression { prior_frame: (state.frame->0).0 })
        } else {
            None
        }
    }

    /// One stamped turn of a slot taken in.
    pub open spec fn observe_turn_frame(self, slot: SlotId, seq: u64, frame: GameFrameCount) -> MakerView {
        if self.departures.contains_key(slot) {
            self
        } else {
            self.with_slot(slot, self.slot_or_fresh(slot).note_turn(seq, frame, self.history_cap()))
        }
    }

    /// Whether a directive supersedes what is known: a higher sequence number, or the
    /// same one from a higher relay.
    pub open spec fn supersedes(self, directive: BufferDirective) -> bool {
        directive.decision_seq > self.decision_seq || (directive.decision_seq == self.decision_seq && id_above(
            directive.authority_relay_id,
            self.decision_seq_tiebreak,
        ))
    }

    pub open spec fn observe_directive(self, directive: BufferDirective) -> MakerView {
        if self.supersedes(directive) {
            MakerView {
                decision_seq: directive.decision_seq,
                decision_seq_tiebreak: directive.authority_relay_id,
                buffer: directive.buffer_turns,
                ..self
            }
        } else {
            self
        }
    }

    /// Whether the authority moves to this relay.
    pub open spec fn promotes(self, authority: Authority) -> bool {
        self.authority == Authority::Peer && authority == Authority::SelfRelay
    }

    /// The state a new authority starts from, before it hands leaves on.
    pub open spec fn reseated(self, authority: Authority) -> MakerView {
        if self.authority == authority {
            self
        } else if authority == Authority::Peer {
            MakerView { authority, pending_directive: None, pending_inputs: None, ..self }
        } else {
            MakerView {
                authority,
                sync: TrackerView::fresh(),
                initial_directive_sent: false,
                target_peaks: match self.session_frame() {
                    Some(frame) => self.target_peaks.observe(
                        frame.0,
                        self.buffer,
                        self.law.spec_target_floor_bucket_span(),
                    ),
                    None => self.target_peaks,
                },
                ..self
            }
        }
    }

    /// The departures a promoted relay decides: those neither decided nor held.
    pub open spec fn handoff(self, held: Set<SlotId>) -> Seq<(SlotId, u32)> {
        self.with_reasons(self.undecided().difference(held))
    }

    /// The leaves decided freshly by a change of authority.
    pub open spec fn fresh_leaves(self, authority: Authority, held: Set<SlotId>, now: Instant) -> Seq<LeaveDirective> {
        if self.promotes(authority) {
            let handed = self.handoff(held);
            self.reseated(authority).decide_leaves(handed, handed.len() as int, now).1
        } else {
            Seq::empty()
        }
    }

    /// The leaves to broadcast after a change of authority: every decided one, then the
    /// fresh ones.
    pub open spec fn handoff_leaves(self, authority: Authority, held: Set<SlotId>, now: Instant) -> Seq<LeaveDirective> {
        if self.promotes(authority) {
            crate::ordmap::listing(self.decided_leaves.dom()).map_values(|s: SlotId| self.decided_leaves[s])
                + self.fresh_leaves(authority, held, now)
        } else {
            Seq::empty()
        }
    }

    pub open spec fn set_authority(self, authority: Authority, held: Set<SlotId>, now: Instant) -> MakerView {
        if self.promotes(authority) {
            let handed = self.handoff(held);
            self.reseated(authority).decide_leaves(handed, handed.len() as int, now).0
        } else {
            self.reseated(authority)
        }
    }
}

/// Whether `a` is the higher relay id, any id being higher than none.
pub open spec fn id_above(a: Option<u64>, b: Option<u64>) -> bool {
    match (a, b) {
        (Some(x), Some(y)) => x > y,
        (Some(_), None) => true,
        (None, _) => false,
    }
}

/// Whether `turn` is the newest sequence number any slot but `departing` is known by.
pub open spec fn is_frontier(slots: Map<SlotId, SlotView>, departing: SlotId, turn: Option<u64>) -> bool {
    match turn {
        Some(t) => {
            &&& exists|s: SlotId| #[trigger] survives(slots, departing, s) && slots[s].frame_history.last().0 == t
            &&& forall|s: SlotId| #[trigger]
                survives(slots, departing, s) ==> slots[s].frame_history.last().0 <= t
        },
        None => forall|s: SlotId| !#[trigger] survives(slots, departing, s),
    }
}

/// Whether `s` is a slot other than `departing` with stamped turns.
pub open spec fn survives(slots: Map<SlotId, SlotView>, departing: SlotId, s: SlotId) -> bool {
    slots.contains_key(s) && s != departing && slots[s].frame_history.len() > 0
}

/// Whether `frame` is the latest frame that a slot with this history had provably executed
/// once turn `threshold` was consumed; its oldest known frame where all are newer.
pub open spec fn is_executed(history: Seq<(u64, u32)>, threshold: u64, frame: u32) -> bool {
    ||| {
        &&& exists|i: int| 0 <= i < history.len() && #[trigger] history[i] == (history[i].0, frame) && history[i].0 <= threshold
        &&& forall|i: int| 0 <= i < history.len() && (#[trigger] history[i]).0 <= threshold ==> history[i].1 <= frame
    }
    ||| {
        &&& history[0].1 == frame
        &&& forall|i: int| 0 <= i < history.len() ==> (#[trigger] history[i]).0 > threshold
    }
}

/// Whether `ceiling` is the highest frame that every survivor had provably executed.
pub open spec fn is_reachable(slots: Map<SlotId, SlotView>, departing: SlotId, buffer_max: u32, ceiling: Option<u32>) -> bool {
    match ceiling {
        None => forall|s: SlotId| !#[trigger] survives(slots, departing, s),
        Some(c) => exists|turn: u64|
            {
                &&& #[trigger] is_frontier(slots, departing, Some(turn))
                &&& exists|s: SlotId| #[trigger]
                    survives(slots, departing, s) && is_executed(
                        slots[s].frame_history,
                        turn.saturating_sub(buffer_max as u64),
                        c,
                    )
                &&& forall|s: SlotId, f: u32|
                    survives(slots, departing, s) && #[trigger] is_executed(
                        slots[s].frame_history,
                        turn.saturating_sub(buffer_max as u64),
                        f,
                    ) ==> c <= f
            },
    }
}

/// The latest frame a slot with this history had provably executed.
fn executed_frame(history: &std::collections::VecDeque<(u64, u32)>, threshold: u64) -> (r: u32)
    requires
        history@.len() > 0,
    ensures
        is_executed(history@, threshold, r),
        forall|f: u32| #[trigger] is_executed(history@, threshold, f) ==> f == r,
{
    let mut best: Option<u32> = None;
    let mut i: usize = 0;
    while i < history.len()
        invariant
            i <= history@.len(),
            best is None ==> forall|j: int| 0 <= j < i ==> (#[trigger] history@[j]).0 > threshold,
            best is Some ==> exists|j: int|
                0 <= j < i && #[trigger] history@[j] == (history@[j].0, best->0) && history@[j].0 <= threshold,
            best is Some ==> forall|j: int|
                0 <= j < i && (#[trigger] history@[j]).0 <= threshold ==> history@[j].1 <= best->0,
        decreases history@.len() - i,
    {
        let entry: (u64, u32) = history[i];
        assert(entry == history@[i as int]);
        if entry.0 <= threshold {
            let later = match best {
                Some(b) => entry.1 > b,
                None => true,
            };
            if later {
                best = Some(entry.1);
                assert(history@[i as int] == (history@[i as int].0, best->0));
            }
        }
        i += 1;
    }
    match best {
        Some(b) => b,
        None => {
            let first: (u64, u32) = history[0];
            assert(first == history@[0]);
            first.1
        },
    }
}

impl DecisionMaker {
    /// Takes a slot's frame in. A departed slot is not resurrected by late traffic.
    pub fn observe_frame(&mut self, slot: SlotId, frame: GameFrameCount)
        ensures
            final(self)@ == old(self)@.observe_frame(slot, frame),
    {
        if self.departures.contains_key(slot) {
            return;
        }
        let mut state = self.take_slot(slot);
        let raise = match state.frame {
            Some(current) => frame.0 > current.0,
            None => true,
        };
        if raise {
            state.frame = Some(frame);
        }
        self.slots.insert(slot, state);
        assert(self@.slots =~= old(self)@.observe_frame(slot, frame).slots);
    }

    /// Takes the slot's history out to be updated.
    pub(crate) fn take_slot(&mut self, slot: SlotId) -> (r: SlotState)
        ensures
            r@ == old(self)@.slot_or_fresh(slot),
            final(self)@ == (MakerView { slots: old(self)@.slots.remove(slot), ..old(self)@ }),
    {
        match self.slots.remove(slot) {
            Some(state) => state,
            None => SlotState::new(),
        }
    }

    /// Takes a stamped turn in, reporting the slot's first regressed stamp.
    pub fn observe_turn_frame(&mut self, slot: SlotId, seq: u64, frame: GameFrameCount) -> (r: Option<FrameRegression>)
        ensures
            r == old(self)@.frame_regression(slot, seq, frame),
            final(self)@ == old(self)@.observe_turn_frame(slot, seq, frame),
    {
        if self.departures.contains_key(slot) {
            return None;
        }
        let cap: u64 = if self.bounds.max as u64 + 4 >= 8 { self.bounds.max as u64 + 4 } else { 8 };
        let mut state = self.take_slot(slot);
        let regressed = state.note_turn(seq, frame, cap);
        self.slots.insert(slot, state);
        assert(self@.slots =~= old(self)@.observe_turn_frame(slot, seq, frame).slots);
        match regressed {
            Some(prior) => Some(FrameRegression { prior_frame: prior.0 }),
            None => None,
        }
    }

    /// The highest frame that every survivor of `departing` had provably executed.
    pub(crate) fn reachable_frame(&self, departing: SlotId) -> (r: Option<u32>)
        ensures
            is_reachable(self@.slots, departing, self@.bounds.max, r),
    {
        let frontier: u64 = match self.frontier_turn(departing) {
            Some(turn) => turn,
            None => {
                return None;
            },
        };
        let threshold: u64 = frontier.saturating_sub(self.bounds.max as u64);
        let ghost slots = self@.slots;
        let n: usize = self.slots.len();
        let ghost keys = crate::ordmap::listing(self.slots@.dom());
        let mut ceiling: Option<u32> = None;
        let mut i: usize = 0;
        while i < n
            invariant
                i <= n,
                n == keys.len(),
                keys == crate::ordmap::listing(self.slots@.dom()),
                self.slots@ == slots,
                ceiling is Some ==> exists|s: SlotId| #[trigger]
                    survives(slots, departing, s) && is_executed(slots[s].frame_history, threshold, ceiling->0),
                forall|j: int, f: u32|
                    0 <= j < i && survives(slots, departing, keys[j]) && #[trigger] is_executed(
                        slots[keys[j]].frame_history,
                        threshold,
                        f,
                    ) ==> ceiling is Some && ceiling->0 <= f,
                forall|j: int| 0 <= j < i && survives(slots, departing, #[trigger] keys[j]) ==> ceiling is Some,
            decreases n - i,
        {
            let slot = self.slots.key_at(i);
            let state = self.slots.value_at(i);
            if slot != departing && state.frame_history.len() > 0 {
                let executed: u32 = executed_frame(&state.frame_history, threshold);
                assert(survives(slots, departing, slot));
                let lower = match ceiling {
                    Some(c) => executed < c,
                    None => true,
                };
                if lower {
                    ceiling = Some(executed);
                }
            }
            i += 1;
        }
        proof {
            let s0 = choose|s: SlotId| #[trigger]
                survives(slots, departing, s) && slots[s].frame_history.last().0 == frontier;
            assert(survives(slots, departing, s0));
            assert forall|s: SlotId| #[trigger] slots.contains_key(s) implies keys.contains(s) by {
                assert(self.slots@.dom().contains(s));
            }
            assert(keys.contains(s0));
            assert(ceiling is Some);
            assert forall|s: SlotId, f: u32|
                survives(slots, departing, s) && #[trigger] is_executed(
                    slots[s].frame_history,
                    threshold,
                    f,
                ) implies ceiling->0 <= f by {
                assert(slots.contains_key(s));
                assert(keys.contains(s));
                let j = choose|j: int| 0 <= j < keys.len() && keys[j] == s;
                assert(is_executed(slots[keys[j]].frame_history, threshold, f));
            }
            assert(is_frontier(slots, departing, Some(frontier)));
        }
        ceiling
    }

    /// The newest sequence number any slot but `departing` is known by.
    fn frontier_turn(&self, departing: SlotId) -> (r: Option<u64>)
        ensures
            is_frontier(self@.slots, departing, r),
    {
        let ghost slots = self@.slots;
        let n: usize = self.slots.len();
        let ghost keys = crate::ordmap::listing(self.slots@.dom());
        let mut best: Option<u64> = None;
        let mut i: usize = 0;
        while i < n
            invariant
                i <= n,
                n == keys.len(),
                keys == crate::ordmap::listing(self.slots@.dom()),
                self.slots@ == slots,
                best is Some ==> exists|s: SlotId| #[trigger]
                    survives(slots, departing, s) && slots[s].frame_history.last().0 == best->0,
                forall|j: int|
                    0 <= j < i && survives(slots, departing, #[trigger] keys[j]) ==> best is Some
                        && slots[keys[j]].frame_history.last().0 <= best->0,
            decreases n - i,
        {
            let slot = self.slots.key_at(i);
            let state = self.slots.value_at(i);
            let held: usize = state.frame_history.len();
            if slot != departing && held > 0 {
                let last: (u64, u32) = state.frame_history[held - 1];
                assert(last == state.frame_history@[held - 1]);
                assert(survives(slots, departing, slot));
                let later = match best {
                    Some(b) => last.0 > b,
                    None => true,
                };
                if later {
                    best = Some(last.0);
                }
            }
            i += 1;
        }
        assert forall|s: SlotId| #[trigger] survives(slots, departing, s) implies keys.contains(s) by {
            assert(self.slots@.dom().contains(s));
        }
        best
    }

    /// Takes a peer authority's directive in.
    pub fn observe_directive(&mut self, directive: &BufferDirective)
        ensures
            final(self)@ == old(self)@.observe_directive(*directive),
    {
        let newer = if directive.decision_seq == self.decision_seq {
            match (directive.authority_relay_id, self.decision_seq_tiebreak) {
                (Some(a), Some(b)) => a > b,
                (Some(_), None) => true,
                (None, _) => false,
            }
        } else {
            directive.decision_seq > self.decision_seq
        };
        if newer {
            self.decision_seq = directive.decision_seq;
            self.decision_seq_tiebreak = directive.authority_relay_id;
            self.buffer = BufferSize(directive.buffer_turns);
        }
    }

    /// Whether this relay decides the session's buffer and leaves.
    pub fn is_authority(&self) -> (r: bool)
        ensures
            r == self@.is_authority(),
    {
        self.authority == Authority::SelfRelay
    }

    /// Takes new bounds and a new authority in. The result is the leaves to broadcast and,
    /// of these, the ones decided just now.
    #[must_use]
    pub fn sync(&mut self, bounds: BufferBounds, authority: Authority, held_slots: &OrdSet<SlotId>, now: Instant) -> (r: (
        Vec<LeaveDirective>,
        Vec<LeaveDirective>,
    ))
        ensures
            ({
                let bounded = MakerView { bounds, ..old(self)@ };
                &&& r.0@ == bounded.handoff_leaves(authority, held_slots@, now)
                &&& r.1@ == bounded.fresh_leaves(authority, held_slots@, now)
                &&& final(self)@ == bounded.set_authority(authority, held_slots@, now)
            }),
    {
        self.bounds = bounds;
        self.set_authority(authority, held_slots, now)
    }

    /// Moves the authority. A demoted relay drops its pending directive; a promoted one
    /// starts its own comparison and decides what no held slot defers. The result is the
    /// leaves to broadcast and, of these, the ones decided just now.
    #[must_use]
    pub fn set_authority(&mut self, authority: Authority, held_slots: &OrdSet<SlotId>, now: Instant) -> (r: (
        Vec<LeaveDirective>,
        Vec<LeaveDirective>,
    ))
        ensures
            r.0@ == old(self)@.handoff_leaves(authority, held_slots@, now),
            r.1@ == old(self)@.fresh_leaves(authority, held_slots@, now),
            final(self)@ == old(self)@.set_authority(authority, held_slots@, now),
    {
        let promoting = self.authority == Authority::Peer && authority == Authority::SelfRelay;
        self.reseat(authority);
        if promoting {
            assert(self@.handoff(held_slots@) == old(self)@.handoff(held_slots@));
            self.drain_handoff_leaves(held_slots, now)
        } else {
            (Vec::new(), Vec::new())
        }
    }

    fn reseat(&mut self, authority: Authority)
        ensures
            final(self)@ == old(self)@.reseated(authority),
    {
        if self.authority == authority {
            return;
        }
        self.authority = authority;
        if authority == Authority::Peer {
            self.pending_directive = None;
            self.pending_decision_inputs = None;
        } else {
            self.sync = SyncTracker::default();
            self.initial_directive_sent = false;
            if let Some(frame) = self.session_frame() {
                let span: u32 = self.law.target_floor_bucket_span();
                self.target_peaks.observe(frame.0, self.buffer.0, span);
            }
        }
    }

    /// Decides every departure that is neither decided nor held. The result is every
    /// decided leave, and the ones decided just now.
    pub(crate) fn drain_handoff_leaves(&mut self, held_slots: &OrdSet<SlotId>, now: Instant) -> (r: (
        Vec<LeaveDirective>,
        Vec<LeaveDirective>,
    ))
        ensures
            ({
                let handed = old(self)@.handoff(held_slots@);
                let (next, fresh) = old(self)@.decide_leaves(handed, handed.len() as int, now);
                &&& r.0@ == crate::ordmap::listing(old(self)@.decided_leaves.dom()).map_values(
                    |s: SlotId| old(self)@.decided_leaves[s],
                ) + fresh
                &&& r.1@ == fresh
                &&& final(self)@ == next
            }),
    {
        let mut leaves = self.decided_directives();
        let ghost decided = leaves@;
        let handed = self.undecided_but(held_slots);
        let mut fresh: Vec<LeaveDirective> = Vec::new();
        let mut i: usize = 0;
        assert(leaves@ =~= decided + fresh@);
        while i < handed.len()
            invariant
                i <= handed@.len(),
                self@ == old(self)@.decide_leaves(handed@, i as int, now).0,
                fresh@ == old(self)@.decide_leaves(handed@, i as int, now).1,
                leaves@ == decided + fresh@,
            decreases handed@.len() - i,
        {
            let (slot, reason) = handed[i];
            if let Some(directive) = self.decide_leave(slot, reason, now) {
                leaves.push(directive);
                fresh.push(directive);
                assert(leaves@ =~= decided + fresh@);
            }
            i += 1;
        }
        (leaves, fresh)
    }
}

} // verus!
