//! Per-origin ordering of turns that carry checksum reports.
//!
//! A report's generation is only known once the complete turn prefix before it is:
//! the game numbers reports modulo a small ring. Every turn occupies a sequence
//! position, including turns without a checksum.
use crate::ids::SlotId;
use crate::ordmap::OrdMap;
use crate::sync::SyncValue;
use crate::sync::GAME_SYNC_SAFE_BUFFER_MAX;
use crate::sync::SYNC_RING_MODULUS;
use vstd::prelude::*;

verus! {

/// Exclusive distance ahead of a slot's next missing turn retained for comparison: the
/// transport's receive window.
pub const SYNC_TURN_WINDOW: u64 = 4096;

/// One checksum report as a turn carries it.
#[derive(Clone, Copy, Debug)]
pub struct SyncCommand {
    pub ring: u8,
    pub kind: u8,
    pub value: SyncValue,
}

/// What one turn says about checksums. `ordinal` is assigned only when the complete
/// prefix has unwrapped the sync ring.
#[derive(Clone, Copy, Debug)]
pub struct SyncTurn {
    pub frame: Option<u32>,
    pub ordinal: Option<u64>,
    pub command: Option<SyncCommand>,
    /// The origin's absolute native generation for `command`, when this origin tags
    /// its reports.
    pub generation: Option<u64>,
    /// Native generations this origin asserts were not emitted between its last
    /// checksum and this one.
    pub skipped: Option<SyncGap>,
}

/// A non-empty, half-open interval of checksum generations the originating client
/// asserts it did not emit.
#[derive(Clone, Copy, Debug, PartialEq, Eq, Structural)]
pub struct SyncGap {
    pub first: u64,
    pub end: u64,
}

/// Why an origin's turns can no longer be ordered.
#[derive(Clone, Copy, Debug, PartialEq, Eq)]
pub struct SyncOrderingFailure {
    pub reason: &'static str,
    pub seq: u64,
    /// First missing sequence; on a ring failure, the sequence being consumed.
    pub next: u64,
    pub previous_ordinal: Option<u64>,
    pub ring: Option<u8>,
}

/// Whether an origin tags its reports with absolute generations.
#[derive(Clone, Copy, Debug, PartialEq, Eq, Structural)]
pub enum SyncMode {
    Legacy,
    Enhanced,
}

impl View for SyncTurn {
    type V = SyncTurn;

    open spec fn view(&self) -> SyncTurn {
        *self
    }
}

/// What is known of one origin's turns.
#[verifier::ext_equal]
pub struct SlotTurnsView {
    pub next: u64,
    pub pending: Map<u64, SyncTurn>,
    pub ordinal: Option<u64>,
    pub mode: Option<SyncMode>,
    pub failure: Option<SyncOrderingFailure>,
}

/// The generation that ring position `ring` stands for after generation `last`: the
/// same one again, or the next. Only the very first report supplies its own anchor.
pub open spec fn legacy_ordinal(last: Option<u64>, ring: u64) -> Result<u64, &'static str> {
    match last {
        None => Ok(ring),
        Some(last) => if last % SYNC_RING_MODULUS == ring {
            Ok(last)
        } else if (last % SYNC_RING_MODULUS + 1) % SYNC_RING_MODULUS as int == ring {
            if last < u64::MAX { Ok((last + 1) as u64) } else { Err("ordinal_overflow") }
        } else {
            Err("ring_discontinuity")
        },
    }
}

impl SlotTurnsView {
    pub open spec fn fresh() -> SlotTurnsView {
        SlotTurnsView { next: 0, pending: Map::empty(), ordinal: None, mode: None, failure: None }
    }

    /// The first sequence from `n` on that has not arrived.
    pub open spec fn missing_from(self, n: u64) -> u64
        decreases u64::MAX - n,
    {
        if self.pending.contains_key(n) && n < u64::MAX {
            self.missing_from((n + 1) as u64)
        } else {
            n
        }
    }

    pub open spec fn first_missing(self) -> u64 {
        self.missing_from(self.next)
    }

    pub open spec fn failure_for(self, reason: &'static str, seq: u64, turn: SyncTurn) -> SyncOrderingFailure {
        SyncOrderingFailure {
            reason,
            seq,
            next: self.first_missing(),
            previous_ordinal: self.ordinal,
            ring: match turn.command {
                Some(command) => Some(command.ring),
                None => None,
            },
        }
    }

    /// The origin given up for good.
    pub open spec fn failed(self, reason: &'static str, seq: u64, turn: SyncTurn) -> SlotTurnsView {
        SlotTurnsView {
            pending: Map::empty(),
            failure: Some(self.failure_for(reason, seq, turn)),
            ..self
        }
    }

    /// The generation of a report tagged with `generation`, from an origin that tags.
    pub open spec fn tagged_ordinal(self, generation: u64, ring: u8) -> Result<u64, &'static str> {
        if generation == u64::MAX {
            Err("generation_overflow")
        } else if generation % SYNC_RING_MODULUS != ring {
            Err("generation_ring_mismatch")
        } else {
            match self.ordinal {
                None => Err("generation_missing_anchor"),
                Some(last) => if generation < last {
                    Err("generation_regression")
                } else if generation - last > GAME_SYNC_SAFE_BUFFER_MAX {
                    Err("generation_jump")
                } else {
                    Ok(generation)
                },
            }
        }
    }

    /// The generation of a report, or why it has none.
    pub open spec fn report_ordinal(self, command: SyncCommand, generation: Option<u64>) -> Result<u64, &'static str> {
        match (self.mode, generation) {
            (None, None) => legacy_ordinal(self.ordinal, command.ring as u64),
            (None, Some(g)) => if g == u64::MAX {
                Err("generation_overflow")
            } else if g != command.ring {
                Err("generation_initial_anchor")
            } else {
                Ok(g)
            },
            (Some(SyncMode::Legacy), None) => legacy_ordinal(self.ordinal, command.ring as u64),
            (Some(SyncMode::Legacy), Some(_)) => Err("generation_mode_mismatch"),
            (Some(SyncMode::Enhanced), None) => Err("generation_mode_mismatch"),
            (Some(SyncMode::Enhanced), Some(g)) => self.tagged_ordinal(g, command.ring),
        }
    }

    /// The generations left out between the last report and generation `ordinal`.
    pub open spec fn gap_before(self, ordinal: u64, turn: SyncTurn) -> Option<SyncGap> {
        if self.mode == Some(SyncMode::Enhanced) && self.ordinal is Some && ordinal - self.ordinal->0 > 1 {
            Some(SyncGap { first: (self.ordinal->0 + 1) as u64, end: ordinal })
        } else {
            turn.skipped
        }
    }

    /// What consuming the next turn in order yields.
    pub open spec fn reading(self, turn: SyncTurn) -> Result<SyncTurn, &'static str> {
        if self.next == u64::MAX {
            Err("sequence_overflow")
        } else {
            match turn.command {
                Some(command) => match self.report_ordinal(command, turn.generation) {
                    Ok(ordinal) => Ok(
                        SyncTurn { ordinal: Some(ordinal), skipped: self.gap_before(ordinal, turn), ..turn },
                    ),
                    Err(reason) => Err(reason),
                },
                None => if turn.generation is Some { Err("generation_without_sync") } else { Ok(turn) },
            }
        }
    }

    /// The mode fixed by the first report.
    pub open spec fn mode_after(self, turn: SyncTurn) -> Option<SyncMode> {
        if self.mode is None && turn.command is Some {
            match turn.generation {
                None => if self.next == u64::MAX { None } else { Some(SyncMode::Legacy) },
                Some(_) => if self.reading(turn) is Ok { Some(SyncMode::Enhanced) } else { None },
            }
        } else {
            self.mode
        }
    }

    /// The origin after consuming its next turn in order.
    pub open spec fn consume(self, seq: u64, turn: SyncTurn) -> SlotTurnsView {
        let moded = SlotTurnsView { mode: self.mode_after(turn), ..self };
        match self.reading(turn) {
            Err(reason) => moded.failed(reason, seq, turn),
            Ok(read) => SlotTurnsView {
                next: (self.next + 1) as u64,
                ordinal: if turn.command is Some { read.ordinal } else { self.ordinal },
                ..moded
            },
        }
    }

    /// What consuming its next turn in order hands out.
    pub open spec fn consumed(self, seq: u64, turn: SyncTurn) -> Result<Option<SyncTurn>, SyncOrderingFailure> {
        match self.reading(turn) {
            Err(reason) => Err(self.failure_for(reason, seq, turn)),
            Ok(read) => Ok(Some(read)),
        }
    }

    /// Why turn `seq` cannot be kept for later, if it cannot.
    pub open spec fn refusal(self, seq: u64) -> Option<&'static str> {
        if seq - self.next >= SYNC_TURN_WINDOW && seq.saturating_sub(self.first_missing()) >= SYNC_TURN_WINDOW {
            Some("sequence_gap")
        } else if crate::ordmap::listing(self.pending.dom()).len() >= SYNC_TURN_WINDOW && !self.pending.contains_key(seq) {
            Some("metadata_capacity")
        } else {
            None
        }
    }

    /// The origin after turn `seq` arrived.
    pub open spec fn push(self, seq: u64, turn: SyncTurn) -> SlotTurnsView {
        if self.failure is Some || seq < self.next {
            self
        } else if seq == self.next {
            self.consume(seq, turn)
        } else {
            match self.refusal(seq) {
                Some(reason) => self.failed(reason, seq, turn),
                None => if self.pending.contains_key(seq) {
                    self
                } else {
                    SlotTurnsView { pending: self.pending.insert(seq, turn), ..self }
                },
            }
        }
    }

    /// What the arrival of turn `seq` hands out.
    pub open spec fn pushed(self, seq: u64, turn: SyncTurn) -> Result<Option<SyncTurn>, SyncOrderingFailure> {
        if self.failure is Some || seq < self.next {
            Ok(None)
        } else if seq == self.next {
            self.consumed(seq, turn)
        } else {
            match self.refusal(seq) {
                Some(reason) => Err(self.failure_for(reason, seq, turn)),
                None => Ok(None),
            }
        }
    }

    pub open spec fn without_next(self) -> SlotTurnsView {
        SlotTurnsView { pending: self.pending.remove(self.next), ..self }
    }

    /// The origin after its next turn was taken from those that arrived early.
    pub open spec fn pop(self) -> SlotTurnsView {
        if self.pending.contains_key(self.next) {
            self.without_next().consume(self.next, self.pending[self.next])
        } else {
            self
        }
    }

    pub open spec fn popped(self) -> Result<Option<SyncTurn>, SyncOrderingFailure> {
        if self.pending.contains_key(self.next) {
            self.without_next().consumed(self.next, self.pending[self.next])
        } else {
            Ok(None)
        }
    }
}

/// One origin's turns.
pub struct SlotTurns {
    pub next: u64,
    pub pending: OrdMap<u64, SyncTurn>,
    pub ordinal: Option<u64>,
    pub mode: Option<SyncMode>,
    pub failure: Option<SyncOrderingFailure>,
}

impl View for SlotTurns {
    type V = SlotTurnsView;

    open spec fn view(&self) -> SlotTurnsView {
        SlotTurnsView {
            next: self.next,
            pending: self.pending@,
            ordinal: self.ordinal,
            mode: self.mode,
            failure: self.failure,
        }
    }
}

impl Default for SlotTurns {
    fn default() -> (r: Self)
        ensures
            r@ == SlotTurnsView::fresh(),
    {
        SlotTurns { next: 0, pending: OrdMap::new(), ordinal: None, mode: None, failure: None }
    }
}

/// The generation that ring position `ring` stands for after generation `last`.
fn unwrap_legacy_ordinal(last: Option<u64>, ring: u64) -> (r: Result<u64, &'static str>)
    ensures
        r == legacy_ordinal(last, ring),
{
    match last {
        None => Ok(ring),
        Some(last) => {
            if last % 16 == ring {
                Ok(last)
            } else if (last % 16 + 1) % 16 == ring {
                if last < u64::MAX { Ok(last + 1) } else { Err("ordinal_overflow") }
            } else {
                Err("ring_discontinuity")
            }
        },
    }
}

impl SlotTurns {
    /// The first sequence that has not arrived.
    fn first_missing(&self) -> (r: u64)
        ensures
            r == self@.first_missing(),
    {
        let mut next: u64 = self.next;
        while self.pending.contains_key(next) && next < u64::MAX
            invariant
                self@.missing_from(next) == self@.first_missing(),
            decreases u64::MAX - next,
        {
            next = next + 1;
        }
        next
    }

    /// Gives the origin up, keeping the context of the failure.
    fn fail(&mut self, reason: &'static str, seq: u64, turn: SyncTurn) -> (r: SyncOrderingFailure)
        ensures
            r == old(self)@.failure_for(reason, seq, turn),
            final(self)@ == old(self)@.failed(reason, seq, turn),
    {
        let failure = SyncOrderingFailure {
            reason,
            seq,
            next: self.first_missing(),
            previous_ordinal: self.ordinal,
            ring: match turn.command {
                Some(command) => Some(command.ring),
                None => None,
            },
        };
        self.pending = OrdMap::new();
        self.failure = Some(failure);
        failure
    }

    fn tag_ordinal(&self, generation: u64, ring: u8) -> (r: Result<u64, &'static str>)
        ensures
            r == self@.tagged_ordinal(generation, ring),
    {
        if generation == u64::MAX {
            return Err("generation_overflow");
        }
        if generation % 16 != ring as u64 {
            return Err("generation_ring_mismatch");
        }
        match self.ordinal {
            None => Err("generation_missing_anchor"),
            Some(last) => {
                if generation < last {
                    Err("generation_regression")
                } else if generation - last > GAME_SYNC_SAFE_BUFFER_MAX as u64 {
                    Err("generation_jump")
                } else {
                    Ok(generation)
                }
            },
        }
    }

    /// Consumes the next turn in order, unwrapping its report's generation.
    fn consume(&mut self, seq: u64, turn: SyncTurn) -> (r: Result<Option<SyncTurn>, SyncOrderingFailure>)
        ensures
            r == old(self)@.consumed(seq, turn),
            final(self)@ == old(self)@.consume(seq, turn),
    {
        if self.next == u64::MAX {
            return Err(self.fail("sequence_overflow", seq, turn));
        }
        let next: u64 = self.next + 1;
        let mut read = turn;
        if let Some(command) = turn.command {
            let outcome: Result<u64, &'static str> = match (self.mode, turn.generation) {
                (None, None) => {
                    self.mode = Some(SyncMode::Legacy);
                    unwrap_legacy_ordinal(self.ordinal, command.ring as u64)
                },
                (None, Some(generation)) => {
                    if generation == u64::MAX {
                        Err("generation_overflow")
                    } else if generation != command.ring as u64 {
                        Err("generation_initial_anchor")
                    } else {
                        self.mode = Some(SyncMode::Enhanced);
                        Ok(generation)
                    }
                },
                (Some(SyncMode::Legacy), None) => unwrap_legacy_ordinal(self.ordinal, command.ring as u64),
                (Some(SyncMode::Enhanced), Some(generation)) => {
                    let outcome = self.tag_ordinal(generation, command.ring);
                    if let (Ok(_), Some(last)) = (outcome, self.ordinal) {
                        if generation - last > 1 {
                            read = SyncTurn { skipped: Some(SyncGap { first: last + 1, end: generation }), ..read };
                        }
                    }
                    outcome
                },
                (Some(SyncMode::Legacy), Some(_)) => Err("generation_mode_mismatch"),
                (Some(SyncMode::Enhanced), None) => Err("generation_mode_mismatch"),
            };
            match outcome {
                Err(reason) => {
                    proof {
                        old(self)@.lemma_missing_alike(self@, self.next);
                    }
                    return Err(self.fail(reason, seq, turn));
                },
                Ok(ordinal) => {
                    self.ordinal = Some(ordinal);
                    read = SyncTurn { ordinal: Some(ordinal), ..read };
                },
            }
        } else if turn.generation.is_some() {
            return Err(self.fail("generation_without_sync", seq, turn));
        }
        self.next = next;
        Ok(Some(read))
    }
}

impl SlotTurnsView {
    /// What is missing depends on what is pending alone.
    proof fn lemma_missing_alike(self, other: SlotTurnsView, n: u64)
        requires
            self.pending == other.pending,
        ensures
            self.missing_from(n) == other.missing_from(n),
        decreases u64::MAX - n,
    {
        if self.pending.contains_key(n) && n < u64::MAX {
            self.lemma_missing_alike(other, (n + 1) as u64);
        }
    }
}

/// Every origin's turns. Failure is permanent for an origin; the others keep their own
/// history.
pub struct SyncTurns {
    pub slots: OrdMap<SlotId, SlotTurns>,
}

impl View for SyncTurns {
    type V = Map<SlotId, SlotTurnsView>;

    open spec fn view(&self) -> Map<SlotId, SlotTurnsView> {
        self.slots@
    }
}

impl Default for SyncTurns {
    fn default() -> (r: Self)
        ensures
            r@ == Map::<SlotId, SlotTurnsView>::empty(),
    {
        SyncTurns { slots: OrdMap::new() }
    }
}

/// One origin's turns, nothing yet where it is unknown.
pub open spec fn origin(turns: Map<SlotId, SlotTurnsView>, slot: SlotId) -> SlotTurnsView {
    if turns.contains_key(slot) { turns[slot] } else { SlotTurnsView::fresh() }
}

impl SyncTurns {
    /// Takes turn `seq` of `slot` in: handed out at once where it is the next one, kept
    /// where an earlier one is missing, ignored where it repeats.
    pub fn push(&mut self, slot: SlotId, seq: u64, turn: SyncTurn) -> (r: Result<Option<SyncTurn>, SyncOrderingFailure>)
        ensures
            r == origin(old(self)@, slot).pushed(seq, turn),
            final(self)@ == old(self)@.insert(slot, origin(old(self)@, slot).push(seq, turn)),
    {
        let mut state = match self.slots.remove(slot) {
            Some(state) => state,
            None => SlotTurns::default(),
        };
        let ghost before = state@;
        let r = if state.failure.is_some() || seq < state.next {
            Ok(None)
        } else if seq == state.next {
            state.consume(seq, turn)
        } else if seq - state.next >= SYNC_TURN_WINDOW && seq.saturating_sub(state.first_missing()) >= SYNC_TURN_WINDOW {
            Err(state.fail("sequence_gap", seq, turn))
        } else if state.pending.len() as u64 >= SYNC_TURN_WINDOW && !state.pending.contains_key(seq) {
            Err(state.fail("metadata_capacity", seq, turn))
        } else {
            if !state.pending.contains_key(seq) {
                state.pending.insert(seq, turn);
            }
            Ok(None)
        };
        self.slots.insert(slot, state);
        assert(self@ =~= old(self)@.insert(slot, before.push(seq, turn)));
        r
    }

    /// Hands out the next turn of `slot` where it arrived early.
    pub fn pop_ready(&mut self, slot: SlotId) -> (r: Result<Option<SyncTurn>, SyncOrderingFailure>)
        ensures
            r == origin(old(self)@, slot).popped(),
            final(self)@ == if old(self)@.contains_key(slot) {
                old(self)@.insert(slot, old(self)@[slot].pop())
            } else {
                old(self)@
            },
    {
        let mut state = match self.slots.remove(slot) {
            Some(state) => state,
            None => {
                return Ok(None);
            },
        };
        let next: u64 = state.next;
        let r = match state.pending.remove(next) {
            None => {
                assert(state@ =~= old(self)@[slot]);
                Ok(None)
            },
            Some(turn) => state.consume(next, turn),
        };
        self.slots.insert(slot, state);
        assert(self@ =~= old(self)@.insert(slot, old(self)@[slot].pop()));
        r
    }

    /// Why `slot` can no longer be ordered, if it cannot.
    pub fn failure(&self, slot: SlotId) -> (r: Option<SyncOrderingFailure>)
        ensures
            r == origin(self@, slot).failure,
    {
        match self.slots.get(slot) {
            Some(state) => state.failure,
            None => None,
        }
    }

    /// Whether `slot` can no longer be ordered.
    pub fn unavailable(&self, slot: SlotId) -> (r: bool)
        ensures
            r == (origin(self@, slot).failure is Some),
    {
        self.failure(slot).is_some()
    }

    /// Whether `slot` has an unwrapped generation and nothing waiting.
    pub fn ordered(&self, slot: SlotId) -> (r: bool)
        ensures
            r == (origin(self@, slot).failure is None && origin(self@, slot).ordinal is Some && origin(
                self@,
                slot,
            ).pending.dom() =~= Set::empty()),
    {
        match self.slots.get(slot) {
            Some(state) => state.failure.is_none() && state.ordinal.is_some() && state.pending.is_empty(),
            None => false,
        }
    }

    /// The origins seen, in ascending order.
    pub fn slots(&self) -> (r: Vec<SlotId>)
        ensures
            r@ == crate::ordmap::listing(self@.dom()),
            crate::ordmap::lists(r@, self@.dom()),
    {
        self.slots.keys()
    }
}

} // verus!
