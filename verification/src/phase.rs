//! Per-session send-phase alignment for the client edge.
//!
//! Lockstep clients all send at the same rate, one turn per turn interval, but at
//! uncorrelated phases within the interval. At a one-turn latency buffer there is no
//! slack, so each client micro-stalls on whichever peer's turns arrive just after its
//! own poll boundary. Driving all arrival phases at the relay equal removes those
//! stalls.
//!
//! Four guards keep the loop stable: a health gate (no evaluation while an active
//! slot's arrival interval deviates from the turn interval), a per-round change cap, a
//! give-up latch, and a per-slot command fence released only by an explicit
//! acknowledgement.
use crate::ids::SlotId;
use crate::ordmap::OrdKey;
use crate::ordmap::OrdMap;
use crate::ordmap::OrdSet;
use crate::time::Duration;
use crate::time::Instant;
use vstd::prelude::*;

verus! {

/// Rate at which a client moves its applied delay toward a newly commanded one, in
/// microseconds of delay change per second of wall clock.
pub const SLEW_US_PER_S: u32 = 2_000;

/// No corrections are issued while the phase cluster's span is at or under this.
pub const SPAN_DEAD_BAND_US: i64 = 3_000;

/// A slot whose commanded delay would change by no more than this keeps its value.
pub const SLOT_MIN_CHANGE_US: i64 = 1_000;

/// The most a slot's commanded delay may change in one round.
pub const SLOT_MAX_CHANGE_US: i64 = 8_000;

/// How far a slot's inter-arrival interval may sit from the turn interval and still
/// count as healthy.
pub const INTERVAL_TOLERANCE_US: i64 = 800;

/// Outside-dead-band evaluations allowed without ever measuring the population inside
/// the dead-band before the controller disables itself.
pub const MAX_UNCONVERGED_ROUNDS: u32 = 8;

/// How long the population must sit continuously stretched before the pressure term
/// presses the buffer target.
pub const STRETCH_SUSTAIN_NANOS: u64 = 5_000_000_000;

/// Samples a slot needs before its estimate is trusted.
pub const MIN_SAMPLES: u32 = 24;

/// How old a slot's last sample may be and still describe the present.
pub const SAMPLE_MAX_AGE_NANOS: u64 = 2_000_000_000;

/// Settle time after a slew before the estimates are read again.
pub const SETTLE_NANOS: u64 = 8_000_000_000;

/// Delay from the first arrival to the first evaluation.
pub const FIRST_EVAL_DELAY_NANOS: u64 = 5_000_000_000;

/// Re-evaluation cadence while there is nothing to correct.
pub const IDLE_REEVAL_NANOS: u64 = 5_000_000_000;

/// One slot's running arrival estimate.
#[derive(Clone, Copy, Debug, PartialEq, Eq, Structural)]
pub struct SlotPhase {
    /// Smoothed arrival time less the nominal send time, in microseconds.
    pub residual_us: i64,
    /// Smoothed inter-arrival interval per turn.
    pub interval_us: Option<i64>,
    pub last_seq: u64,
    pub samples: u32,
    pub last_sample: Instant,
}

impl View for SlotPhase {
    type V = SlotPhase;

    open spec fn view(&self) -> SlotPhase {
        *self
    }
}

/// How long a client takes to carry a change of `change_us` out, in nanoseconds.
pub open spec fn slew_nanos(change_us: int) -> int {
    change_us * 1_000_000 / (SLEW_US_PER_S as int) * 1_000
}

fn slew_time(change_us: u64) -> (r: u64)
    requires
        change_us <= 0xffff_ffff,
    ensures
        r == slew_nanos(change_us as int),
{
    change_us * 1_000_000 / SLEW_US_PER_S as u64 * 1_000
}

/// `prior` moved a thirty-second of the way to `sample`, rounded down.
pub open spec fn smoothed(prior: int, sample: int) -> int {
    prior + (sample - prior) / 32
}

impl SlotPhase {
    /// Whether there are samples enough, and fresh enough, to trust the estimate.
    pub open spec fn measurable(self, now: Instant) -> bool {
        self.samples >= MIN_SAMPLES && now.spec_since(self.last_sample).nanos <= SAMPLE_MAX_AGE_NANOS
    }

    /// Whether the slot runs at the nominal turn period.
    pub open spec fn healthy(self, turn_us: u32) -> bool {
        self.interval_us is Some && -INTERVAL_TOLERANCE_US <= self.interval_us->0 - turn_us <= INTERVAL_TOLERANCE_US
    }

    /// Whether the slot runs slower than the nominal turn period.
    pub open spec fn stretched(self, turn_us: u32) -> bool {
        self.interval_us is Some && self.interval_us->0 - turn_us > INTERVAL_TOLERANCE_US
    }

    /// The arrival interval per turn that an arrival of `seq` at `now` measures.
    pub open spec fn measured_interval(self, seq: u64, now: Instant, turn_us: u32) -> int {
        let per_turn = now.spec_since(self.last_sample).spec_as_micros() / (seq - self.last_seq);
        if per_turn <= 4 * turn_us { per_turn } else { 4 * turn_us }
    }

    /// The estimate with a later arrival folded in.
    pub open spec fn folded(self, residual: int, seq: u64, now: Instant, turn_us: u32) -> SlotPhase {
        SlotPhase {
            residual_us: smoothed(self.residual_us as int, residual) as i64,
            interval_us: if seq - self.last_seq <= 4 {
                let interval = self.measured_interval(seq, now, turn_us);
                match self.interval_us {
                    Some(prior) => Some(smoothed(prior as int, interval) as i64),
                    None => Some(interval as i64),
                }
            } else {
                self.interval_us
            },
            last_seq: seq,
            samples: self.samples.saturating_add(1),
            last_sample: now,
        }
    }
}

/// A slot's position on the turn cycle; ordered by phase, then by slot.
#[derive(Clone, Copy, Debug, PartialEq, Eq, Structural)]
pub struct PhasePoint {
    pub phase: u32,
    pub slot: SlotId,
}

impl OrdKey for PhasePoint {
    open spec fn rank(self) -> int {
        self.phase * 256 + self.slot.0
    }

    proof fn rank_is_injective(a: Self, b: Self) {
    }

    fn to_rank(self) -> (r: u64) {
        self.phase as u64 * 256 + self.slot.0 as u64
    }
}

/// The cyclic distance from the `i`-th phase to the next one around the turn.
pub open spec fn gap_after(points: Seq<PhasePoint>, turn_us: u32, i: int) -> int {
    if i + 1 < points.len() {
        points[i + 1].phase - points[i].phase
    } else {
        points[0].phase + turn_us - points[i].phase
    }
}

/// The first of the `n` leading phases with the widest gap behind it.
pub open spec fn widest_gap_index(points: Seq<PhasePoint>, turn_us: u32, n: int) -> int
    decreases n,
{
    if n <= 1 {
        0
    } else {
        let best = widest_gap_index(points, turn_us, n - 1);
        if gap_after(points, turn_us, n - 1) > gap_after(points, turn_us, best) {
            n - 1
        } else {
            best
        }
    }
}

/// The index of the cluster's latest phase: the one before the widest gap.
pub open spec fn cluster_end(points: Seq<PhasePoint>, turn_us: u32) -> int {
    widest_gap_index(points, turn_us, points.len() as int)
}

/// How much of the turn the cluster covers.
pub open spec fn cluster_span(points: Seq<PhasePoint>, turn_us: u32) -> int {
    turn_us - gap_after(points, turn_us, cluster_end(points, turn_us))
}

pub open spec fn clamped(x: int, low: int, high: int) -> int {
    if x < low {
        low
    } else if x > high {
        high
    } else {
        x
    }
}

/// The delay a slot at `phase` should carry next to walk onto `target`, one capped step
/// from `current`: the delay-reducing direction where the current delay can absorb it
/// and it is the shorter one, and never outside the turn.
pub open spec fn next_delay(current: int, phase: int, target: int, turn_us: u32) -> int {
    let forward = (target - phase) % (turn_us as int);
    let backward = forward - turn_us;
    let change = if current + backward >= 0 && -backward < forward { backward } else { forward };
    clamped(current + clamped(change, -SLOT_MAX_CHANGE_US as int, SLOT_MAX_CHANGE_US as int), 0, turn_us - 1)
}

pub open spec fn abs(x: int) -> int {
    if x >= 0 { x } else { -x }
}

/// What a [`PhaseController`] knows and has commanded.
#[verifier::ext_equal]
pub struct PhaseView {
    pub turn_us: u32,
    pub epoch: Option<Instant>,
    pub slots: Map<SlotId, SlotPhase>,
    pub commanded: Map<SlotId, u32>,
    pub awaiting: Set<SlotId>,
    pub next_eval_at: Option<Instant>,
    pub unconverged_rounds: u32,
    pub disabled: bool,
    pub stretch_since: Option<Instant>,
    pub stretch_pressing: bool,
    pub corrections_issued: u64,
    pub last_span_us: Option<i64>,
}

impl PhaseView {
    pub open spec fn fresh(turn_duration_us: u32) -> PhaseView {
        PhaseView {
            turn_us: if turn_duration_us == 0 { 41_666 } else { turn_duration_us },
            epoch: None,
            slots: Map::empty(),
            commanded: Map::empty(),
            awaiting: Set::empty(),
            next_eval_at: None,
            unconverged_rounds: 0,
            disabled: false,
            stretch_since: None,
            stretch_pressing: false,
            corrections_issued: 0,
            last_span_us: None,
        }
    }

    /// The epoch and the first evaluation's time, set by the first arrival.
    pub open spec fn opened(self, now: Instant) -> PhaseView {
        PhaseView {
            epoch: Some(match self.epoch {
                Some(epoch) => epoch,
                None => now,
            }),
            next_eval_at: Some(match self.next_eval_at {
                Some(at) => at,
                None => now.spec_plus(Duration { nanos: FIRST_EVAL_DELAY_NANOS }),
            }),
            ..self
        }
    }

    /// One turn's arrival folded into its slot's estimate. A sequence number whose
    /// nominal time is past all representable time, or no later than the last, is
    /// ignored.
    pub open spec fn note_arrival(self, slot: SlotId, seq: u64, now: Instant) -> PhaseView {
        let base = self.opened(now);
        let expected = seq * self.turn_us;
        let residual = now.spec_since(base.epoch->0).spec_as_micros() - expected;
        if expected > i64::MAX {
            base
        } else if !self.slots.contains_key(slot) {
            PhaseView {
                slots: self.slots.insert(
                    slot,
                    SlotPhase {
                        residual_us: residual as i64,
                        interval_us: None,
                        last_seq: seq,
                        samples: 1,
                        last_sample: now,
                    },
                ),
                ..base
            }
        } else if seq <= self.slots[slot].last_seq {
            base
        } else {
            PhaseView {
                slots: self.slots.insert(slot, self.slots[slot].folded(residual, seq, now, self.turn_us)),
                ..base
            }
        }
    }

    /// Whether an evaluation is due.
    pub open spec fn due(self, now: Instant) -> bool {
        !self.disabled && self.next_eval_at is Some && now.nanos >= self.next_eval_at->0.nanos
    }

    /// Whether some active slot's arrivals say the session is churning.
    pub open spec fn churning(self, now: Instant) -> bool {
        exists|slot: SlotId| #[trigger]
            self.slots.contains_key(slot) && self.slots[slot].measurable(now) && !self.slots[slot].healthy(self.turn_us)
    }

    /// Whether some active slot's arrivals run slower than the turn interval.
    pub open spec fn stretched(self, now: Instant) -> bool {
        exists|slot: SlotId| #[trigger]
            self.slots.contains_key(slot) && self.slots[slot].measurable(now) && self.slots[slot].stretched(self.turn_us)
    }

    /// The measurable population's positions on the turn cycle.
    pub open spec fn points(self, now: Instant) -> Set<PhasePoint> {
        Set::new(
            |p: PhasePoint|
                self.slots.contains_key(p.slot) && self.slots[p.slot].measurable(now) && p.phase
                    == self.slots[p.slot].residual_us as int % self.turn_us as int,
        )
    }

    pub open spec fn current_delay(self, slot: SlotId) -> u32 {
        if self.commanded.contains_key(slot) { self.commanded[slot] } else { 0 }
    }

    /// The delay to command to the slot at `point`, where it is to be commanded one: a
    /// fenced slot is not, nor one that would hardly move.
    pub open spec fn correction(self, point: PhasePoint, target: u32) -> Option<u32> {
        let current = self.current_delay(point.slot) as int;
        let next = next_delay(current, point.phase as int, target as int, self.turn_us);
        if self.awaiting.contains(point.slot) || abs(next - current) <= SLOT_MIN_CHANGE_US {
            None
        } else {
            Some(next as u32)
        }
    }

    /// The corrections for the first `n` points, in their order.
    pub open spec fn corrections(self, points: Seq<PhasePoint>, target: u32, n: int) -> Seq<(SlotId, u32)>
        decreases n,
    {
        if n <= 0 {
            Seq::empty()
        } else {
            let before = self.corrections(points, target, n - 1);
            match self.correction(points[n - 1], target) {
                Some(next) => before.push((points[n - 1].slot, next)),
                None => before,
            }
        }
    }

    /// The largest change among the first `n` of `corrections`.
    pub open spec fn widest_change(self, corrections: Seq<(SlotId, u32)>, n: int) -> int
        decreases n,
    {
        if n <= 0 {
            0
        } else {
            let before = self.widest_change(corrections, n - 1);
            let change = abs(corrections[n - 1].1 - self.current_delay(corrections[n - 1].0));
            if change > before { change } else { before }
        }
    }

    /// The first `n` of `corrections` commanded, each fencing its slot.
    pub open spec fn commanding(self, corrections: Seq<(SlotId, u32)>, n: int) -> PhaseView
        decreases n,
    {
        if n <= 0 {
            self
        } else {
            let before = self.commanding(corrections, n - 1);
            let (slot, delay) = corrections[n - 1];
            PhaseView {
                commanded: before.commanded.insert(slot, delay),
                awaiting: before.awaiting.insert(slot),
                ..before
            }
        }
    }

    pub open spec fn looking_again(self, now: Instant) -> PhaseView {
        PhaseView { next_eval_at: Some(now.spec_plus(Duration { nanos: IDLE_REEVAL_NANOS })), ..self }
    }

    /// The corrections an evaluation at `now` issues.
    pub open spec fn issued(self, now: Instant) -> Seq<(SlotId, u32)> {
        let points = crate::ordmap::listing(self.points(now));
        if !self.due(now) || self.churning(now) || points.len() < 2 || cluster_span(points, self.turn_us)
            <= SPAN_DEAD_BAND_US || self.unconverged_rounds.saturating_add(1) >= MAX_UNCONVERGED_ROUNDS {
            Seq::empty()
        } else {
            self.corrections(
                points,
                points[cluster_end(points, self.turn_us)].phase,
                points.len() as int,
            )
        }
    }

    /// The controller after an evaluation at `now`.
    pub open spec fn evaluate(self, now: Instant) -> PhaseView {
        let points = crate::ordmap::listing(self.points(now));
        let span = cluster_span(points, self.turn_us);
        let rounds = self.unconverged_rounds.saturating_add(1);
        let spanned = PhaseView { last_span_us: Some(span as i64), ..self };
        let issued = self.issued(now);
        if !self.due(now) {
            self
        } else if self.churning(now) || points.len() < 2 {
            self.looking_again(now)
        } else if span <= SPAN_DEAD_BAND_US {
            PhaseView { unconverged_rounds: 0, ..spanned.looking_again(now) }
        } else if rounds >= MAX_UNCONVERGED_ROUNDS {
            PhaseView { unconverged_rounds: rounds, disabled: true, ..spanned }
        } else if issued.len() == 0 {
            PhaseView { unconverged_rounds: rounds, ..spanned.looking_again(now) }
        } else {
            let slew = slew_nanos(self.widest_change(issued, issued.len() as int));
            PhaseView {
                unconverged_rounds: rounds,
                corrections_issued: self.corrections_issued.saturating_add(issued.len() as u64),
                next_eval_at: Some(
                    now.spec_plus(Duration { nanos: slew as u64 }).spec_plus(Duration { nanos: SETTLE_NANOS }),
                ),
                ..spanned.commanding(issued, issued.len() as int)
            }
        }
    }

    /// The controller after the pressure term was read at `now`.
    pub open spec fn pressed(self, now: Instant) -> PhaseView {
        if !self.stretched(now) {
            PhaseView { stretch_since: None, stretch_pressing: false, ..self }
        } else {
            PhaseView {
                stretch_since: Some(self.stretch_start(now)),
                stretch_pressing: self.stretch_pressing || self.stretch_turns(now) == 1,
                ..self
            }
        }
    }

    pub open spec fn stretch_start(self, now: Instant) -> Instant {
        match self.stretch_since {
            Some(since) => since,
            None => now,
        }
    }

    /// One turn of pressure once the population has been stretched long enough.
    pub open spec fn stretch_turns(self, now: Instant) -> u32 {
        if self.stretched(now) && now.spec_since(self.stretch_start(now)).nanos >= STRETCH_SUSTAIN_NANOS {
            1
        } else {
            0
        }
    }

    /// The controller after `slot` acknowledged `delay_us`: the fence falls only for
    /// the delay that was commanded, and the next evaluation waits for the slew.
    pub open spec fn note_applied(self, slot: SlotId, delay_us: u32, now: Instant) -> PhaseView {
        if self.commanded.contains_key(slot) && self.commanded[slot] == delay_us && self.awaiting.contains(slot) {
            let deadline = now.spec_plus(Duration { nanos: slew_nanos(SLOT_MAX_CHANGE_US as int) as u64 }).spec_plus(
                Duration { nanos: SETTLE_NANOS },
            );
            PhaseView {
                awaiting: self.awaiting.remove(slot),
                next_eval_at: Some(match self.next_eval_at {
                    Some(at) => if at.nanos >= deadline.nanos { at } else { deadline },
                    None => deadline,
                }),
                ..self
            }
        } else {
            self
        }
    }

    pub open spec fn remove_slot(self, slot: SlotId) -> PhaseView {
        PhaseView { slots: self.slots.remove(slot), ..self }
    }
}

/// A turn interval in microseconds, never zero.
pub struct TurnLength {
    us: u32,
}

impl TurnLength {
    #[verifier::type_invariant]
    spec fn wf(self) -> bool {
        self.us > 0
    }

    pub closed spec fn spec_us(self) -> u32 {
        self.us
    }

    /// The interval; a zero stands for the game's own turn rate.
    fn new(us: u32) -> (r: TurnLength)
        ensures
            r.spec_us() == if us == 0 { 41_666 } else { us },
    {
        if us == 0 {
            TurnLength { us: 1_000_000 / 24 }
        } else {
            TurnLength { us }
        }
    }

    fn get(&self) -> (r: u32)
        ensures
            r == self.spec_us(),
            r > 0,
    {
        proof {
            use_type_invariant(self);
        }
        self.us
    }
}

/// `prior` moved a thirty-second of the way to `sample`, rounded down.
fn smooth(prior: i64, sample: i64) -> (r: i64)
    ensures
        r == smoothed(prior as int, sample as int),
{
    let step: i128 = (sample as i128 - prior as i128).checked_div_euclid(32).unwrap();
    let moved: i128 = prior as i128 + step;
    assert(prior <= sample ==> prior <= moved <= sample);
    assert(sample <= prior ==> sample <= moved <= prior);
    moved as i64
}

/// The send-phase controller of one session.
pub struct PhaseController {
    turn: TurnLength,
    epoch: Option<Instant>,
    slots: OrdMap<SlotId, SlotPhase>,
    commanded_us: OrdMap<SlotId, u32>,
    awaiting_ack: OrdSet<SlotId>,
    next_eval_at: Option<Instant>,
    unconverged_rounds: u32,
    disabled: bool,
    stretch_since: Option<Instant>,
    stretch_pressing: bool,
    corrections_issued: u64,
    last_span_us: Option<i64>,
}

impl View for PhaseController {
    type V = PhaseView;

    closed spec fn view(&self) -> PhaseView {
        PhaseView {
            turn_us: self.turn.spec_us(),
            epoch: self.epoch,
            slots: self.slots@,
            commanded: self.commanded_us@,
            awaiting: self.awaiting_ack@,
            next_eval_at: self.next_eval_at,
            unconverged_rounds: self.unconverged_rounds,
            disabled: self.disabled,
            stretch_since: self.stretch_since,
            stretch_pressing: self.stretch_pressing,
            corrections_issued: self.corrections_issued,
            last_span_us: self.last_span_us,
        }
    }
}

impl PhaseController {
    /// A controller for turns of `turn_duration_us`; a zero stands for the game's own
    /// turn rate.
    pub fn new(turn_duration_us: u32) -> (r: Self)
        ensures
            r@ == PhaseView::fresh(turn_duration_us),
            r@.turn_us > 0,
    {
        PhaseController {
            turn: TurnLength::new(turn_duration_us),
            epoch: None,
            slots: OrdMap::new(),
            commanded_us: OrdMap::new(),
            awaiting_ack: OrdSet::new(),
            next_eval_at: None,
            unconverged_rounds: 0,
            disabled: false,
            stretch_since: None,
            stretch_pressing: false,
            corrections_issued: 0,
            last_span_us: None,
        }
    }

    /// Records the arrival of `slot`'s turn `seq` at `now`.
    pub fn note_arrival(&mut self, slot: SlotId, seq: u64, now: Instant)
        ensures
            final(self)@ == old(self)@.note_arrival(slot, seq, now),
    {
        let epoch = match self.epoch {
            Some(epoch) => epoch,
            None => now,
        };
        self.epoch = Some(epoch);
        if self.next_eval_at.is_none() {
            self.next_eval_at = Some(now.plus(Duration { nanos: FIRST_EVAL_DELAY_NANOS }));
        }
        let turn_us: u32 = self.turn.get();
        proof {
            assert(0 <= seq * turn_us <= 0xffff_ffff_ffff_ffff * 0xffff_ffff) by (nonlinear_arith)
                requires
                    0 <= seq <= 0xffff_ffff_ffff_ffff,
                    0 <= turn_us <= 0xffff_ffff,
            ;
        }
        let expected: u128 = seq as u128 * turn_us as u128;
        if expected > 0x7fff_ffff_ffff_ffff {
            return;
        }
        let elapsed: u64 = now.since(epoch).as_micros();
        let residual: i64 = elapsed as i64 - expected as i64;
        let found = self.slots.get(slot);
        if let Some(estimate) = found {
            let estimate: SlotPhase = *estimate;
            if seq <= estimate.last_seq {
                return;
            }
            let turns: u64 = seq - estimate.last_seq;
            let interval_us = if turns <= 4 {
                let gap: u64 = now.since(estimate.last_sample).as_micros();
                let per_turn: u64 = gap / turns;
                let ceiling: u64 = 4 * turn_us as u64;
                let interval: i64 = if per_turn <= ceiling { per_turn as i64 } else { ceiling as i64 };
                match estimate.interval_us {
                    Some(prior) => Some(smooth(prior, interval)),
                    None => Some(interval),
                }
            } else {
                estimate.interval_us
            };
            let folded = SlotPhase {
                residual_us: smooth(estimate.residual_us, residual),
                interval_us,
                last_seq: seq,
                samples: estimate.samples.saturating_add(1),
                last_sample: now,
            };
            self.slots.insert(slot, folded);
        } else {
            self.slots.insert(
                slot,
                SlotPhase {
                    residual_us: residual,
                    interval_us: None,
                    last_seq: seq,
                    samples: 1,
                    last_sample: now,
                },
            );
        }
    }

    fn is_measurable(estimate: &SlotPhase, now: Instant) -> (r: bool)
        ensures
            r == estimate.measurable(now),
    {
        estimate.samples >= MIN_SAMPLES && now.since(estimate.last_sample).nanos <= SAMPLE_MAX_AGE_NANOS
    }

    /// Whether some active slot's arrivals say the session is churning.
    fn is_churning(&self, now: Instant) -> (r: bool)
        ensures
            r == self@.churning(now),
    {
        let turn_us: u32 = self.turn.get();
        let n: usize = self.slots.len();
        let ghost keys = crate::ordmap::listing(self.slots@.dom());
        let mut i: usize = 0;
        while i < n
            invariant
                i <= n,
                n == keys.len(),
                keys == crate::ordmap::listing(self.slots@.dom()),
                turn_us == self@.turn_us,
                self.slots@ == self@.slots,
                forall|j: int|
                    0 <= j < i ==> !(self@.slots[#[trigger] keys[j]].measurable(now)
                        && !self@.slots[keys[j]].healthy(self@.turn_us)),
            decreases n - i,
        {
            let estimate = self.slots.value_at(i);
            if Self::is_measurable(estimate, now) {
                let healthy = match estimate.interval_us {
                    Some(iv) => {
                        let off: i128 = iv as i128 - turn_us as i128;
                        -800 <= off && off <= 800
                    },
                    None => false,
                };
                if !healthy {
                    assert(self@.slots.contains_key(keys[i as int]));
                    return true;
                }
            }
            i += 1;
        }
        assert forall|slot: SlotId| #[trigger] self@.slots.contains_key(slot) implies !(self@.slots[slot].measurable(now)
            && !self@.slots[slot].healthy(self@.turn_us)) by {
            assert(self.slots@.dom().contains(slot));
            assert(keys.contains(slot));
        }
        false
    }

    /// Whether some active slot's arrivals run slower than the turn interval.
    fn is_stretched(&self, now: Instant) -> (r: bool)
        ensures
            r == self@.stretched(now),
    {
        let turn_us: u32 = self.turn.get();
        let n: usize = self.slots.len();
        let ghost keys = crate::ordmap::listing(self.slots@.dom());
        let mut i: usize = 0;
        while i < n
            invariant
                i <= n,
                n == keys.len(),
                keys == crate::ordmap::listing(self.slots@.dom()),
                turn_us == self@.turn_us,
                self.slots@ == self@.slots,
                forall|j: int|
                    0 <= j < i ==> !(self@.slots[#[trigger] keys[j]].measurable(now)
                        && self@.slots[keys[j]].stretched(self@.turn_us)),
            decreases n - i,
        {
            let estimate = self.slots.value_at(i);
            if Self::is_measurable(estimate, now) {
                if let Some(iv) = estimate.interval_us {
                    if iv as i128 - turn_us as i128 > 800 {
                        assert(self@.slots.contains_key(keys[i as int]));
                        return true;
                    }
                }
            }
            i += 1;
        }
        assert forall|slot: SlotId| #[trigger] self@.slots.contains_key(slot) implies !(self@.slots[slot].measurable(now)
            && self@.slots[slot].stretched(self@.turn_us)) by {
            assert(self.slots@.dom().contains(slot));
            assert(keys.contains(slot));
        }
        false
    }

    /// The measurable population in phase order.
    fn phase_points(&self, now: Instant) -> (r: Vec<PhasePoint>)
        ensures
            r@ == crate::ordmap::listing(self@.points(now)),
            crate::ordmap::lists(r@, self@.points(now)),
            forall|i: int| 0 <= i < r@.len() ==> (#[trigger] r@[i]).phase < self@.turn_us,
            self@.turn_us > 0,
    {
        let turn_us: u32 = self.turn.get();
        let n: usize = self.slots.len();
        let ghost keys = crate::ordmap::listing(self.slots@.dom());
        let mut points: OrdSet<PhasePoint> = OrdSet::new();
        let mut i: usize = 0;
        while i < n
            invariant
                i <= n,
                n == keys.len(),
                keys == crate::ordmap::listing(self.slots@.dom()),
                crate::ordmap::lists(keys, self.slots@.dom()),
                turn_us == self@.turn_us,
                turn_us > 0,
                self.slots@ == self@.slots,
                forall|p: PhasePoint| #[trigger]
                    points@.contains(p) <==> self@.points(now).contains(p) && keys.take(i as int).contains(p.slot),
            decreases n - i,
        {
            let slot = self.slots.key_at(i);
            let estimate = self.slots.value_at(i);
            let ghost before = points@;
            if Self::is_measurable(estimate, now) {
                let phase: i64 = estimate.residual_us.checked_rem_euclid(turn_us as i64).unwrap();
                points.insert(PhasePoint { phase: phase as u32, slot });
            }
            proof {
                let next = keys.take(i + 1);
                assert(next =~= keys.take(i as int).push(slot));
                assert(next[i as int] == slot);
                assert forall|p: PhasePoint| #[trigger] points@.contains(p) <==> self@.points(now).contains(p)
                    && next.contains(p.slot) by {
                    if next.contains(p.slot) {
                        let j = choose|j: int| 0 <= j < next.len() && next[j] == p.slot;
                        if j < i {
                            assert(keys.take(i as int)[j] == p.slot);
                        }
                    }
                    if keys.take(i as int).contains(p.slot) {
                        let j = choose|j: int| 0 <= j < i && keys.take(i as int)[j] == p.slot;
                        assert(next[j] == p.slot);
                    }
                }
            }
            i += 1;
        }
        assert(points@ =~= self@.points(now)) by {
            assert(keys.take(n as int) =~= keys);
            assert forall|p: PhasePoint| self@.points(now).contains(p) implies #[trigger] points@.contains(p) by {
                assert(self.slots@.dom().contains(p.slot));
                assert(keys.contains(p.slot));
            }
        }
        let r = points.keys();
        assert forall|j: int| 0 <= j < r@.len() implies (#[trigger] r@[j]).phase < self@.turn_us by {
            assert(r@.contains(r@[j]));
            assert(self@.points(now).contains(r@[j]));
        }
        r
    }

    /// The index of the cluster's latest phase, and the gap behind it.
    fn find_cluster_end(points: &Vec<PhasePoint>, turn_us: u32) -> (r: (usize, u64))
        requires
            points@.len() >= 2,
            crate::ordmap::ascending(points@),
            forall|i: int| 0 <= i < points@.len() ==> (#[trigger] points@[i]).phase < turn_us,
        ensures
            r.0 == cluster_end(points@, turn_us),
            r.0 < points@.len(),
            r.1 == gap_after(points@, turn_us, r.0 as int),
            r.1 <= turn_us,
    {
        let count: usize = points.len();
        let mut best: usize = 0;
        assert(points@[0].rank() < points@[1].rank());
        let mut widest: u64 = (points[1].phase - points[0].phase) as u64;
        let mut i: usize = 1;
        while i < count
            invariant
                1 <= i <= count,
                count == points@.len(),
                count >= 2,
                best < i,
                crate::ordmap::ascending(points@),
                forall|j: int| 0 <= j < points@.len() ==> (#[trigger] points@[j]).phase < turn_us,
                best == widest_gap_index(points@, turn_us, i as int),
                widest == gap_after(points@, turn_us, best as int),
                widest <= turn_us,
            decreases count - i,
        {
            let this: u32 = points[i].phase;
            let gap: u64 = if i + 1 < count {
                assert(points@[i as int].rank() < points@[i + 1].rank());
                (points[i + 1].phase - this) as u64
            } else {
                assert(points@[0].rank() < points@[i as int].rank());
                points[0].phase as u64 + turn_us as u64 - this as u64
            };
            if gap > widest {
                widest = gap;
                best = i;
            }
            i += 1;
        }
        (best, widest)
    }

    /// The delay to command to the slot at `point`, where it is to be commanded one.
    fn correction_for(&self, point: PhasePoint, target: u32) -> (r: Option<u32>)
        requires
            point.phase < self@.turn_us,
            target < self@.turn_us,
        ensures
            r == self@.correction(point, target),
    {
        if self.awaiting_ack.contains(point.slot) {
            return None;
        }
        let turn_us: i64 = self.turn.get() as i64;
        let distance: i64 = target as i64 - point.phase as i64;
        let forward: i64 = if distance >= 0 { distance } else { distance + turn_us };
        proof {
            assert(forward == (target - point.phase) % (turn_us as int)) by (nonlinear_arith)
                requires
                    turn_us > 0,
                    0 <= forward < turn_us,
                    forward == target - point.phase || forward == target - point.phase + turn_us,
            ;
        }
        let backward: i64 = forward - turn_us;
        let current: i64 = match self.commanded_us.get(point.slot) {
            Some(delay) => *delay as i64,
            None => 0,
        };
        let wanted: i64 = if current + backward >= 0 && -backward < forward { backward } else { forward };
        let capped: i64 = if wanted < -8_000 {
            -8_000
        } else if wanted > 8_000 {
            8_000
        } else {
            wanted
        };
        let moved: i64 = current + capped;
        let next: i64 = if moved < 0 {
            0
        } else if moved > turn_us - 1 {
            turn_us - 1
        } else {
            moved
        };
        let change: i64 = next - current;
        if -1_000 <= change && change <= 1_000 {
            return None;
        }
        Some(next as u32)
    }

    /// Runs one control iteration if one is due, returning the slots whose commanded
    /// delay changed, with their new absolute delays.
    pub fn evaluate(&mut self, now: Instant) -> (r: Vec<(SlotId, u32)>)
        ensures
            r@ == old(self)@.issued(now),
            final(self)@ == old(self)@.evaluate(now),
    {
        let ghost before = self@;
        if self.disabled {
            return Vec::new();
        }
        match self.next_eval_at {
            None => {
                return Vec::new();
            },
            Some(at) => {
                if now.nanos < at.nanos {
                    return Vec::new();
                }
            },
        }
        if self.is_churning(now) {
            self.next_eval_at = Some(now.plus(Duration { nanos: IDLE_REEVAL_NANOS }));
            return Vec::new();
        }
        let points = self.phase_points(now);
        if points.len() < 2 {
            self.next_eval_at = Some(now.plus(Duration { nanos: IDLE_REEVAL_NANOS }));
            return Vec::new();
        }
        let turn_us: u32 = self.turn.get();
        let (end, widest_gap) = Self::find_cluster_end(&points, turn_us);
        let span: i64 = turn_us as i64 - widest_gap as i64;
        self.last_span_us = Some(span);
        if span <= SPAN_DEAD_BAND_US {
            self.unconverged_rounds = 0;
            self.next_eval_at = Some(now.plus(Duration { nanos: IDLE_REEVAL_NANOS }));
            return Vec::new();
        }
        self.unconverged_rounds = self.unconverged_rounds.saturating_add(1);
        if self.unconverged_rounds >= MAX_UNCONVERGED_ROUNDS {
            self.disabled = true;
            return Vec::new();
        }
        let target: u32 = points[end].phase;
        let mut corrections: Vec<(SlotId, u32)> = Vec::new();
        let mut widest_change: u64 = 0;
        let mut i: usize = 0;
        while i < points.len()
            invariant
                i <= points@.len(),
                target < self@.turn_us,
                forall|j: int| 0 <= j < points@.len() ==> (#[trigger] points@[j]).phase < self@.turn_us,
                self@.commanded == before.commanded,
                self@.awaiting == before.awaiting,
                self@.turn_us == before.turn_us,
                self.commanded_us@ == before.commanded,
                corrections@ == before.corrections(points@, target, i as int),
                widest_change == before.widest_change(corrections@, corrections@.len() as int),
                widest_change <= 0xffff_ffff,
            decreases points@.len() - i,
        {
            let point = points[i];
            let next = self.correction_for(point, target);
            assert(self@.correction(point, target) == before.correction(point, target));
            if let Some(delay) = next {
                let current: u32 = match self.commanded_us.get(point.slot) {
                    Some(delay) => *delay,
                    None => 0,
                };
                let change: u64 = if delay >= current { (delay - current) as u64 } else { (current - delay) as u64 };
                let ghost shorter = corrections@;
                corrections.push((point.slot, delay));
                proof {
                    before.lemma_widest_change_prefix(shorter, corrections@, shorter.len() as int);
                }
                if change > widest_change {
                    widest_change = change;
                }
            }
            i += 1;
        }
        if corrections.len() == 0 {
            self.next_eval_at = Some(now.plus(Duration { nanos: IDLE_REEVAL_NANOS }));
            return corrections;
        }
        self.corrections_issued = self.corrections_issued.saturating_add(corrections.len() as u64);
        let ghost ready = self@;
        let mut k: usize = 0;
        while k < corrections.len()
            invariant
                k <= corrections@.len(),
                self@ == ready.commanding(corrections@, k as int),
            decreases corrections@.len() - k,
        {
            let (slot, delay) = corrections[k];
            self.awaiting_ack.insert(slot);
            self.commanded_us.insert(slot, delay);
            k += 1;
        }
        let slew = Duration { nanos: slew_time(widest_change) };
        self.next_eval_at = Some(now.plus(slew).plus(Duration { nanos: SETTLE_NANOS }));
        proof {
            ready.lemma_commanding(
                PhaseView { last_span_us: Some(span), ..before },
                corrections@,
                corrections@.len() as int,
            );
        }
        corrections
    }

    /// The buffer-pressure term, in turns: 1 while the session has sat continuously
    /// stretched for the sustain window, else 0.
    pub fn stretch_turns(&mut self, now: Instant) -> (r: u32)
        ensures
            r == old(self)@.stretch_turns(now),
            final(self)@ == old(self)@.pressed(now),
    {
        if !self.is_stretched(now) {
            self.stretch_since = None;
            self.stretch_pressing = false;
            return 0;
        }
        let since = match self.stretch_since {
            Some(since) => since,
            None => now,
        };
        self.stretch_since = Some(since);
        if now.since(since).nanos < STRETCH_SUSTAIN_NANOS {
            return 0;
        }
        self.stretch_pressing = true;
        1
    }

    /// Stops the controller for the session's remainder.
    pub fn force_disable(&mut self)
        ensures
            final(self)@ == (PhaseView { disabled: true, ..old(self)@ }),
    {
        self.disabled = true;
    }

    /// The delay `slot` was last commanded.
    pub fn commanded(&self, slot: SlotId) -> (r: Option<u32>)
        ensures
            r == if self@.commanded.contains_key(slot) { Some(self@.commanded[slot]) } else { None },
    {
        match self.commanded_us.get(slot) {
            Some(delay) => Some(*delay),
            None => None,
        }
    }

    /// Takes `slot`'s acknowledgement of `delay_us` in.
    pub fn note_applied(&mut self, slot: SlotId, delay_us: u32, now: Instant)
        ensures
            final(self)@ == old(self)@.note_applied(slot, delay_us, now),
    {
        let matches_command = match self.commanded_us.get(slot) {
            Some(delay) => *delay == delay_us,
            None => false,
        };
        if matches_command {
            let fenced = self.awaiting_ack.remove(slot);
            if fenced {
                let deadline = now.plus(Duration { nanos: slew_time(SLOT_MAX_CHANGE_US as u64) }).plus(
                    Duration { nanos: SETTLE_NANOS },
                );
                self.next_eval_at = Some(match self.next_eval_at {
                    Some(at) => if at.nanos >= deadline.nanos { at } else { deadline },
                    None => deadline,
                });
            }
        }
    }

    /// Forgets a departed slot's estimate; its command and its fence survive.
    pub fn remove_slot(&mut self, slot: SlotId)
        ensures
            final(self)@ == old(self)@.remove_slot(slot),
    {
        let _gone = self.slots.remove(slot);
    }

    /// How many corrections were issued in all.
    pub fn corrections_issued(&self) -> (r: u64)
        ensures
            r == self@.corrections_issued,
    {
        self.corrections_issued
    }

    /// The cluster span the most recent full evaluation measured.
    pub fn last_span_us(&self) -> (r: Option<i64>)
        ensures
            r == self@.last_span_us,
    {
        self.last_span_us
    }
}

impl PhaseView {
    proof fn lemma_widest_change_prefix(self, a: Seq<(SlotId, u32)>, b: Seq<(SlotId, u32)>, n: int)
        requires
            0 <= n <= a.len() <= b.len(),
            forall|i: int| 0 <= i < n ==> a[i] == b[i],
        ensures
            self.widest_change(a, n) == self.widest_change(b, n),
        decreases n,
    {
        if n > 0 {
            self.lemma_widest_change_prefix(a, b, n - 1);
        }
    }

    /// Commanding touches the commands and the fences alone, and starts from them alone.
    proof fn lemma_commanding(self, other: PhaseView, corrections: Seq<(SlotId, u32)>, n: int)
        requires
            self.commanded == other.commanded,
            self.awaiting == other.awaiting,
            0 <= n <= corrections.len(),
        ensures
            self.commanding(corrections, n).commanded == other.commanding(corrections, n).commanded,
            self.commanding(corrections, n).awaiting == other.commanding(corrections, n).awaiting,
            self.commanding(corrections, n) == (PhaseView {
                commanded: self.commanding(corrections, n).commanded,
                awaiting: self.commanding(corrections, n).awaiting,
                ..self
            }),
            other.commanding(corrections, n) == (PhaseView {
                commanded: other.commanding(corrections, n).commanded,
                awaiting: other.commanding(corrections, n).awaiting,
                ..other
            }),
        decreases n,
    {
        if n > 0 {
            self.lemma_commanding(other, corrections, n - 1);
        }
    }
}

} // verus!
