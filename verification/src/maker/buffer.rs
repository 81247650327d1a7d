//! The control law: from link conditions to the buffer the session should use.
//!
//! The target is `ceil(path / turn) + max(ceil(loss_risk / turn), burst)`, where the
//! path is the worst pair of slots' mean RTT, the loss risk the worst slot's loss rate
//! times its RTT, and the burst the worst slot's capped blackout run. Raises jump to the
//! target at once; shrinks wait, step down slowly, and never go below what the target
//! recently called for.
use crate::ids::GameFrameCount;
use crate::ids::SlotId;
use crate::law::ControlLaw;
use crate::law::APPLY_HORIZON;
use crate::law::EDGE_PROBATION_BUCKETS;
use crate::law::TARGET_FLOOR_BASE_BUCKETS;
use crate::maker::DecisionMaker;
use crate::maker::MakerView;
use crate::maker::ShrinkRecord;
use crate::slot::SlotView;
use crate::sync::GAME_SYNC_SAFE_BUFFER_MAX;
use crate::time::Instant;
use crate::wire::BufferDecisionInputs;
use crate::wire::BufferDirective;
use crate::wire::BufferSize;
use crate::wire::Decision;
use crate::wire::InputsView;
use crate::wire::SlotEffRtt;
use vstd::prelude::*;

verus! {

/// The target buffer together with what it was derived from.
#[derive(Clone, Copy, Debug, PartialEq, Eq, Structural)]
pub struct TargetInputs {
    pub target: u32,
    /// The target as the shrink gate sees it: the path is rounded up with headroom, so a
    /// path that hugs a whole-turn boundary baits no shrink.
    pub shrink_target: u32,
    pub path_us: u32,
    /// The worst loss risk, rounded to whole microseconds.
    pub loss_risk_us: u32,
    pub burst_turns: u32,
}

/// `num / den` rounded up, capped at the largest depth; a zero turn length makes
/// anything but zero unbounded.
pub open spec fn ceil_turns(num: int, den: int) -> u32 {
    let up = (num + den - 1) / den;
    if den == 0 {
        if num == 0 { 0 } else { u32::MAX }
    } else if up <= u32::MAX {
        up as u32
    } else {
        u32::MAX
    }
}

fn ceil_div(num: u128, den: u128) -> (r: u32)
    requires
        num <= 0xffff_ffff_ffff_ffff * 0xffff_ffff,
        den <= 0xffff_ffff_ffff_ffff * 0xffff_ffff,
    ensures
        r == ceil_turns(num as int, den as int),
{
    if den == 0 {
        return if num == 0 { 0 } else { u32::MAX };
    }
    let up: u128 = (num + den - 1) / den;
    if up <= u32::MAX as u128 { up as u32 } else { u32::MAX }
}

fn wide_mul(a: u64, b: u32) -> (r: u128)
    ensures
        r == a * b,
        r <= 0xffff_ffff_ffff_ffff * 0xffff_ffff,
{
    proof {
        assert(0 <= a * b <= 0xffff_ffff_ffff_ffff * 0xffff_ffff) by (nonlinear_arith)
            requires
                0 <= a <= 0xffff_ffff_ffff_ffff,
                0 <= b <= 0xffff_ffff,
        ;
    }
    a as u128 * b as u128
}

/// What the control law takes the worst slot's value of.
pub enum Measure {
    /// The turns its loss risk is worth.
    LossTurns,
    /// Its loss risk in whole microseconds.
    LossRisk,
    /// Its capped blackout run.
    Burst,
}

pub open spec fn measure(m: Measure, law: ControlLaw, s: SlotView) -> u32 {
    let rate = s.windowed_loss_rate(law.loss_attack_samples);
    match m {
        Measure::LossTurns => match rate {
            Some(r) => ceil_turns(r.lost * s.eff_rtt(), r.sent * law.turn_duration_us),
            None => 0,
        },
        Measure::LossRisk => match rate {
            Some(r) => ((2 * (r.lost * s.eff_rtt()) + r.sent) / (2 * r.sent)) as u32,
            None => 0,
        },
        Measure::Burst => s.burst_turns(),
    }
}

/// Whether `x` is the worst slot's value; 0 where there is no slot.
pub open spec fn is_worst(slots: Map<SlotId, SlotView>, law: ControlLaw, m: Measure, x: u32) -> bool {
    &&& forall|s: SlotId| #[trigger] slots.contains_key(s) ==> measure(m, law, slots[s]) <= x
    &&& x == 0 || exists|s: SlotId| #[trigger] slots.contains_key(s) && measure(m, law, slots[s]) == x
}

pub open spec fn worst(slots: Map<SlotId, SlotView>, law: ControlLaw, m: Measure) -> u32 {
    choose|x: u32| is_worst(slots, law, m, x)
}

proof fn lemma_worst(slots: Map<SlotId, SlotView>, law: ControlLaw, m: Measure, x: u32)
    requires
        is_worst(slots, law, m, x),
    ensures
        worst(slots, law, m) == x,
{
    let y = worst(slots, law, m);
    assert(is_worst(slots, law, m, y));
    if x != 0 {
        let s = choose|s: SlotId| #[trigger] slots.contains_key(s) && measure(m, law, slots[s]) == x;
        assert(slots.contains_key(s));
    }
    if y != 0 {
        let s = choose|s: SlotId| #[trigger] slots.contains_key(s) && measure(m, law, slots[s]) == y;
        assert(slots.contains_key(s));
    }
}

/// Whether a round trip of the slot's own link has been measured; the mesh hop to its relay
/// is none.
pub open spec fn measured(slots: Map<SlotId, SlotView>, s: SlotId) -> bool {
    slots.contains_key(s) && slots[s].rtt() > 0
}

/// Whether a slot is any distance away, by its own link or by the mesh hop.
pub open spec fn distant(slots: Map<SlotId, SlotView>, s: SlotId) -> bool {
    slots.contains_key(s) && slots[s].eff_rtt() > 0
}

/// Half of the two slots' round trips: one way from the one to the other.
pub open spec fn pair_path(slots: Map<SlotId, SlotView>, a: SlotId, b: SlotId) -> int {
    (slots[a].eff_rtt() + slots[b].eff_rtt()) / 2
}

pub open spec fn is_pair(slots: Map<SlotId, SlotView>, a: SlotId, b: SlotId) -> bool {
    a != b && distant(slots, a) && distant(slots, b)
}

/// Whether `path` is the worst pairwise path: none while no slot is measured, otherwise
/// that of all pairs of distant slots, or a lone distant slot's own RTT.
pub open spec fn is_path(slots: Map<SlotId, SlotView>, path: Option<u32>) -> bool {
    match path {
        None => forall|s: SlotId| !#[trigger] measured(slots, s),
        Some(p) => {
            &&& exists|s: SlotId| measured(slots, s)
            &&& {
                ||| {
                    &&& exists|a: SlotId, b: SlotId| #[trigger] is_pair(slots, a, b) && pair_path(slots, a, b) == p
                    &&& forall|a: SlotId, b: SlotId| #[trigger] is_pair(slots, a, b) ==> pair_path(slots, a, b) <= p
                }
                ||| {
                    &&& exists|a: SlotId| #[trigger] distant(slots, a) && slots[a].eff_rtt() == p
                    &&& forall|a: SlotId, b: SlotId| !#[trigger] is_pair(slots, a, b)
                }
            }
        },
    }
}

pub open spec fn path_of(slots: Map<SlotId, SlotView>) -> Option<u32> {
    choose|p: Option<u32>| is_path(slots, p)
}

proof fn lemma_path(slots: Map<SlotId, SlotView>, path: Option<u32>)
    requires
        is_path(slots, path),
    ensures
        path_of(slots) == path,
{
    let other = path_of(slots);
    assert(is_path(slots, other));
    if exists|s: SlotId| measured(slots, s) {
        let s = choose|s: SlotId| measured(slots, s);
        assert(measured(slots, s));
        assert(path is Some && other is Some);
        let p = path->0;
        let q = other->0;
        if exists|a: SlotId, b: SlotId| is_pair(slots, a, b) {
            let (a, b) = choose|a: SlotId, b: SlotId| is_pair(slots, a, b);
            assert(is_pair(slots, a, b));
            let (a1, b1) = choose|a: SlotId, b: SlotId| #[trigger] is_pair(slots, a, b) && pair_path(slots, a, b) == p;
            let (a2, b2) = choose|a: SlotId, b: SlotId| #[trigger] is_pair(slots, a, b) && pair_path(slots, a, b) == q;
            assert(is_pair(slots, a1, b1) && is_pair(slots, a2, b2));
        } else {
            let a = choose|a: SlotId| #[trigger] distant(slots, a) && slots[a].eff_rtt() == p;
            let b = choose|a: SlotId| #[trigger] distant(slots, a) && slots[a].eff_rtt() == q;
            assert(distant(slots, a) && distant(slots, b));
            assert(!is_pair(slots, a, b));
        }
    }
}

impl MakerView {
    /// The target and its inputs; nothing while no slot's RTT is measured.
    pub open spec fn target_inputs(self) -> Option<TargetInputs> {
        match path_of(self.slots) {
            None => None,
            Some(path_us) => {
                let turn_us = self.law.turn_duration_us as int;
                let loss = worst(self.slots, self.law, Measure::LossTurns);
                let burst_turns = worst(self.slots, self.law, Measure::Burst);
                let delay = if loss >= burst_turns { loss } else { burst_turns };
                Some(
                    TargetInputs {
                        target: ceil_turns(path_us as int, turn_us).saturating_add(delay),
                        shrink_target: ceil_turns(
                            path_us.saturating_add(self.law.shrink_headroom_us) as int,
                            turn_us,
                        ).saturating_add(delay),
                        path_us,
                        loss_risk_us: worst(self.slots, self.law, Measure::LossRisk),
                        burst_turns,
                    },
                )
            },
        }
    }

    /// A directive for `new_buffer`, never past the game's own ceiling, queued for
    /// delivery: it applies once both the old and the new buffer's span have passed.
    pub open spec fn queue_directive(self, new_buffer: u32, frame: GameFrameCount, inputs: Option<InputsView>) -> MakerView {
        let safe = if new_buffer <= GAME_SYNC_SAFE_BUFFER_MAX { new_buffer } else { GAME_SYNC_SAFE_BUFFER_MAX };
        let seq = self.decision_seq.saturating_add(1);
        let relay = match self.own_relay_id {
            Some(id) => Some(id.0),
            None => None,
        };
        MakerView {
            buffer: safe,
            last_decision_frame: Some(frame),
            decision_seq: seq,
            decision_seq_tiebreak: relay,
            pending_inputs: inputs,
            pending_directive: Some(
                BufferDirective {
                    buffer_turns: safe,
                    apply_at_frame: self.apply_frame(safe, frame),
                    decision_seq: seq,
                    authority_relay_id: relay,
                },
            ),
            ..self
        }
    }

    /// When a change to `new_buffer` decided at `frame` applies.
    pub open spec fn apply_frame(self, new_buffer: u32, frame: GameFrameCount) -> u32 {
        let span = if self.buffer >= new_buffer { self.buffer } else { new_buffer };
        frame.0.saturating_add(span).saturating_add(APPLY_HORIZON)
    }

    /// The decision that the queued directive carries.
    pub open spec fn queued_decision(self) -> Decision {
        Decision {
            buffer: BufferSize(self.buffer),
            applied_frame: GameFrameCount((self.pending_directive->0).apply_at_frame),
        }
    }

    /// The depth nearest to `depth` that the policy and the game both admit.
    pub open spec fn game_safe_clamp(self, depth: u32) -> u32 {
        let clamped = self.bounds.spec_clamp(depth);
        if clamped <= GAME_SYNC_SAFE_BUFFER_MAX { clamped } else { GAME_SYNC_SAFE_BUFFER_MAX }
    }

    /// A burned edge is forgiven after eight lookbacks.
    pub open spec fn forgiving(self, frame: u32) -> MakerView {
        if self.last_burn_frame is Some && frame.saturating_sub(self.last_burn_frame->0)
            > sat_mul(self.law.shrink_lookback_turns, 8) {
            MakerView { edge_burned: false, last_burn_frame: None, ..self }
        } else {
            self
        }
    }

    /// A raise ends the last shrink's trial; within two lookbacks of that shrink, and
    /// back to where it came from, it burns the edge.
    pub open spec fn raising(self, frame: u32, target: u32) -> MakerView {
        let ended = MakerView { last_shrink: None, ..self };
        match self.last_shrink {
            Some(shrink) => if target >= shrink.from && frame.saturating_sub(shrink.frame)
                <= sat_mul(self.law.shrink_lookback_turns, 2) {
                MakerView { edge_burned: true, last_burn_frame: Some(frame), ..ended }
            } else {
                ended
            },
            None => ended,
        }
    }

    /// One step down, never below the shrink target.
    pub open spec fn lowered(self, shrink_target: u32) -> u32 {
        let step = self.buffer.saturating_sub(self.law.lower_step);
        if step >= shrink_target { step } else { shrink_target }
    }

    pub open spec fn dwell_elapsed(self, frame: u32) -> bool {
        match self.last_decision_frame {
            None => true,
            Some(last) => frame.saturating_sub(last.0) >= self.law.min_dwell_turns,
        }
    }

    /// Whether the recent targets allow a shrink to `lowered`: it may not go below any
    /// of the base lookback's, and a burned edge asks for a longer look.
    pub open spec fn shrink_allowed(self, lowered: u32) -> bool {
        let base_floor = self.target_peaks.max_over_last(TARGET_FLOOR_BASE_BUCKETS as int);
        if lowered == base_floor && self.edge_burned {
            lowered >= self.target_peaks.max_over_last(EDGE_PROBATION_BUCKETS as int)
        } else {
            lowered >= base_floor
        }
    }

    /// The depth to move to, before clamping, and the state the attempt leaves.
    pub open spec fn proposal(self, frame: u32, target: u32, shrink_target: u32) -> (MakerView, Option<u32>) {
        if target > self.buffer {
            (self.raising(frame, target), Some(target))
        } else if shrink_target < self.buffer && self.dwell_elapsed(frame) && self.shrink_allowed(
            self.lowered(shrink_target),
        ) {
            (
                MakerView { last_shrink: Some(ShrinkRecord { from: self.buffer, frame }), ..self },
                Some(self.lowered(shrink_target)),
            )
        } else {
            (self, None)
        }
    }

    pub open spec fn decision_inputs(
        self,
        inputs: TargetInputs,
        target: u32,
        shrink_target: u32,
        cushion_turns: u32,
        stretch_turns: u32,
    ) -> InputsView {
        let keys = crate::ordmap::listing(self.slots.dom());
        InputsView {
            law_target: inputs.target,
            target,
            shrink_target,
            path_us: inputs.path_us,
            loss_risk_us: inputs.loss_risk_us,
            burst_turns: inputs.burst_turns,
            cushion_turns,
            stretch_turns,
            shrink_floor: self.target_peaks.max_over_last(TARGET_FLOOR_BASE_BUCKETS as int),
            edge_burned: self.edge_burned,
            eff_rtts: keys.map_values(|s: SlotId| SlotEffRtt { slot: s.0, eff_rtt_us: self.slots[s].eff_rtt() }),
        }
    }

    /// The session's first directive, sent even where nothing changes.
    pub open spec fn announcing(self, frame: GameFrameCount) -> (MakerView, Option<Decision>) {
        if self.initial_directive_sent {
            (self, None)
        } else {
            let next = MakerView { initial_directive_sent: true, ..self }.queue_directive(self.buffer, frame, None);
            (next, Some(next.queued_decision()))
        }
    }

    /// The state once the target is noted, before anything moves.
    pub open spec fn noting_target(self, frame: u32, target: u32, now: Instant) -> MakerView {
        MakerView { phase: self.phase.pressed(now), ..self }.peaking(frame, target).forgiving(frame)
    }

    pub open spec fn peaking(self, frame: u32, target: u32) -> MakerView {
        MakerView {
            target_peaks: self.target_peaks.observe(frame, target, self.law.spec_target_floor_bucket_span()),
            ..self
        }
    }

    /// One move of the control law, where the target calls for one and it is allowed.
    pub open spec fn steer(self, frame: GameFrameCount, inputs: TargetInputs, now: Instant) -> (
        MakerView,
        Option<Decision>,
    ) {
        let stretch = self.phase.stretch_turns(now);
        let cushion = self.delivery.cushion_turns;
        let target = inputs.target.saturating_add(cushion.saturating_add(stretch));
        let shrink_target = inputs.shrink_target.saturating_add(cushion.saturating_add(stretch));
        let (proposed, depth) = self.noting_target(frame.0, target, now).proposal(frame.0, target, shrink_target);
        if depth is Some && proposed.game_safe_clamp(depth->0) != proposed.buffer {
            let next = MakerView { initial_directive_sent: true, ..proposed }.queue_directive(
                proposed.game_safe_clamp(depth->0),
                frame,
                Some(proposed.decision_inputs(inputs, target, shrink_target, cushion, stretch)),
            );
            (next, Some(next.queued_decision()))
        } else {
            (proposed, None)
        }
    }

    /// One run of the control law.
    pub open spec fn decide(self, now: Instant) -> (MakerView, Option<Decision>) {
        match (self.session_frame(), self.target_inputs()) {
            (None, _) => (self, None),
            (Some(frame), None) => self.announcing(frame),
            (Some(frame), Some(inputs)) => {
                let (steered, decision) = self.steer(frame, inputs, now);
                if decision is Some {
                    (steered, decision)
                } else {
                    steered.announcing(frame)
                }
            },
        }
    }

    /// The directive still to be delivered: gone once the session reaches its frame.
    pub open spec fn active_directive(self) -> Option<BufferDirective> {
        match (self.pending_directive, self.session_frame()) {
            (Some(d), Some(frame)) => if frame.0 >= d.apply_at_frame { None } else { Some(d) },
            (d, None) => d,
            (None, Some(_)) => None,
        }
    }
}

/// `n * k`, capped.
pub open spec fn sat_mul(n: u32, k: int) -> u32 {
    if n * k <= u32::MAX { (n * k) as u32 } else { u32::MAX }
}

fn saturating_times(n: u32, k: u32) -> (r: u32)
    requires
        k <= 8,
    ensures
        r == sat_mul(n, k as int),
{
    proof {
        assert(0 <= n * k <= 0xffff_ffff * 8) by (nonlinear_arith)
            requires
                0 <= n <= 0xffff_ffff,
                0 <= k <= 8,
        ;
    }
    let wide: u64 = n as u64 * k as u64;
    if wide <= u32::MAX as u64 { wide as u32 } else { u32::MAX }
}

impl DecisionMaker {
    /// The buffer the current conditions call for; nothing while no RTT is measured.
    pub fn target(&self) -> (r: Option<u32>)
        ensures
            r == match self@.target_inputs() {
                Some(inputs) => Some(inputs.target),
                None => None,
            },
    {
        match self.target_inputs() {
            Some(inputs) => Some(inputs.target),
            None => None,
        }
    }

    /// The worst pairwise path; nothing while no slot is measured.
    fn worst_path(&self) -> (r: Option<u32>)
        ensures
            r == path_of(self@.slots),
    {
        let n: usize = self.slots.len();
        let ghost keys = crate::ordmap::listing(self.slots@.dom());
        let ghost slots = self@.slots;
        let mut count: u32 = 0;
        let mut highest: u32 = 0;
        let mut second: u32 = 0;
        let mut seen = false;
        let ghost mut a: SlotId = arbitrary();
        let ghost mut b: SlotId = arbitrary();
        let mut i: usize = 0;
        while i < n
            invariant
                i <= n,
                n == keys.len(),
                keys == crate::ordmap::listing(self.slots@.dom()),
                crate::ordmap::lists(keys, self.slots@.dom()),
                self.slots@ == slots,
                count <= 2,
                second <= highest,
                seen ==> exists|s: SlotId| measured(slots, s),
                forall|j: int| 0 <= j < i && measured(slots, #[trigger] keys[j]) ==> seen,
                count == 0 ==> highest == 0 && second == 0,
                count == 1 ==> second == 0,
                count >= 1 ==> distant(slots, a) && slots[a].eff_rtt() == highest && keys.take(i as int).contains(a),
                count >= 2 ==> is_pair(slots, a, b) && slots[b].eff_rtt() == second,
                forall|j: int| 0 <= j < i && distant(slots, #[trigger] keys[j]) ==> count >= 1,
                forall|j: int|
                    0 <= j < i && distant(slots, #[trigger] keys[j]) && keys[j] != a ==> count >= 2
                        && slots[keys[j]].eff_rtt() <= second,
            decreases n - i,
        {
            let ghost key = keys[i as int];
            let state = self.slots.value_at(i);
            let eff: u32 = state.eff_rtt();
            proof {
                crate::sync::tracker::lemma_take_contains(keys, i as int);
                assert forall|j: int| 0 <= j < i implies #[trigger] keys[j] != key by {
                    assert(crate::ordmap::OrdKey::rank(keys[j]) < crate::ordmap::OrdKey::rank(keys[i as int]));
                }
                if count >= 1 {
                    let prefix = keys.take(i as int);
                    let j = choose|j: int| 0 <= j < prefix.len() && prefix[j] == a;
                    assert(keys[j] == a);
                }
            }
            if state.rtt() > 0 {
                seen = true;
                assert(measured(slots, key));
            }
            if eff > 0 {
                if eff >= highest {
                    second = highest;
                    highest = eff;
                    proof {
                        b = a;
                        a = key;
                    }
                } else if eff > second {
                    second = eff;
                    proof {
                        b = key;
                    }
                }
                if count < 2 {
                    count = count + 1;
                }
            }
            i += 1;
        }
        proof {
            assert forall|s: SlotId| #[trigger] distant(slots, s) implies keys.contains(s) by {
                assert(self.slots@.dom().contains(s));
            }
            assert forall|s: SlotId| #[trigger] measured(slots, s) implies seen by {
                assert(self.slots@.dom().contains(s));
                let j = choose|j: int| 0 <= j < keys.len() && keys[j] == s;
                assert(measured(slots, keys[j]));
            }
            if seen {
                let s = choose|s: SlotId| measured(slots, s);
                assert(distant(slots, s));
                let j = choose|j: int| 0 <= j < keys.len() && keys[j] == s;
                assert(distant(slots, keys[j]));
            }
        }
        let r = if !seen {
            None
        } else if count == 1 {
            Some(highest)
        } else {
            Some(((highest as u64 + second as u64) / 2) as u32)
        };
        proof {
            if !seen {
            } else if count == 1 {
                assert forall|x: SlotId, y: SlotId| !#[trigger] is_pair(slots, x, y) by {
                    if is_pair(slots, x, y) {
                        let j = choose|j: int| 0 <= j < keys.len() && keys[j] == x;
                        let k = choose|k: int| 0 <= k < keys.len() && keys[k] == y;
                        assert(distant(slots, keys[j]) && distant(slots, keys[k]));
                    }
                }
            } else {
                assert forall|x: SlotId, y: SlotId| #[trigger] is_pair(slots, x, y) implies pair_path(slots, x, y)
                    <= r->0 by {
                    let j = choose|j: int| 0 <= j < keys.len() && keys[j] == x;
                    let k = choose|k: int| 0 <= k < keys.len() && keys[k] == y;
                    assert(distant(slots, keys[j]) && distant(slots, keys[k]));
                }
                assert(pair_path(slots, a, b) == r->0);
            }
            lemma_path(slots, r);
        }
        r
    }

    /// The worst slot's turns of loss risk, loss risk and burst.
    fn worst_losses(&self) -> (r: (u32, u32, u32))
        ensures
            r.0 == worst(self@.slots, self@.law, Measure::LossTurns),
            r.1 == worst(self@.slots, self@.law, Measure::LossRisk),
            r.2 == worst(self@.slots, self@.law, Measure::Burst),
    {
        let n: usize = self.slots.len();
        let ghost keys = crate::ordmap::listing(self.slots@.dom());
        let ghost slots = self@.slots;
        let ghost law = self@.law;
        let mut turns: u32 = 0;
        let mut risk: u32 = 0;
        let mut burst: u32 = 0;
        let mut i: usize = 0;
        while i < n
            invariant
                i <= n,
                n == keys.len(),
                keys == crate::ordmap::listing(self.slots@.dom()),
                self.slots@ == slots,
                self.law == law,
                forall|j: int| 0 <= j < i ==> measure(Measure::LossTurns, law, slots[#[trigger] keys[j]]) <= turns,
                forall|j: int| 0 <= j < i ==> measure(Measure::LossRisk, law, slots[#[trigger] keys[j]]) <= risk,
                forall|j: int| 0 <= j < i ==> measure(Measure::Burst, law, slots[#[trigger] keys[j]]) <= burst,
                turns == 0 || exists|s: SlotId| #[trigger]
                    slots.contains_key(s) && measure(Measure::LossTurns, law, slots[s]) == turns,
                risk == 0 || exists|s: SlotId| #[trigger]
                    slots.contains_key(s) && measure(Measure::LossRisk, law, slots[s]) == risk,
                burst == 0 || exists|s: SlotId| #[trigger]
                    slots.contains_key(s) && measure(Measure::Burst, law, slots[s]) == burst,
            decreases n - i,
        {
            let state = self.slots.value_at(i);
            assert(slots.contains_key(keys[i as int]));
            let eff: u32 = state.eff_rtt();
            if let Some(rate) = state.windowed_loss_rate(self.law.loss_attack_samples) {
                let lost_path: u128 = wide_mul(rate.lost, eff);
                let slot_turns: u32 = ceil_div(lost_path, wide_mul(rate.sent, self.law.turn_duration_us));
                let rounded: u128 = (2 * lost_path + rate.sent as u128) / (2 * rate.sent as u128);
                proof {
                    lemma_risk_bounded(rate.lost, rate.sent, eff);
                }
                let slot_risk: u32 = rounded as u32;
                if slot_turns > turns {
                    turns = slot_turns;
                }
                if slot_risk > risk {
                    risk = slot_risk;
                }
            }
            let slot_burst: u32 = state.burst_turns();
            if slot_burst > burst {
                burst = slot_burst;
            }
            i += 1;
        }
        proof {
            assert forall|s: SlotId| #[trigger] slots.contains_key(s) implies keys.contains(s) by {
                assert(self.slots@.dom().contains(s));
            }
            assert(is_worst(slots, law, Measure::LossTurns, turns));
            assert(is_worst(slots, law, Measure::LossRisk, risk));
            assert(is_worst(slots, law, Measure::Burst, burst));
            lemma_worst(slots, law, Measure::LossTurns, turns);
            lemma_worst(slots, law, Measure::LossRisk, risk);
            lemma_worst(slots, law, Measure::Burst, burst);
        }
        (turns, risk, burst)
    }

    /// The target and what it was derived from.
    pub(crate) fn target_inputs(&self) -> (r: Option<TargetInputs>)
        ensures
            r == self@.target_inputs(),
    {
        let path_us: u32 = match self.worst_path() {
            None => {
                return None;
            },
            Some(path_us) => path_us,
        };
        let (loss_turns, loss_risk_us, burst_turns) = self.worst_losses();
        let turn_us: u128 = self.law.turn_duration_us as u128;
        let path_turns: u32 = ceil_div(path_us as u128, turn_us);
        let margined: u32 = ceil_div(path_us.saturating_add(self.law.shrink_headroom_us) as u128, turn_us);
        let delay: u32 = if loss_turns >= burst_turns { loss_turns } else { burst_turns };
        Some(
            TargetInputs {
                target: path_turns.saturating_add(delay),
                shrink_target: margined.saturating_add(delay),
                path_us,
                loss_risk_us,
                burst_turns,
            },
        )
    }

    /// Queues a directive for `new_buffer`, capped at the game's own ceiling.
    pub(crate) fn queue_directive(
        &mut self,
        new_buffer: u32,
        frame: GameFrameCount,
        inputs: Option<BufferDecisionInputs>,
    ) -> (r: Decision)
        ensures
            final(self)@ == old(self)@.queue_directive(new_buffer, frame, crate::wire::inputs_view(inputs)),
            r == final(self)@.queued_decision(),
    {
        let safe: u32 = if new_buffer <= GAME_SYNC_SAFE_BUFFER_MAX { new_buffer } else { GAME_SYNC_SAFE_BUFFER_MAX };
        let span: u32 = if self.buffer.0 >= safe { self.buffer.0 } else { safe };
        self.buffer = BufferSize(safe);
        let applied_frame = GameFrameCount(frame.0.saturating_add(span).saturating_add(APPLY_HORIZON));
        self.last_decision_frame = Some(frame);
        self.decision_seq = self.decision_seq.saturating_add(1);
        let relay: Option<u64> = match self.own_relay_id {
            Some(id) => Some(id.0),
            None => None,
        };
        self.decision_seq_tiebreak = relay;
        self.pending_decision_inputs = inputs;
        self.pending_directive = Some(
            BufferDirective {
                buffer_turns: safe,
                apply_at_frame: applied_frame.0,
                decision_seq: self.decision_seq,
                authority_relay_id: relay,
            },
        );
        Decision { buffer: self.buffer, applied_frame }
    }

    /// The depth nearest to `depth` that the policy and the game both admit.
    pub(crate) fn game_safe_clamp(&self, depth: u32) -> (r: u32)
        ensures
            r == self@.game_safe_clamp(depth),
    {
        let clamped: u32 = self.bounds.clamp(depth);
        if clamped <= GAME_SYNC_SAFE_BUFFER_MAX { clamped } else { GAME_SYNC_SAFE_BUFFER_MAX }
    }

    /// The depth to move to, before clamping.
    fn propose(&mut self, frame: u32, target: u32, shrink_target: u32) -> (r: Option<u32>)
        ensures
            r == old(self)@.proposal(frame, target, shrink_target).1,
            final(self)@ == old(self)@.proposal(frame, target, shrink_target).0,
    {
        if target > self.buffer.0 {
            let ended = self.last_shrink.take();
            if let Some(shrink) = ended {
                if target >= shrink.from && frame.saturating_sub(shrink.frame) <= saturating_times(
                    self.law.shrink_lookback_turns,
                    2,
                ) {
                    self.edge_burned = true;
                    self.last_burn_frame = Some(frame);
                }
            }
            return Some(target);
        }
        if shrink_target < self.buffer.0 {
            let dwell_elapsed = match self.last_decision_frame {
                None => true,
                Some(last) => frame.saturating_sub(last.0) >= self.law.min_dwell_turns,
            };
            let step: u32 = self.buffer.0.saturating_sub(self.law.lower_step);
            let lowered: u32 = if step >= shrink_target { step } else { shrink_target };
            let base_floor: u32 = self.target_peaks.max_over_last(8);
            let allowed = if lowered == base_floor {
                let probation: usize = if self.edge_burned { 32 } else { 8 };
                lowered >= self.target_peaks.max_over_last(probation)
            } else {
                lowered >= base_floor
            };
            if dwell_elapsed && allowed {
                self.last_shrink = Some(ShrinkRecord { from: self.buffer.0, frame });
                return Some(lowered);
            }
        }
        None
    }

    /// Reads the send-phase controller's pressure term.
    fn press(&mut self, now: Instant) -> (r: u32)
        ensures
            r == old(self)@.phase.stretch_turns(now),
            final(self)@ == (MakerView { phase: old(self)@.phase.pressed(now), ..old(self)@ }),
    {
        self.phase.stretch_turns(now)
    }

    /// Notes the target for the shrink floor, and forgives an edge burned long ago.
    fn note_target(&mut self, frame: u32, target: u32)
        ensures
            final(self)@ == old(self)@.peaking(frame, target).forgiving(frame),
    {
        self.target_peaks.observe(frame, target, self.law.target_floor_bucket_span());
        if let Some(burned) = self.last_burn_frame {
            if frame.saturating_sub(burned) > saturating_times(self.law.shrink_lookback_turns, 8) {
                self.edge_burned = false;
                self.last_burn_frame = None;
            }
        }
    }

    /// Moves the buffer where the target calls for it and it is allowed.
    fn steer(&mut self, frame: GameFrameCount, inputs: TargetInputs, now: Instant) -> (r: Option<Decision>)
        ensures
            r == old(self)@.steer(frame, inputs, now).1,
            final(self)@ == old(self)@.steer(frame, inputs, now).0,
    {
        let cushion_turns: u32 = self.delivery.cushion_turns();
        let stretch_turns: u32 = self.press(now);
        let additive_turns: u32 = cushion_turns.saturating_add(stretch_turns);
        let target: u32 = inputs.target.saturating_add(additive_turns);
        let shrink_target: u32 = inputs.shrink_target.saturating_add(additive_turns);
        self.note_target(frame.0, target);
        let proposed = self.propose(frame.0, target, shrink_target);
        let ghost reached = self@;
        if let Some(depth) = proposed {
            let new_buffer: u32 = self.game_safe_clamp(depth);
            if new_buffer != self.buffer.0 {
                let recorded = self.decision_inputs(&inputs, target, shrink_target, cushion_turns, stretch_turns);
                self.initial_directive_sent = true;
                assert(self@ == (MakerView { initial_directive_sent: true, ..reached }));
                return Some(self.queue_directive(new_buffer, frame, Some(recorded)));
            }
        }
        None
    }

    /// Sends the session's first directive, even where nothing changes.
    fn announce(&mut self, frame: GameFrameCount) -> (r: Option<Decision>)
        ensures
            r == old(self)@.announcing(frame).1,
            final(self)@ == old(self)@.announcing(frame).0,
    {
        if self.initial_directive_sent {
            return None;
        }
        self.initial_directive_sent = true;
        let depth: u32 = self.buffer.0;
        Some(self.queue_directive(depth, frame, None))
    }

    /// Runs the control law.
    pub(crate) fn decide(&mut self, now: Instant) -> (r: Option<Decision>)
        ensures
            r == old(self)@.decide(now).1,
            final(self)@ == old(self)@.decide(now).0,
    {
        let frame: GameFrameCount = match self.session_frame() {
            None => {
                return None;
            },
            Some(frame) => frame,
        };
        if let Some(inputs) = self.target_inputs() {
            let decision = self.steer(frame, inputs, now);
            if decision.is_some() {
                return decision;
            }
        }
        self.announce(frame)
    }

    /// What a decision is recorded with.
    pub(crate) fn decision_inputs(
        &self,
        inputs: &TargetInputs,
        target: u32,
        shrink_target: u32,
        cushion_turns: u32,
        stretch_turns: u32,
    ) -> (r: BufferDecisionInputs)
        ensures
            r@ == self@.decision_inputs(*inputs, target, shrink_target, cushion_turns, stretch_turns),
    {
        let n: usize = self.slots.len();
        let ghost keys = crate::ordmap::listing(self.slots@.dom());
        let mut eff_rtts: Vec<SlotEffRtt> = Vec::new();
        let mut i: usize = 0;
        while i < n
            invariant
                i <= n,
                n == keys.len(),
                keys == crate::ordmap::listing(self.slots@.dom()),
                self.slots@ == self@.slots,
                eff_rtts@.len() == i,
                forall|j: int|
                    0 <= j < i ==> #[trigger] eff_rtts@[j] == (SlotEffRtt {
                        slot: keys[j].0,
                        eff_rtt_us: self@.slots[keys[j]].eff_rtt(),
                    }),
            decreases n - i,
        {
            let slot = self.slots.key_at(i);
            let state = self.slots.value_at(i);
            eff_rtts.push(SlotEffRtt { slot: slot.0, eff_rtt_us: state.eff_rtt() });
            i += 1;
        }
        assert(eff_rtts@ =~= keys.map_values(
            |s: SlotId| SlotEffRtt { slot: s.0, eff_rtt_us: self@.slots[s].eff_rtt() },
        ));
        BufferDecisionInputs {
            law_target: inputs.target,
            target,
            shrink_target,
            path_us: inputs.path_us,
            loss_risk_us: inputs.loss_risk_us,
            burst_turns: inputs.burst_turns,
            cushion_turns,
            stretch_turns,
            shrink_floor: self.target_peaks.max_over_last(8),
            edge_burned: self.edge_burned,
            eff_rtts,
        }
    }

    /// The directive still to be delivered; dropped once the session reaches its frame.
    pub fn active_directive(&mut self) -> (r: Option<BufferDirective>)
        ensures
            r == old(self)@.active_directive(),
            final(self)@ == (MakerView { pending_directive: old(self)@.active_directive(), ..old(self)@ }),
    {
        let directive = match self.pending_directive {
            None => {
                return None;
            },
            Some(directive) => directive,
        };
        if let Some(frame) = self.session_frame() {
            if frame.0 >= directive.apply_at_frame {
                self.pending_directive = None;
                return None;
            }
        }
        Some(directive)
    }
}

/// A rounded loss risk is no larger than the RTT it is a share of.
proof fn lemma_risk_bounded(lost: u64, sent: u64, eff: u32)
    requires
        lost <= sent,
        sent > 0,
    ensures
        (2 * (lost * eff) + sent) / (2 * sent) <= eff,
{
    assert((2 * (lost * eff) + sent) / (2 * sent) <= eff) by (nonlinear_arith)
        requires
            0 <= lost <= sent,
            sent > 0,
            eff >= 0,
    {
        assert(lost * eff <= sent * eff);
        assert(2 * (lost * eff) + sent <= (2 * sent) * eff + sent);
        assert(((2 * sent) * eff + sent) / (2 * sent) == eff);
    }
}

} // verus!
