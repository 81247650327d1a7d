//! Laws of the control law and of the directives that carry its decisions.
use crate::ids::GameFrameCount;
use crate::ids::SlotId;
use crate::law::ControlLaw;
use crate::law::APPLY_HORIZON;
use crate::law::EDGE_PROBATION_BUCKETS;
use crate::law::TARGET_FLOOR_BASE_BUCKETS;
use crate::maker::buffer::Measure;
use crate::maker::MakerView;
use crate::slot::SlotView;
use crate::sync::GAME_SYNC_SAFE_BUFFER_MAX;
use crate::time::Instant;
use crate::wire::BufferDirective;
use vstd::prelude::*;

verus! {

/// The target the control law steers to at `now`: what the links call for, the delivery
/// cushion and the stretch pressure.
pub open spec fn steered_target(m: MakerView, now: Instant) -> u32 {
    (m.target_inputs()->0).target.saturating_add(m.delivery.cushion_turns.saturating_add(m.phase.stretch_turns(now)))
}

proof fn lemma_earliest(slots: Map<SlotId, SlotView>, s: SlotId)
    requires
        slots.contains_key(s),
        slots[s].frame is Some,
    ensures
        exists|f: Option<GameFrameCount>| crate::maker::is_session_frame(slots, f),
    decreases (slots[s].frame->0).0,
{
    if crate::maker::is_session_frame(slots, slots[s].frame) {
    } else {
        let t = choose|t: SlotId| #[trigger]
            slots.contains_key(t) && slots[t].frame is Some && (slots[t].frame->0).0 < (slots[s].frame->0).0;
        lemma_earliest(slots, t);
    }
}

/// The session's frame is the earliest frame any slot is at.
pub proof fn law_session_frame_is_the_earliest(m: MakerView)
    ensures
        crate::maker::is_session_frame(m.slots, m.session_frame()),
{
    if exists|s: SlotId| #[trigger] m.slots.contains_key(s) && m.slots[s].frame is Some {
        let s = choose|s: SlotId| #[trigger] m.slots.contains_key(s) && m.slots[s].frame is Some;
        lemma_earliest(m.slots, s);
    } else {
        assert(crate::maker::is_session_frame(m.slots, None));
    }
}

/// However large a frame one slot claims, the session's frame stays at or below every
/// other slot's.
pub proof fn law_one_claim_cannot_advance_the_session(
    m: MakerView,
    claimant: SlotId,
    seq: u64,
    claim: GameFrameCount,
    honest: SlotId,
)
    requires
        claimant != honest,
        m.slots.contains_key(honest),
        m.slots[honest].frame is Some,
    ensures
        m.observe_frame(claimant, claim).session_frame() is Some,
        (m.observe_frame(claimant, claim).session_frame()->0).0 <= (m.slots[honest].frame->0).0,
        m.observe_turn_frame(claimant, seq, claim).session_frame() is Some,
        (m.observe_turn_frame(claimant, seq, claim).session_frame()->0).0 <= (m.slots[honest].frame->0).0,
{
    let a = m.observe_frame(claimant, claim);
    let b = m.observe_turn_frame(claimant, seq, claim);
    law_session_frame_is_the_earliest(a);
    law_session_frame_is_the_earliest(b);
    assert(a.slots.contains_key(honest) && a.slots[honest] == m.slots[honest]);
    assert(b.slots.contains_key(honest) && b.slots[honest] == m.slots[honest]);
}

proof fn lemma_ceil(num: int, den: int)
    requires
        num >= 0,
        den >= 0,
    ensures
        num > 0 ==> crate::maker::buffer::ceil_turns(num, den) >= 1,
        den > 0 && crate::maker::buffer::ceil_turns(num, den) < u32::MAX ==> crate::maker::buffer::ceil_turns(num, den)
            * den >= num,
        den > 0 && 0 < crate::maker::buffer::ceil_turns(num, den) < u32::MAX ==> (crate::maker::buffer::ceil_turns(
            num,
            den,
        ) - 1) * den < num,
{
    if den > 0 {
        let up = (num + den - 1) / den;
        vstd::arithmetic::div_mod::lemma_fundamental_div_mod(num + den - 1, den);
        vstd::arithmetic::div_mod::lemma_mod_bound(num + den - 1, den);
        assert(up * den == den * up) by (nonlinear_arith);
        assert((up - 1) * den == up * den - den) by (nonlinear_arith);
        vstd::arithmetic::div_mod::lemma_div_pos_is_pos(num + den - 1, den);
        if num > 0 {
            assert(up >= 1) by (nonlinear_arith)
                requires
                    den * up + (num + den - 1) % den == num + den - 1,
                    (num + den - 1) % den < den,
                    num > 0,
                    den > 0,
            ;
        }
    }
}

proof fn lemma_ceil_monotone(a: int, b: int, den: int)
    requires
        0 <= a <= b,
        den >= 0,
    ensures
        crate::maker::buffer::ceil_turns(a, den) <= crate::maker::buffer::ceil_turns(b, den),
{
    if den > 0 {
        vstd::arithmetic::div_mod::lemma_div_is_ordered(a + den - 1, b + den - 1, den);
    }
}

proof fn lemma_path_is_positive(slots: Map<SlotId, SlotView>, path: Option<u32>)
    requires
        crate::maker::buffer::is_path(slots, path),
        path is Some,
    ensures
        path->0 > 0,
{
    let p = path->0;
    if exists|a: SlotId, b: SlotId| #[trigger]
        crate::maker::buffer::is_pair(slots, a, b) && crate::maker::buffer::pair_path(slots, a, b) == p {
        let (a, b) = choose|a: SlotId, b: SlotId| #[trigger]
            crate::maker::buffer::is_pair(slots, a, b) && crate::maker::buffer::pair_path(slots, a, b) == p;
        assert(slots[a].eff_rtt() > 0 && slots[b].eff_rtt() > 0);
    }
}

proof fn lemma_widest_pair(slots: Map<SlotId, SlotView>, a: SlotId, b: SlotId)
    requires
        crate::maker::buffer::is_pair(slots, a, b),
        exists|s: SlotId| crate::maker::buffer::measured(slots, s),
    ensures
        crate::maker::buffer::is_path(slots, crate::maker::buffer::path_of(slots)),
    decreases u32::MAX - crate::maker::buffer::pair_path(slots, a, b),
{
    let p = crate::maker::buffer::pair_path(slots, a, b) as u32;
    if crate::maker::buffer::is_path(slots, Some(p)) {
    } else {
        let (c, d) = choose|c: SlotId, d: SlotId| #[trigger]
            crate::maker::buffer::is_pair(slots, c, d) && crate::maker::buffer::pair_path(slots, c, d) > p;
        lemma_widest_pair(slots, c, d);
    }
}

proof fn lemma_path_exists(slots: Map<SlotId, SlotView>)
    ensures
        crate::maker::buffer::is_path(slots, crate::maker::buffer::path_of(slots)),
{
    if !(exists|s: SlotId| crate::maker::buffer::measured(slots, s)) {
        assert(crate::maker::buffer::is_path(slots, None));
    } else if exists|a: SlotId, b: SlotId| crate::maker::buffer::is_pair(slots, a, b) {
        let (a, b) = choose|a: SlotId, b: SlotId| crate::maker::buffer::is_pair(slots, a, b);
        lemma_widest_pair(slots, a, b);
    } else {
        let a = choose|a: SlotId| crate::maker::buffer::measured(slots, a);
        assert(crate::maker::buffer::distant(slots, a));
        assert(crate::maker::buffer::is_path(slots, Some(slots[a].eff_rtt())));
    }
}

proof fn lemma_largest(m: MakerView, measure: Measure, s: SlotId)
    requires
        m.slots.contains_key(s),
    ensures
        exists|x: u32| crate::maker::buffer::is_worst(m.slots, m.law, measure, x),
    decreases u32::MAX - crate::maker::buffer::measure(measure, m.law, m.slots[s]),
{
    let x = crate::maker::buffer::measure(measure, m.law, m.slots[s]);
    if crate::maker::buffer::is_worst(m.slots, m.law, measure, x) {
    } else {
        let t = choose|t: SlotId| #[trigger]
            m.slots.contains_key(t) && crate::maker::buffer::measure(measure, m.law, m.slots[t]) > x;
        lemma_largest(m, measure, t);
    }
}

/// Every slot's loss turns and blackout run count toward the target: it is at least what
/// the path alone takes plus any one slot's loss delay.
pub proof fn law_the_target_covers_every_slots_loss(m: MakerView, slot: SlotId)
    requires
        m.target_inputs() is Some,
        m.slots.contains_key(slot),
    ensures
        (m.target_inputs()->0).target >= crate::maker::buffer::ceil_turns(
            (m.target_inputs()->0).path_us as int,
            m.law.turn_duration_us as int,
        ).saturating_add(crate::maker::buffer::measure(Measure::LossTurns, m.law, m.slots[slot])),
        (m.target_inputs()->0).target >= crate::maker::buffer::ceil_turns(
            (m.target_inputs()->0).path_us as int,
            m.law.turn_duration_us as int,
        ).saturating_add(m.slots[slot].burst_turns()),
{
    lemma_largest(m, Measure::LossTurns, slot);
    lemma_largest(m, Measure::Burst, slot);
    let x = crate::maker::buffer::worst(m.slots, m.law, Measure::LossTurns);
    let y = crate::maker::buffer::worst(m.slots, m.law, Measure::Burst);
    assert(crate::maker::buffer::is_worst(m.slots, m.law, Measure::LossTurns, x));
    assert(crate::maker::buffer::is_worst(m.slots, m.law, Measure::Burst, y));
    assert(crate::maker::buffer::measure(Measure::Burst, m.law, m.slots[slot]) == m.slots[slot].burst_turns());
}

/// The path is the worst pair's: no two slots are further apart.
pub proof fn law_the_path_covers_every_pair(m: MakerView, a: SlotId, b: SlotId)
    requires
        crate::maker::buffer::is_pair(m.slots, a, b),
        m.target_inputs() is Some,
    ensures
        (m.target_inputs()->0).path_us >= crate::maker::buffer::pair_path(m.slots, a, b),
{
    lemma_path_exists(m.slots);
}

/// A target exists exactly while some slot's own RTT is measured, is at least one turn, and covers the
/// path in whole turns, with no turn to spare.
pub proof fn law_the_target_covers_the_path(m: MakerView)
    ensures
        m.target_inputs() is Some <==> exists|s: SlotId| crate::maker::buffer::measured(m.slots, s),
        m.target_inputs() is Some ==> (m.target_inputs()->0).target >= 1,
        m.target_inputs() is Some && m.law.turn_duration_us > 0 && (m.target_inputs()->0).target < u32::MAX ==> {
            let inputs = m.target_inputs()->0;
            let loss = crate::maker::buffer::worst(m.slots, m.law, Measure::LossTurns);
            let delay = if loss >= inputs.burst_turns { loss } else { inputs.burst_turns };
            &&& (inputs.target - delay) * m.law.turn_duration_us >= inputs.path_us
            &&& (inputs.target - delay - 1) * m.law.turn_duration_us < inputs.path_us
        },
{
    lemma_path_exists(m.slots);
    let path = crate::maker::buffer::path_of(m.slots);
    if path is Some {
        lemma_path_is_positive(m.slots, path);
        lemma_ceil((path->0) as int, m.law.turn_duration_us as int);
    }
}

/// What the shrink gate sees is never below the target, so headroom only ever delays a
/// shrink.
pub proof fn law_the_shrink_target_is_not_below_the_target(m: MakerView)
    requires
        m.target_inputs() is Some,
    ensures
        (m.target_inputs()->0).shrink_target >= (m.target_inputs()->0).target,
{
    let inputs = m.target_inputs()->0;
    lemma_ceil_monotone(
        inputs.path_us as int,
        inputs.path_us.saturating_add(m.law.shrink_headroom_us) as int,
        m.law.turn_duration_us as int,
    );
}

/// A raise waits for nothing: wherever the target is above the buffer, and the policy and
/// the game leave room, the next decision is the target itself.
pub proof fn law_raises_are_immediate(m: MakerView, now: Instant)
    requires
        m.session_frame() is Some,
        m.target_inputs() is Some,
        steered_target(m, now) > m.buffer,
        m.game_safe_clamp(steered_target(m, now)) != m.buffer,
    ensures
        m.decide(now).1 is Some,
        (m.decide(now).1->0).buffer.0 == m.game_safe_clamp(steered_target(m, now)),
        m.decide(now).0.buffer == m.game_safe_clamp(steered_target(m, now)),
{
}

/// A move down, unless the policy or the game itself forces it, is paced, earned and slow:
/// the dwell has passed, no target within the lookback was above the new depth, the path
/// clears it with headroom, and it is at most one step.
pub proof fn law_shrinks_are_paced_and_earned(m: MakerView, now: Instant)
    requires
        m.session_frame() is Some,
        m.target_inputs() is Some,
        m.buffer <= GAME_SYNC_SAFE_BUFFER_MAX,
        m.bounds.min <= m.buffer <= m.bounds.max,
        m.decide(now).0.buffer < m.buffer,
    ensures
        m.dwell_elapsed((m.session_frame()->0).0),
        m.decide(now).0.buffer >= m.decide(now).0.target_peaks.max_over_last(TARGET_FLOOR_BASE_BUCKETS as int),
        m.decide(now).0.buffer >= (m.target_inputs()->0).shrink_target,
        m.decide(now).0.buffer >= m.buffer - m.law.lower_step,
        m.decide(now).0.buffer >= m.bounds.min,
{
}

/// A burned edge asks a shrink onto the floor for the long look: nothing in all of the
/// longest lookback may have been above it.
pub proof fn law_a_burned_edge_holds_for_the_long_lookback(m: MakerView, now: Instant)
    requires
        m.session_frame() is Some,
        m.target_inputs() is Some,
        m.buffer <= GAME_SYNC_SAFE_BUFFER_MAX,
        m.bounds.min <= m.buffer <= m.bounds.max,
        m.decide(now).0.buffer < m.buffer,
        m.decide(now).0.edge_burned,
        m.decide(now).0.buffer == m.decide(now).0.target_peaks.max_over_last(TARGET_FLOOR_BASE_BUCKETS as int),
    ensures
        m.decide(now).0.buffer >= m.decide(now).0.target_peaks.max_over_last(EDGE_PROBATION_BUCKETS as int),
{
}

/// A shrink taken back within two lookbacks burns the edge; the burn outlives every
/// decision for eight.
pub proof fn law_a_disproven_shrink_burns_the_edge(m: MakerView, now: Instant)
    requires
        m.session_frame() is Some,
        m.target_inputs() is Some,
        m.last_shrink is Some,
        steered_target(m, now) > m.buffer,
        steered_target(m, now) >= (m.last_shrink->0).from,
        (m.session_frame()->0).0.saturating_sub((m.last_shrink->0).frame) <= crate::maker::buffer::sat_mul(
            m.law.shrink_lookback_turns,
            2,
        ),
    ensures
        m.decide(now).0.edge_burned,
        m.decide(now).0.last_burn_frame == Some((m.session_frame()->0).0),
        m.decide(now).0.last_shrink is None,
{
}

/// A burn is lifted by nothing but eight lookbacks without another.
pub proof fn law_a_burn_lasts(m: MakerView, now: Instant)
    requires
        m.edge_burned,
        m.last_burn_frame is Some,
        m.session_frame() is Some,
        (m.session_frame()->0).0.saturating_sub(m.last_burn_frame->0) <= crate::maker::buffer::sat_mul(
            m.law.shrink_lookback_turns,
            8,
        ),
    ensures
        m.decide(now).0.edge_burned,
{
}

/// Whatever is decided stays within what the game takes, and a depth that the control law
/// moved to also within the policy; the decision, the queued directive and the session's
/// depth agree.
pub proof fn law_decisions_stay_in_range(m: MakerView, now: Instant)
    requires
        m.decide(now).1 is Some,
    ensures
        m.decide(now).0.buffer <= GAME_SYNC_SAFE_BUFFER_MAX,
        m.decide(now).0.buffer == m.buffer || m.decide(now).0.buffer == GAME_SYNC_SAFE_BUFFER_MAX || m.bounds.spec_clamp(
            m.decide(now).0.buffer,
        ) == m.decide(now).0.buffer,
        (m.decide(now).1->0).buffer.0 == m.decide(now).0.buffer,
        m.decide(now).0.pending_directive is Some,
        (m.decide(now).0.pending_directive->0).buffer_turns == m.decide(now).0.buffer,
        (m.decide(now).0.pending_directive->0).apply_at_frame == (m.decide(now).1->0).applied_frame.0,
{
}

/// A decision applies ahead of the session: past the old and the new buffer's span and the
/// horizon.
pub proof fn law_decisions_apply_ahead_of_the_session(m: MakerView, now: Instant)
    requires
        m.decide(now).1 is Some,
    ensures
        m.session_frame() is Some,
        (m.session_frame()->0).0 < u32::MAX ==> (m.decide(now).1->0).applied_frame.0 > (m.session_frame()->0).0,
        (m.decide(now).1->0).applied_frame.0 < u32::MAX ==> {
            &&& (m.decide(now).1->0).applied_frame.0 >= (m.session_frame()->0).0 + m.buffer + APPLY_HORIZON
            &&& (m.decide(now).1->0).applied_frame.0 >= (m.session_frame()->0).0 + m.decide(now).0.buffer + APPLY_HORIZON
        },
{
}

/// Every decision gets the next sequence number, and nothing else moves it.
pub proof fn law_decisions_are_numbered_in_order(m: MakerView, now: Instant)
    ensures
        m.decide(now).1 is Some ==> m.decide(now).0.decision_seq == m.decision_seq.saturating_add(1),
        m.decide(now).1 is Some ==> (m.decide(now).0.pending_directive->0).decision_seq == m.decide(now).0.decision_seq,
        m.decide(now).1 is None ==> m.decide(now).0.decision_seq == m.decision_seq,
        m.decide(now).1 is None ==> m.decide(now).0.buffer == m.buffer && m.decide(now).0.pending_directive
            == m.pending_directive,
{
}

/// Only the authority decides.
pub proof fn law_only_the_authority_decides(
    m: MakerView,
    conditions: Seq<crate::wire::SlotConditions>,
    mesh_rtt_us: u32,
    now: Instant,
)
    requires
        !m.is_authority(),
    ensures
        m.ingest_slots(conditions, mesh_rtt_us, now).1 is None,
        m.ingest_slots(conditions, mesh_rtt_us, now).0.pending_directive == m.pending_directive,
        m.ingest_slots(conditions, mesh_rtt_us, now).0.buffer == m.buffer,
        m.ingest_slots(conditions, mesh_rtt_us, now).0.decision_seq == m.decision_seq,
{
    lemma_ingest_keeps_the_decision(m, conditions, mesh_rtt_us, conditions.len() as int, now);
}

proof fn lemma_ingest_keeps_the_decision(
    m: MakerView,
    conditions: Seq<crate::wire::SlotConditions>,
    mesh_rtt_us: u32,
    n: int,
    now: Instant,
)
    ensures
        m.ingest_upto(conditions, mesh_rtt_us, n, now) == (MakerView {
            slots: m.ingest_upto(conditions, mesh_rtt_us, n, now).slots,
            ..m
        }),
    decreases n,
{
    if n > 0 {
        lemma_ingest_keeps_the_decision(m, conditions, mesh_rtt_us, n - 1, now);
    }
}

/// An observed directive never moves the session back: the order of decisions, sequence
/// number first and relay id second, only grows, and what is adopted is in force exactly.
pub proof fn law_directives_never_move_back(m: MakerView, d: BufferDirective)
    ensures
        m.observe_directive(d).decision_seq >= m.decision_seq,
        m.observe_directive(d).decision_seq >= d.decision_seq,
        !m.observe_directive(d).supersedes(d),
        m.supersedes(d) ==> m.observe_directive(d).buffer == d.buffer_turns,
        !m.supersedes(d) ==> m.observe_directive(d) == m,
        m.observe_directive(d).observe_directive(d) == m.observe_directive(d),
{
}

/// Relays that see two directives in different orders end up agreeing, wherever a
/// sequence number and relay id name one directive.
pub proof fn law_directive_order_does_not_matter(m: MakerView, a: BufferDirective, b: BufferDirective)
    requires
        a.decision_seq == b.decision_seq && a.authority_relay_id == b.authority_relay_id ==> a.buffer_turns
            == b.buffer_turns,
    ensures
        m.observe_directive(a).observe_directive(b) == m.observe_directive(b).observe_directive(a),
{
    let after_a = m.observe_directive(a);
    let after_b = m.observe_directive(b);
    if !m.supersedes(a) {
        assert(after_a == m);
        assert(!after_b.supersedes(a));
    } else if !m.supersedes(b) {
        assert(after_b == m);
        assert(!after_a.supersedes(b));
    } else if after_a.supersedes(b) {
        assert(!after_b.supersedes(a));
        assert(after_a.observe_directive(b) == after_b);
    } else if after_b.supersedes(a) {
        assert(after_b.observe_directive(a) == after_a);
    } else {
        assert(a.decision_seq == b.decision_seq && a.authority_relay_id == b.authority_relay_id);
        assert(after_a == after_b);
    }
}

/// A promoted relay's first decision outranks whatever directive it observed before.
pub proof fn law_a_promoted_relay_outranks_what_it_observed(
    m: MakerView,
    d: BufferDirective,
    held: Set<SlotId>,
    depth: u32,
    frame: GameFrameCount,
    now: Instant,
)
    requires
        m.authority == crate::wire::Authority::Peer,
        m.observe_directive(d).decision_seq < u32::MAX,
    ensures
        ({
            let promoted = m.observe_directive(d).set_authority(crate::wire::Authority::SelfRelay, held, now);
            let decided = promoted.queue_directive(depth, frame, None);
            &&& promoted.decision_seq >= d.decision_seq
            &&& (decided.pending_directive->0).decision_seq > d.decision_seq
            &&& !decided.supersedes(d)
        }),
{
    let observed = m.observe_directive(d);
    let reseated = observed.reseated(crate::wire::Authority::SelfRelay);
    let handed = observed.handoff(held);
    lemma_leaves_keep_the_decision(reseated, handed, handed.len() as int, now);
}

proof fn lemma_leaves_keep_the_decision(m: MakerView, handed: Seq<(SlotId, u32)>, n: int, now: Instant)
    ensures
        m.decide_leaves(handed, n, now).0.decision_seq == m.decision_seq,
        m.decide_leaves(handed, n, now).0.decision_seq_tiebreak == m.decision_seq_tiebreak,
    decreases n,
{
    if n > 0 {
        lemma_leaves_keep_the_decision(m, handed, n - 1, now);
    }
}

/// A directive rides every turn until the session reaches its frame, and no turn after.
pub proof fn law_a_directive_rides_until_it_applies(m: MakerView, now: Instant, later: MakerView)
    requires
        m.decide(now).1 is Some,
        later.pending_directive == m.decide(now).0.pending_directive,
        later.session_frame() is Some,
    ensures
        later.active_directive() is Some <==> (later.session_frame()->0).0 < (m.decide(now).1->0).applied_frame.0,
        later.active_directive() is Some ==> later.active_directive() == m.decide(now).0.pending_directive,
{
}

/// A demoted relay broadcasts nothing.
pub proof fn law_a_demoted_relay_falls_silent(m: MakerView, held: Set<SlotId>, now: Instant)
    requires
        m.is_authority(),
    ensures
        m.set_authority(crate::wire::Authority::Peer, held, now).pending_directive is None,
        m.set_authority(crate::wire::Authority::Peer, held, now).active_directive() is None,
        m.set_authority(crate::wire::Authority::Peer, held, now).decision_seq == m.decision_seq,
{
}

/// A slot's whole round trip: its own link's worst recent sample and the mesh hop on top,
/// as far as it can be counted.
pub open spec fn whole_trip(s: SlotView) -> int {
    if s.rtt() + s.mesh_rtt_us <= u32::MAX { s.rtt() + s.mesh_rtt_us } else { u32::MAX as int }
}

/// Whether `turns` turns cover the delay that a slot's loss adds: its loss rate times its
/// whole round trip.
pub open spec fn covers_loss(s: SlotView, law: ControlLaw, turns: int) -> bool {
    match s.windowed_loss_rate(law.loss_attack_samples) {
        Some(rate) => turns * (rate.sent * law.turn_duration_us) >= rate.lost * whole_trip(s),
        None => true,
    }
}

/// Whether `p` whole turns cover `us` microseconds, and one less does not.
pub open spec fn just_covers(p: int, us: int, law: ControlLaw) -> bool {
    p * law.turn_duration_us >= us && (p - 1) * law.turn_duration_us < us
}

/// Whether `d` turns are the delay that loss adds: enough for every slot's loss and
/// blackouts, and no more than the worst one takes.
pub open spec fn is_loss_delay(slots: Map<SlotId, SlotView>, law: ControlLaw, d: int) -> bool {
    &&& d >= 0
    &&& forall|s: SlotId| #[trigger]
        slots.contains_key(s) ==> covers_loss(slots[s], law, d) && slots[s].burst_turns() <= d
    &&& d == 0 || exists|s: SlotId| #[trigger]
        slots.contains_key(s) && (slots[s].burst_turns() == d || !covers_loss(slots[s], law, d - 1))
}

proof fn lemma_slot_loss(s: SlotView, law: ControlLaw, d: int)
    requires
        law.turn_duration_us > 0,
        crate::maker::buffer::measure(Measure::LossTurns, law, s) < u32::MAX,
    ensures
        d >= crate::maker::buffer::measure(Measure::LossTurns, law, s) ==> covers_loss(s, law, d),
        d > 0 && d == crate::maker::buffer::measure(Measure::LossTurns, law, s) ==> !covers_loss(s, law, d - 1),
{
    if let Some(r) = s.windowed_loss_rate(law.loss_attack_samples) {
        let num = r.lost * s.eff_rtt();
        let den = r.sent * law.turn_duration_us;
        let own = crate::maker::buffer::measure(Measure::LossTurns, law, s) as int;
        assert(num >= 0) by (nonlinear_arith)
            requires
                num == r.lost * s.eff_rtt(),
                r.lost >= 0,
                s.eff_rtt() >= 0,
        ;
        assert(den > 0) by (nonlinear_arith)
            requires
                den == r.sent * law.turn_duration_us,
                r.sent > 0,
                law.turn_duration_us > 0,
        ;
        lemma_ceil(num, den);
        assert(s.eff_rtt() == whole_trip(s));
        if d >= own {
            assert(d * den >= own * den) by (nonlinear_arith)
                requires
                    d >= own,
                    den > 0,
            ;
        }
    }
}

/// The target is the path in whole turns plus the delay that loss adds, each the least
/// that covers what it stands for; loss is priced over the whole round trip, mesh hop
/// included.
pub proof fn law_the_target_is_path_and_loss(m: MakerView)
    requires
        m.target_inputs() is Some,
        m.law.turn_duration_us > 0,
        (m.target_inputs()->0).target < u32::MAX,
    ensures
        ({
            let inputs = m.target_inputs()->0;
            exists|d: int| #[trigger]
                is_loss_delay(m.slots, m.law, d) && just_covers(inputs.target - d, inputs.path_us as int, m.law) && (
                inputs.shrink_target < u32::MAX ==> just_covers(
                    inputs.shrink_target - d,
                    if inputs.path_us + m.law.shrink_headroom_us <= u32::MAX {
                        inputs.path_us + m.law.shrink_headroom_us
                    } else {
                        u32::MAX as int
                    },
                    m.law,
                ))
        }),
{
    let inputs = m.target_inputs()->0;
    let loss = crate::maker::buffer::worst(m.slots, m.law, Measure::LossTurns);
    let burst = crate::maker::buffer::worst(m.slots, m.law, Measure::Burst);
    let d = if loss >= burst { loss as int } else { burst as int };
    lemma_path_exists(m.slots);
    lemma_path_is_positive(m.slots, Some(inputs.path_us));
    lemma_ceil(inputs.path_us as int, m.law.turn_duration_us as int);
    lemma_ceil(
        inputs.path_us.saturating_add(m.law.shrink_headroom_us) as int,
        m.law.turn_duration_us as int,
    );
    let s0 = choose|s: SlotId| crate::maker::buffer::measured(m.slots, s);
    assert(m.slots.contains_key(s0));
    lemma_largest(m, Measure::LossTurns, s0);
    lemma_largest(m, Measure::Burst, s0);
    assert(crate::maker::buffer::is_worst(m.slots, m.law, Measure::LossTurns, loss));
    assert(crate::maker::buffer::is_worst(m.slots, m.law, Measure::Burst, burst));
    assert forall|s: SlotId| #[trigger] m.slots.contains_key(s) implies covers_loss(m.slots[s], m.law, d)
        && m.slots[s].burst_turns() <= d by {
        lemma_slot_loss(m.slots[s], m.law, d);
        assert(crate::maker::buffer::measure(Measure::Burst, m.law, m.slots[s]) <= burst);
    }
    if d > 0 {
        if d == burst {
            let s = choose|s: SlotId| #[trigger]
                m.slots.contains_key(s) && crate::maker::buffer::measure(Measure::Burst, m.law, m.slots[s]) == burst;
            assert(m.slots.contains_key(s) && m.slots[s].burst_turns() == d);
        } else {
            let s = choose|s: SlotId| #[trigger]
                m.slots.contains_key(s) && crate::maker::buffer::measure(Measure::LossTurns, m.law, m.slots[s]) == loss;
            lemma_slot_loss(m.slots[s], m.law, d);
            assert(m.slots.contains_key(s) && !covers_loss(m.slots[s], m.law, d - 1));
        }
    }
    assert(is_loss_delay(m.slots, m.law, d));
}

/// The delay that loss adds is one number: no other is enough and no more than it takes.
pub proof fn law_the_loss_delay_is_unique(slots: Map<SlotId, SlotView>, law: ControlLaw, d: int, e: int)
    requires
        is_loss_delay(slots, law, d),
        is_loss_delay(slots, law, e),
    ensures
        d == e,
{
    lemma_loss_delay_least(slots, law, d, e);
    lemma_loss_delay_least(slots, law, e, d);
}

proof fn lemma_loss_delay_least(slots: Map<SlotId, SlotView>, law: ControlLaw, d: int, e: int)
    requires
        is_loss_delay(slots, law, d),
        is_loss_delay(slots, law, e),
    ensures
        e <= d,
{
    if d < e {
        let s = choose|s: SlotId| #[trigger]
            slots.contains_key(s) && (slots[s].burst_turns() == e || !covers_loss(slots[s], law, e - 1));
        assert(covers_loss(slots[s], law, d) && slots[s].burst_turns() <= d);
        if let Some(rate) = slots[s].windowed_loss_rate(law.loss_attack_samples) {
            let den = rate.sent * law.turn_duration_us;
            assert((e - 1) * den >= d * den) by (nonlinear_arith)
                requires
                    e - 1 >= d,
                    den == rate.sent * law.turn_duration_us,
                    rate.sent >= 0,
                    law.turn_duration_us >= 0,
            ;
        }
    }
}

/// The path is half of the two longest whole round trips together, or a lone slot's own;
/// and there is one exactly while some slot's own link is measured.
pub proof fn law_the_path_joins_the_two_furthest_slots(m: MakerView)
    ensures
        m.target_inputs() is Some <==> exists|s: SlotId| #[trigger] m.slots.contains_key(s) && m.slots[s].rtt() > 0,
        m.target_inputs() is Some ==> {
            let path = (m.target_inputs()->0).path_us as int;
            &&& forall|a: SlotId, b: SlotId| #[trigger]
                m.slots.contains_key(a) && #[trigger] m.slots.contains_key(b) && a != b && whole_trip(m.slots[a]) > 0
                    && whole_trip(m.slots[b]) > 0 ==> (whole_trip(m.slots[a]) + whole_trip(m.slots[b])) / 2 <= path
            &&& (exists|a: SlotId, b: SlotId| #[trigger]
                m.slots.contains_key(a) && #[trigger] m.slots.contains_key(b) && a != b && whole_trip(m.slots[a]) > 0
                    && whole_trip(m.slots[b]) > 0 && (whole_trip(m.slots[a]) + whole_trip(m.slots[b])) / 2 == path) || (exists|
                a: SlotId,
            | #[trigger]
                m.slots.contains_key(a) && whole_trip(m.slots[a]) == path && forall|b: SlotId| #[trigger]
                    m.slots.contains_key(b) && b != a ==> whole_trip(m.slots[b]) == 0)
        },
{
    lemma_path_exists(m.slots);
    let path = crate::maker::buffer::path_of(m.slots);
    if exists|s: SlotId| #[trigger] m.slots.contains_key(s) && m.slots[s].rtt() > 0 {
        let s = choose|s: SlotId| #[trigger] m.slots.contains_key(s) && m.slots[s].rtt() > 0;
        assert(crate::maker::buffer::measured(m.slots, s));
    }
    if path is Some {
        let p = path->0;
        let s = choose|s: SlotId| crate::maker::buffer::measured(m.slots, s);
        assert(m.slots.contains_key(s) && m.slots[s].rtt() > 0);
        assert forall|a: SlotId, b: SlotId| #[trigger]
            m.slots.contains_key(a) && #[trigger] m.slots.contains_key(b) && a != b && whole_trip(m.slots[a]) > 0
                && whole_trip(m.slots[b]) > 0 implies (whole_trip(m.slots[a]) + whole_trip(m.slots[b])) / 2 <= p by {
            assert(crate::maker::buffer::is_pair(m.slots, a, b));
        }
        if exists|a: SlotId, b: SlotId| #[trigger]
            crate::maker::buffer::is_pair(m.slots, a, b) && crate::maker::buffer::pair_path(m.slots, a, b) == p {
            let (a, b) = choose|a: SlotId, b: SlotId| #[trigger]
                crate::maker::buffer::is_pair(m.slots, a, b) && crate::maker::buffer::pair_path(m.slots, a, b) == p;
            assert(m.slots.contains_key(a) && m.slots.contains_key(b));
        } else {
            let a = choose|a: SlotId| #[trigger]
                crate::maker::buffer::distant(m.slots, a) && m.slots[a].eff_rtt() == p;
            assert(m.slots.contains_key(a));
            assert forall|b: SlotId| #[trigger] m.slots.contains_key(b) && b != a implies whole_trip(m.slots[b]) == 0 by {
                assert(!crate::maker::buffer::is_pair(m.slots, a, b));
            }
        }
    }
}

proof fn lemma_slot_risk(s: SlotView, law: ControlLaw)
    ensures
        match s.windowed_loss_rate(law.loss_attack_samples) {
            Some(r) => {
                let risk = crate::maker::buffer::measure(Measure::LossRisk, law, s);
                &&& 2 * (r.lost * whole_trip(s)) - r.sent < 2 * (risk * r.sent)
                &&& 2 * (risk * r.sent) <= 2 * (r.lost * whole_trip(s)) + r.sent
            },
            None => crate::maker::buffer::measure(Measure::LossRisk, law, s) == 0,
        },
{
    if let Some(r) = s.windowed_loss_rate(law.loss_attack_samples) {
        let x = r.lost * s.eff_rtt();
        let sent = r.sent as int;
        assert(s.eff_rtt() == whole_trip(s));
        let q = (2 * x + sent) / (2 * sent);
        vstd::arithmetic::div_mod::lemma_fundamental_div_mod(2 * x + sent, 2 * sent);
        vstd::arithmetic::div_mod::lemma_mod_bound(2 * x + sent, 2 * sent);
        assert(2 * sent * q == 2 * (q * sent)) by (nonlinear_arith);
        assert(0 <= x <= sent * s.eff_rtt()) by (nonlinear_arith)
            requires
                x == r.lost * s.eff_rtt(),
                0 <= r.lost <= sent,
                s.eff_rtt() >= 0,
        ;
        assert(0 <= q <= s.eff_rtt()) by (nonlinear_arith)
            requires
                2 * (q * sent) <= 2 * x + sent,
                2 * x + sent < 2 * (q * sent) + 2 * sent,
                0 <= x <= sent * s.eff_rtt(),
                sent > 0,
        ;
    }
}

/// The loss risk that is reported is the worst slot's loss rate times its whole round trip,
/// to the nearest microsecond.
pub proof fn law_the_reported_risk_is_the_worst(m: MakerView)
    requires
        m.target_inputs() is Some,
    ensures
        ({
            let risk = (m.target_inputs()->0).loss_risk_us;
            &&& forall|s: SlotId| #[trigger]
                m.slots.contains_key(s) ==> match m.slots[s].windowed_loss_rate(m.law.loss_attack_samples) {
                    Some(r) => 2 * (r.lost * whole_trip(m.slots[s])) - r.sent < 2 * (risk * r.sent),
                    None => true,
                }
            &&& risk == 0 || exists|s: SlotId| #[trigger]
                m.slots.contains_key(s) && match m.slots[s].windowed_loss_rate(m.law.loss_attack_samples) {
                    Some(r) => 2 * (risk * r.sent) <= 2 * (r.lost * whole_trip(m.slots[s])) + r.sent,
                    None => false,
                }
        }),
{
    let risk = (m.target_inputs()->0).loss_risk_us;
    lemma_path_exists(m.slots);
    let s0 = choose|s: SlotId| crate::maker::buffer::measured(m.slots, s);
    assert(m.slots.contains_key(s0));
    lemma_largest(m, Measure::LossRisk, s0);
    assert(crate::maker::buffer::is_worst(m.slots, m.law, Measure::LossRisk, risk));
    assert forall|s: SlotId| #[trigger] m.slots.contains_key(s) implies match m.slots[s].windowed_loss_rate(
        m.law.loss_attack_samples,
    ) {
        Some(r) => 2 * (r.lost * whole_trip(m.slots[s])) - r.sent < 2 * (risk * r.sent),
        None => true,
    } by {
        lemma_slot_risk(m.slots[s], m.law);
        if let Some(r) = m.slots[s].windowed_loss_rate(m.law.loss_attack_samples) {
            let own = crate::maker::buffer::measure(Measure::LossRisk, m.law, m.slots[s]);
            assert(own * r.sent <= risk * r.sent) by (nonlinear_arith)
                requires
                    own <= risk,
                    r.sent >= 0,
            ;
        }
    }
    if risk != 0 {
        let s = choose|s: SlotId| #[trigger]
            m.slots.contains_key(s) && crate::maker::buffer::measure(Measure::LossRisk, m.law, m.slots[s]) == risk;
        lemma_slot_risk(m.slots[s], m.law);
        assert(m.slots.contains_key(s));
    }
}

} // verus!
