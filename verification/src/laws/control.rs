//! Laws of when the buffer moves, where to, and what the directive that moves it says.
use crate::ids::GameFrameCount;
use crate::ids::SlotId;
use crate::law::BucketsView;
use crate::maker::buffer::TargetInputs;
use crate::maker::MakerView;
use crate::slot::SlotView;
use crate::time::Instant;
use crate::wire::Authority;
use crate::wire::BufferDirective;
use vstd::prelude::*;

verus! {

/// Whether `frame` is the session's: the earliest that any slot has announced, and none
/// where no slot has announced any.
pub open spec fn is_earliest(slots: Map<SlotId, SlotView>, frame: Option<GameFrameCount>) -> bool {
    match frame {
        Some(f) => {
            &&& exists|s: SlotId| #[trigger] slots.contains_key(s) && slots[s].frame == Some(f)
            &&& forall|s: SlotId| #[trigger] slots.contains_key(s) && slots[s].frame is Some ==> f.0 <= (slots[s].frame->0).0
        },
        None => forall|s: SlotId| #[trigger] slots.contains_key(s) ==> slots[s].frame is None,
    }
}

/// The session is at the earliest frame any slot has announced.
pub proof fn law_the_slowest_slot_sets_the_frame(m: MakerView)
    ensures
        is_earliest(m.slots, m.session_frame()),
{
    crate::laws::buffer::law_session_frame_is_the_earliest(m);
}

/// What is steered to: what the links call for, and on top the delivery cushion and the
/// stretch pressure.
pub open spec fn on_top(m: MakerView, now: Instant, turns: u32) -> int {
    let sum = turns + m.delivery.cushion_turns + m.phase.stretch_turns(now);
    if sum <= u32::MAX { sum } else { u32::MAX as int }
}

/// Whether nothing seen within the last `n` stretches was above `depth`.
pub open spec fn clears(peaks: BucketsView, n: int, depth: int) -> bool {
    forall|i: int| 0 <= i < n && i < peaks.recent.len() ==> #[trigger] peaks.recent[i] <= depth
}

proof fn lemma_clears(peaks: BucketsView, n: int, depth: u32)
    requires
        0 <= n,
    ensures
        clears(peaks, n, depth as int) <==> peaks.max_over_last(n) <= depth,
{
    let window = peaks.recent.take(if n <= peaks.recent.len() { n } else { peaks.recent.len() as int });
    crate::law::lemma_max_of(window);
    if clears(peaks, n, depth as int) {
        if window.contains(crate::law::max_of(window)) {
            let i = choose|i: int| 0 <= i < window.len() && window[i] == crate::law::max_of(window);
            assert(window[i] == peaks.recent[i]);
        }
    }
    if peaks.max_over_last(n) <= depth {
        assert forall|i: int| 0 <= i < n && i < peaks.recent.len() implies #[trigger] peaks.recent[i] <= depth by {
            assert(window[i] == peaks.recent[i]);
        }
    }
}

/// The depth one step down, held at what the shrink gate sees.
pub open spec fn step_down(m: MakerView, gate: int) -> int {
    let stepped = m.buffer - m.law.lower_step;
    if stepped >= gate { stepped } else { gate }
}

/// Whether the dwell since the last decision has passed.
pub open spec fn dwelt(m: MakerView, frame: GameFrameCount) -> bool {
    m.last_decision_frame is Some ==> frame.0 >= (m.last_decision_frame->0).0 + m.law.min_dwell_turns
        || m.law.min_dwell_turns == 0
}

/// Whether a session's depth is one the control law itself could have left it at.
pub open spec fn in_range(m: MakerView) -> bool {
    m.bounds.min <= m.buffer <= m.bounds.max && m.buffer <= 10
}

/// A target between the depth and what the shrink gate sees moves nothing.
pub proof fn law_a_covered_target_holds_the_depth(m: MakerView, now: Instant)
    requires
        m.session_frame() is Some,
        m.target_inputs() is Some,
        on_top(m, now, (m.target_inputs()->0).target) <= m.buffer,
        on_top(m, now, (m.target_inputs()->0).shrink_target) >= m.buffer,
        m.initial_directive_sent,
    ensures
        m.decide(now).1 is None,
        m.decide(now).0.buffer == m.buffer,
        m.decide(now).0.pending_directive == m.pending_directive,
        m.decide(now).0.last_decision_frame == m.last_decision_frame,
{
}

/// A shrink is taken exactly where it is earned: the dwell has passed, nothing in the
/// lookback was above the lower depth, and, on an edge that was burned, a depth that only
/// just clears the lookback clears the longest one too. It moves one step down, and no
/// further than the target with headroom lets it.
pub proof fn law_an_earned_shrink_is_taken(m: MakerView, now: Instant)
    requires
        m.session_frame() is Some,
        m.target_inputs() is Some,
        m.initial_directive_sent,
        in_range(m),
        on_top(m, now, (m.target_inputs()->0).target) <= m.buffer,
        on_top(m, now, (m.target_inputs()->0).shrink_target) < m.buffer,
        m.law.lower_step > 0,
    ensures
        ({
            let (next, decision) = m.decide(now);
            let low = step_down(m, on_top(m, now, (m.target_inputs()->0).shrink_target));
            let earned = {
                &&& dwelt(m, m.session_frame()->0)
                &&& clears(next.target_peaks, 8, low)
                &&& next.edge_burned ==> clears(next.target_peaks, 8, low - 1) || clears(next.target_peaks, 32, low)
            };
            &&& earned ==> crate::laws::start::brought_in(m, low, next.buffer as int)
            &&& !earned ==> next.buffer == m.buffer && decision is None
            &&& next.buffer != m.buffer ==> decision is Some && (decision->0).buffer.0 == next.buffer
                && next.last_shrink == Some(crate::maker::ShrinkRecord { from: m.buffer, frame: (m.session_frame()->0).0 })
        }),
{
    let (next, decision) = m.decide(now);
    let gate = on_top(m, now, (m.target_inputs()->0).shrink_target) as u32;
    let low = m.lowered(gate);
    assert(low == step_down(m, gate as int));
    lemma_clears(next.target_peaks, 8, low);
    lemma_clears(next.target_peaks, 32, low);
    if low > 0 {
        lemma_clears(next.target_peaks, 8, (low - 1) as u32);
    } else if clears(next.target_peaks, 8, low - 1) {
        lemma_never_below_zero(next.target_peaks);
    }
}

proof fn lemma_never_below_zero(peaks: BucketsView)
    requires
        clears(peaks, 8, -1),
    ensures
        peaks.recent.len() == 0,
{
    if peaks.recent.len() > 0 {
        assert(peaks.recent[0] >= 0);
    }
}

/// A raise goes to the target at once, as far as bounds and ceiling let it, and no further.
pub proof fn law_a_raise_goes_to_the_target(m: MakerView, now: Instant)
    requires
        m.session_frame() is Some,
        m.target_inputs() is Some,
        on_top(m, now, (m.target_inputs()->0).target) > m.buffer,
        in_range(m),
    ensures
        crate::laws::start::brought_in(
            m,
            on_top(m, now, (m.target_inputs()->0).target),
            m.decide(now).0.buffer as int,
        ),
        m.decide(now).0.last_shrink is None,
        m.decide(now).0.buffer >= m.buffer,
        m.decide(now).0.buffer > m.buffer ==> m.decide(now).1 is Some,
{
}

/// The target of the moment counts among the peaks that hold a shrink back.
pub proof fn law_the_target_of_the_moment_is_a_peak(m: MakerView, now: Instant)
    requires
        m.session_frame() is Some,
        m.target_inputs() is Some,
        m.target_peaks.recent.len() > 0,
    ensures
        m.decide(now).0.target_peaks.recent.len() == m.target_peaks.recent.len(),
        m.decide(now).0.target_peaks.recent[0] >= on_top(m, now, (m.target_inputs()->0).target),
{
}

/// A burn is lifted once more than eight lookbacks have passed since it.
pub proof fn law_a_burn_is_lifted_in_time(m: MakerView, now: Instant)
    requires
        m.session_frame() is Some,
        m.target_inputs() is Some,
        m.last_burn_frame is Some,
        (m.session_frame()->0).0 > m.last_burn_frame->0 + 8 * m.law.shrink_lookback_turns,
        on_top(m, now, (m.target_inputs()->0).target) <= m.buffer,
    ensures
        !m.decide(now).0.edge_burned,
        m.decide(now).0.last_burn_frame is None,
{
}

/// A raise burns the edge exactly where it takes back a shrink no older than two lookbacks;
/// any other leaves a burn as it was.
pub proof fn law_only_a_raise_that_takes_back_a_shrink_burns(m: MakerView, now: Instant)
    requires
        m.session_frame() is Some,
        m.target_inputs() is Some,
        m.last_burn_frame is None,
        !m.edge_burned,
    ensures
        m.decide(now).0.edge_burned <==> {
            &&& m.last_shrink is Some
            &&& on_top(m, now, (m.target_inputs()->0).target) > m.buffer
            &&& on_top(m, now, (m.target_inputs()->0).target) >= (m.last_shrink->0).from
            &&& (m.session_frame()->0).0 <= (m.last_shrink->0).frame + 2 * m.law.shrink_lookback_turns
        },
{
}

/// Before any slot has announced a frame nothing is decided; the first decision after is
/// owed at once, even where nothing is measured or nothing moves.
pub proof fn law_the_first_directive_is_owed(m: MakerView, now: Instant)
    ensures
        m.session_frame() is None ==> m.decide(now).0 == m && m.decide(now).1 is None,
        m.session_frame() is Some && !m.initial_directive_sent ==> m.decide(now).1 is Some,
        m.session_frame() is Some ==> m.decide(now).0.initial_directive_sent,
        m.session_frame() is Some && m.target_inputs() is None && m.initial_directive_sent ==> m.decide(now).0 == m
            && m.decide(now).1 is None,
        m.target_inputs() is None && m.buffer <= 10 ==> m.decide(now).0.buffer == m.buffer,
{
}

/// A decision's directive takes effect at the session's frame plus the deeper of the two
/// buffers plus three turns, bears this relay's id, and dates the dwell.
pub proof fn law_a_directive_says_when_and_by_whom(m: MakerView, now: Instant)
    requires
        m.decide(now).1 is Some,
    ensures
        ({
            let (next, decision) = m.decide(now);
            let sent = next.pending_directive->0;
            let frame = (m.session_frame()->0).0;
            let deeper = if m.buffer >= next.buffer { m.buffer } else { next.buffer };
            &&& next.pending_directive is Some
            &&& sent.apply_at_frame == if frame + deeper + 3 <= u32::MAX { frame + deeper + 3 } else { u32::MAX as int }
            &&& sent.buffer_turns == next.buffer
            &&& sent.buffer_turns == (decision->0).buffer.0
            &&& sent.apply_at_frame == (decision->0).applied_frame.0
            &&& m.own_relay_id is Some ==> sent.authority_relay_id == Some((m.own_relay_id->0).0)
            &&& m.own_relay_id is None ==> sent.authority_relay_id is None
            &&& next.decision_seq_tiebreak == sent.authority_relay_id
            &&& next.last_decision_frame == m.session_frame()
            &&& next.initial_directive_sent
        }),
{
}

/// A decision that moves the depth says what moved it: the links' own target, what was
/// steered to and gated by, and each part of it. One that only announces says nothing.
pub proof fn law_a_move_says_what_it_rests_on(m: MakerView, now: Instant)
    requires
        m.decide(now).1 is Some,
        m.buffer <= 10,
    ensures
        m.decide(now).0.buffer == m.buffer ==> m.decide(now).0.pending_inputs is None,
        m.decide(now).0.buffer != m.buffer ==> {
            let said = m.decide(now).0.pending_inputs->0;
            let inputs = m.target_inputs()->0;
            &&& m.decide(now).0.pending_inputs is Some
            &&& m.target_inputs() is Some
            &&& said.law_target == inputs.target
            &&& said.target == on_top(m, now, inputs.target)
            &&& said.shrink_target == on_top(m, now, inputs.shrink_target)
            &&& said.path_us == inputs.path_us
            &&& said.loss_risk_us == inputs.loss_risk_us
            &&& said.burst_turns == inputs.burst_turns
            &&& said.cushion_turns == m.delivery.cushion_turns
            &&& said.stretch_turns == m.phase.stretch_turns(now)
        },
{
}

/// A move down says whether the edge was burned, and what floor held it: the highest target
/// of the lookback, this one included.
pub proof fn law_a_shrink_says_what_floor_held_it(m: MakerView, now: Instant)
    requires
        m.decide(now).1 is Some,
        m.buffer <= 10,
        m.decide(now).0.buffer != m.buffer,
    ensures
        ({
            let said = m.decide(now).0.pending_inputs->0;
            let peaks = m.decide(now).0.target_peaks;
            &&& said.edge_burned == m.decide(now).0.edge_burned
            &&& clears(peaks, 8, said.shrink_floor as int)
            &&& said.shrink_floor > 0 ==> !clears(peaks, 8, said.shrink_floor - 1)
        }),
{
    let said = m.decide(now).0.pending_inputs->0;
    let peaks = m.decide(now).0.target_peaks;
    lemma_clears(peaks, 8, said.shrink_floor);
    if said.shrink_floor > 0 {
        lemma_clears(peaks, 8, (said.shrink_floor - 1) as u32);
    }
}

/// A move lists every slot's whole round trip once, in ascending order of slots.
pub proof fn law_a_move_lists_every_round_trip(m: MakerView, now: Instant)
    requires
        m.decide(now).0.pending_inputs is Some,
        m.decide(now).1 is Some,
    ensures
        ({
            let said = (m.decide(now).0.pending_inputs->0).eff_rtts;
            &&& said.len() == m.slots.dom().len()
            &&& forall|i: int|
                0 <= i < said.len() ==> m.slots.contains_key(SlotId((#[trigger] said[i]).slot)) && said[i].eff_rtt_us
                    == crate::laws::buffer::whole_trip(m.slots[SlotId(said[i].slot)])
            &&& forall|i: int, j: int| 0 <= i < j < said.len() ==> (#[trigger] said[i]).slot < (#[trigger] said[j]).slot
        }),
{
    let keys = crate::ordmap::listing(m.slots.dom());
    crate::laws::phase::lemma_slots_are_finite(m.slots.dom());
    crate::ordmap::lemma_listing_exists(m.slots.dom());
    crate::ordmap::lemma_listed_len(keys, m.slots.dom());
    let said = (m.decide(now).0.pending_inputs->0).eff_rtts;
    assert(said.len() == keys.len());
    assert forall|i: int| 0 <= i < said.len() implies m.slots.contains_key(SlotId((#[trigger] said[i]).slot))
        && said[i].eff_rtt_us == crate::laws::buffer::whole_trip(m.slots[SlotId(said[i].slot)]) && said[i].slot == keys[i].0 by {
        assert(keys.contains(keys[i]));
        assert(m.slots.dom().contains(keys[i]));
    }
    assert forall|i: int, j: int| 0 <= i < j < said.len() implies (#[trigger] said[i]).slot < (#[trigger] said[j]).slot by {
        assert(said[i].slot == keys[i].0 && said[j].slot == keys[j].0);
    }
}

/// A directive outranks what is known by a higher number, or at the same number by a higher
/// relay id, no id ranking lowest. One that outranks is taken over whole; any other changes
/// nothing.
pub proof fn law_the_higher_ranked_directive_wins(m: MakerView, d: BufferDirective)
    ensures
        ({
            let outranks = d.decision_seq > m.decision_seq || (d.decision_seq == m.decision_seq
                && d.authority_relay_id is Some && (m.decision_seq_tiebreak is None || d.authority_relay_id->0
                > m.decision_seq_tiebreak->0));
            let next = m.observe_directive(d);
            &&& outranks ==> next.buffer == d.buffer_turns && next.decision_seq == d.decision_seq
                && next.decision_seq_tiebreak == d.authority_relay_id
            &&& !outranks ==> next == m
            &&& next.pending_directive == m.pending_directive && next.last_decision_frame == m.last_decision_frame
        }),
{
}

/// A queued directive is handed out until the session has reached the frame it applies at,
/// and as long as no frame is known.
pub proof fn law_a_queued_directive_is_handed_out(m: MakerView)
    ensures
        m.pending_directive is None ==> m.active_directive() is None,
        m.pending_directive is Some && m.session_frame() is None ==> m.active_directive() == m.pending_directive,
        m.pending_directive is Some && m.session_frame() is Some ==> m.active_directive() == if (m.session_frame()->0).0
            < (m.pending_directive->0).apply_at_frame {
            m.pending_directive
        } else {
            None
        },
{
}

/// Taking over begins afresh: nothing is left of an earlier comparison, the first directive
/// is owed anew, and the depth taken over counts as a peak, so it is not given up at once.
/// Handing over clears what was queued. Neither touches depth or numbering.
pub proof fn law_a_takeover_begins_afresh(m: MakerView, authority: Authority)
    ensures
        ({
            let next = m.reseated(authority);
            &&& next.authority == authority
            &&& next.buffer == m.buffer && next.decision_seq == m.decision_seq && next.departures == m.departures
                && next.decided_leaves == m.decided_leaves
            &&& m.authority == authority ==> next == m
            &&& m.authority != authority && authority == Authority::Peer ==> next.pending_directive is None
                && next.pending_inputs is None && next.sync == m.sync
            &&& m.authority != authority && authority == Authority::SelfRelay ==> {
                &&& !next.initial_directive_sent
                &&& next.sync.members.dom() =~= Set::empty()
                &&& next.sync.pending.dom() =~= Set::empty()
                &&& next.sync.excluded =~= Set::empty()
                &&& !next.sync.dormant && !next.sync.initialized
                &&& m.session_frame() is Some && m.target_peaks.recent.len() > 0 ==> next.target_peaks.recent[0] >= m.buffer
            }
        }),
{
}

} // verus!
