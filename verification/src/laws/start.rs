//! Laws of a session's start, its region labels and the silence watch.
use crate::ids::SlotId;
use crate::laws::session::Step;
use crate::maker::silence::SilentSlot;
use crate::maker::MakerView;
use crate::sync::GAME_SYNC_SAFE_BUFFER_MAX;
use crate::time::Duration;
use crate::time::Instant;
use crate::wire::Authority;
use vstd::prelude::*;

verus! {

/// A session starts when its authority has every expected slot, and once only.
pub proof fn law_a_session_starts_once(m: MakerView, now: Instant, steps: Seq<Step>)
    requires
        crate::laws::session::sound(m),
        m.starts(),
    ensures
        m.expected.subset_of(m.live),
        m.is_authority(),
        m.maybe_start(now).started,
        m.maybe_start(now).started_at is Some,
        crate::laws::session::after_all(m.maybe_start(now), steps).started,
        !crate::laws::session::after_all(m.maybe_start(now), steps).starts(),
        crate::laws::session::after_all(m.maybe_start(now), steps).started_at == m.maybe_start(now).started_at,
{
    let begun = m.maybe_start(now);
    assert(crate::laws::session::sound(begun)) by {
        crate::laws::session::law_every_step_stays_sound(
            m,
            Step::Note(crate::laws::session::Note::Reevaluate(now)),
        );
        reveal(crate::laws::session::after);
    }
    crate::laws::session::law_sessions_stay_sound(begun, steps);
}

/// A session that has started does not start again.
pub proof fn law_a_started_session_does_not_start(m: MakerView, now: Instant)
    requires
        m.started,
    ensures
        !m.starts(),
        m.maybe_start(now) == m,
{
}

/// The depth a session starts at is one that the game takes.
pub proof fn law_the_initial_depth_is_in_range(m: MakerView, now: Instant)
    requires
        m.starts(),
    ensures
        m.maybe_start(now).buffer <= GAME_SYNC_SAFE_BUFFER_MAX,
        m.maybe_start(now).initial_buffer_turns == Some(m.maybe_start(now).buffer),
        m.maybe_start(now).buffer <= m.bounds.max,
        m.bounds.min <= m.bounds.max && m.bounds.min <= GAME_SYNC_SAFE_BUFFER_MAX ==> m.maybe_start(now).buffer
            >= m.bounds.min,
{
}

/// A relay that adopts another's start, under the same policy, starts at the same depth.
pub proof fn law_adopters_start_at_the_same_depth(authority: MakerView, peer: MakerView, now: Instant, later: Instant, now_ms: u64)
    requires
        authority.starts(),
        peer.bounds == authority.bounds,
    ensures
        peer.adopt_session_start(authority.maybe_start(now).initial_buffer_turns, later, now_ms).buffer
            == authority.maybe_start(now).buffer,
        peer.adopt_session_start(authority.maybe_start(now).initial_buffer_turns, later, now_ms).started,
{
}

/// An adopted depth is one that the game takes, and a start without one leaves a running
/// game's depth alone.
pub proof fn law_adopted_depths_are_in_range(m: MakerView, depth: Option<u32>, now: Instant, now_ms: u64)
    ensures
        m.adopt_session_start(depth, now, now_ms).started,
        depth is Some ==> m.adopt_session_start(depth, now, now_ms).buffer <= GAME_SYNC_SAFE_BUFFER_MAX,
        depth is Some ==> m.adopt_session_start(depth, now, now_ms).initial_buffer_turns == Some(
            m.adopt_session_start(depth, now, now_ms).buffer,
        ),
        depth is None ==> m.adopt_session_start(depth, now, now_ms).buffer == m.buffer,
{
}

/// Region labels are withheld until the session has run for the whole delay by the relay's
/// own clock, whatever clients send meanwhile, and are released once.
pub proof fn law_labels_wait_out_the_delay(m: MakerView, delay: Duration, now: Instant)
    requires
        !m.region_labels_released,
    ensures
        m.started_at is None ==> !m.labels_due(delay, now),
        delay.nanos > 0 && m.started_at is Some && now.nanos < m.started_at->0.nanos + delay.nanos ==> !m.labels_due(
            delay,
            now,
        ),
        m.started_at is Some && now.nanos >= m.started_at->0.nanos + delay.nanos ==> m.labels_due(delay, now),
        m.released_labels() is None,
{
}

/// Released labels are not released a second time.
pub proof fn law_labels_are_released_once(m: MakerView, delay: Duration, now: Instant)
    requires
        m.region_labels_released,
    ensures
        !m.labels_due(delay, now),
{
}

/// The silence watch names at most one slot, and says one thing of it: the slot that
/// stopped strictly before every other.
pub proof fn law_the_silence_watch_has_one_answer(
    m: MakerView,
    now: Instant,
    window: Duration,
    a: Option<SilentSlot>,
    b: Option<SilentSlot>,
)
    requires
        m.silence_answer(now, window, a),
        m.silence_answer(now, window, b),
    ensures
        a == b,
{
    if a is Some && b is Some {
        let x = a->0;
        let y = b->0;
        assert(m.watched().contains(x.slot) && m.watched().contains(y.slot));
        let at = m.stop(x.slot, m.started_at->0);
        let o = choose|o: SlotId| #[trigger]
            m.watched().contains(o) && o != x.slot && m.stop(o, m.started_at->0).spec_since(at) == x.lead;
        let p = choose|p: SlotId| #[trigger]
            m.watched().contains(p) && p != x.slot && m.stop(p, m.started_at->0).spec_since(at) == y.lead;
        assert(m.watched().contains(o) && m.watched().contains(p));
    } else if a is Some {
        assert(m.names_silent(a->0.slot, now, window));
    } else if b is Some {
        assert(m.names_silent(b->0.slot, now, window));
    }
}

/// Only a live home slot that has been up and silent for the whole window is named, and
/// none that was evicted before.
pub proof fn law_only_silent_home_slots_are_named(m: MakerView, now: Instant, window: Duration, found: SilentSlot)
    requires
        m.silence_answer(now, window, Some(found)),
    ensures
        m.homed.contains(found.slot),
        m.connection_is_up(found.slot),
        !m.departures.contains_key(found.slot),
        !m.decided_leaves.contains_key(found.slot),
        !m.silence_evicted.contains(found.slot),
        found.silent_for.nanos >= window.nanos,
        found.lead.nanos > 0,
        forall|s: SlotId| #[trigger]
            m.watched().contains(s) && s != found.slot ==> m.stop(s, m.started_at->0).nanos > m.stop(
                found.slot,
                m.started_at->0,
            ).nanos,
{
    let at = m.stop(found.slot, m.started_at->0);
    let o = choose|o: SlotId| #[trigger]
        m.watched().contains(o) && o != found.slot && m.stop(o, m.started_at->0).spec_since(at) == found.lead;
    assert(m.watched().contains(o));
    assert(m.watched().contains(found.slot));
}

/// Whether `depth` is `want` brought into the session's bounds and under the game's own
/// ceiling, and moved no further than that takes.
pub open spec fn brought_in(m: MakerView, want: int, depth: int) -> bool {
    &&& depth <= m.bounds.max
    &&& depth <= GAME_SYNC_SAFE_BUFFER_MAX
    &&& depth >= want || depth == m.bounds.max || depth == GAME_SYNC_SAFE_BUFFER_MAX
    &&& depth >= m.bounds.min || depth == m.bounds.max || depth == GAME_SYNC_SAFE_BUFFER_MAX
    &&& depth <= want || depth <= m.bounds.min
}

proof fn lemma_brought_in(m: MakerView, want: u32)
    ensures
        brought_in(m, want as int, m.game_safe_clamp(want) as int),
{
}

/// Whether every expected slot that has not departed is measured over its own link.
pub open spec fn all_are_measured(m: MakerView) -> bool {
    forall|s: SlotId| #[trigger]
        m.expected.contains(s) && !m.departures.contains_key(s) ==> m.slots.contains_key(s) && m.slots[s].rtt() > 0
}

proof fn lemma_all_measured(m: MakerView)
    ensures
        all_are_measured(m) == m.all_expected_measured(),
{
    if m.all_expected_measured() {
        assert forall|s: SlotId| #[trigger] m.expected.contains(s) && !m.departures.contains_key(s) implies m.slots.contains_key(
            s,
        ) && m.slots[s].rtt() > 0 by {}
    }
    if all_are_measured(m) {
        assert forall|s: SlotId| #[trigger] m.expected.contains(s) implies m.departures.contains_key(s)
            || (m.slots.contains_key(s) && m.slots[s].rtt() > 0) by {}
    }
}

/// Whether `turns` is the least number of turns that covers the latency hint.
pub open spec fn just_covers_the_hint(m: MakerView, turns: int) -> bool {
    &&& m.latency_hint_ms is Some
    &&& turns * m.law.turn_duration_us >= m.latency_hint_ms->0 * 1000
    &&& (turns - 1) * m.law.turn_duration_us < m.latency_hint_ms->0 * 1000
}

proof fn lemma_hint(m: MakerView, turns: int)
    requires
        m.law.turn_duration_us > 0,
        just_covers_the_hint(m, turns),
        turns <= u32::MAX,
    ensures
        m.latency_hint_turns() == Some(turns as u32),
        turns >= 0,
{
    let us = m.latency_hint_ms->0 * 1000;
    let turn = m.law.turn_duration_us as int;
    let up = (us + turn - 1) / turn;
    vstd::arithmetic::div_mod::lemma_fundamental_div_mod(us + turn - 1, turn);
    vstd::arithmetic::div_mod::lemma_mod_bound(us + turn - 1, turn);
    assert(up == turns) by (nonlinear_arith)
        requires
            us + turn - 1 == turn * up + (us + turn - 1) % turn,
            0 <= (us + turn - 1) % turn < turn,
            turns * turn >= us,
            (turns - 1) * turn < us,
            turn > 0,
    ;
    assert(turns >= 0) by (nonlinear_arith)
        requires
            turns * turn >= us,
            us >= 0,
            turn > 0,
    ;
}

/// What a session starts at while the latency hint still counts, that is while not every
/// expected slot is measured or more than one relay serves it: the larger of the hint in
/// whole turns and the observed target, and one turn more across relays, brought into range.
pub proof fn law_the_hint_holds_the_starting_depth_up(m: MakerView, now: Instant, hint: int)
    requires
        m.starts(),
        m.law.turn_duration_us > 0,
        !m.single_relay || !all_are_measured(m),
        just_covers_the_hint(m, hint),
        hint < u32::MAX,
        m.target_inputs() is Some ==> (m.target_inputs()->0).target < u32::MAX,
    ensures
        ({
            let start = m.maybe_start(now);
            let across = if m.single_relay { 0int } else { 1 };
            &&& start.initial_buffer_turns == Some(start.buffer)
            &&& m.target_inputs() is None ==> brought_in(m, hint + across, start.buffer as int)
            &&& m.target_inputs() is Some && (m.target_inputs()->0).target <= hint ==> brought_in(
                m,
                hint + across,
                start.buffer as int,
            )
            &&& m.target_inputs() is Some && (m.target_inputs()->0).target >= hint ==> brought_in(
                m,
                (m.target_inputs()->0).target + across,
                start.buffer as int,
            )
        }),
{
    lemma_hint(m, hint);
    lemma_all_measured(m);
    lemma_brought_in(m, m.wanted_depth());
}

/// The starting depth is below the hint only where the bounds or the game's ceiling say so,
/// and likewise below the observed target.
pub proof fn law_the_starting_depth_is_not_below_the_hint(m: MakerView, now: Instant, hint: int)
    requires
        m.starts(),
        m.law.turn_duration_us > 0,
        !m.single_relay || !all_are_measured(m),
        just_covers_the_hint(m, hint),
        hint <= u32::MAX,
    ensures
        ({
            let depth = m.maybe_start(now).buffer;
            &&& depth >= hint || depth == m.bounds.max || depth == GAME_SYNC_SAFE_BUFFER_MAX
            &&& m.target_inputs() is Some ==> depth >= (m.target_inputs()->0).target || depth == m.bounds.max || depth
                == GAME_SYNC_SAFE_BUFFER_MAX
        }),
{
    lemma_hint(m, hint);
    lemma_all_measured(m);
    lemma_brought_in(m, m.wanted_depth());
}

/// With every expected slot measured at a single relay the hint counts for nothing: the
/// session starts at the observed target, or at the lower bound where nothing is observed.
pub proof fn law_a_measured_session_starts_at_its_target(m: MakerView, now: Instant)
    requires
        m.starts(),
        m.single_relay,
        all_are_measured(m),
    ensures
        m.target_inputs() is Some ==> brought_in(
            m,
            (m.target_inputs()->0).target as int,
            m.maybe_start(now).buffer as int,
        ),
        m.target_inputs() is None ==> brought_in(m, m.bounds.min as int, m.maybe_start(now).buffer as int),
{
    lemma_all_measured(m);
    lemma_brought_in(m, m.wanted_depth());
}

/// Without a hint an unmeasured session starts at the observed target, one turn more across
/// relays, or at the lower bound where nothing is observed.
pub proof fn law_without_a_hint_the_target_counts(m: MakerView, now: Instant)
    requires
        m.starts(),
        m.latency_hint_ms is None || m.law.turn_duration_us == 0,
        !m.single_relay || !all_are_measured(m),
        m.target_inputs() is Some ==> (m.target_inputs()->0).target < u32::MAX,
    ensures
        m.target_inputs() is Some ==> brought_in(
            m,
            (m.target_inputs()->0).target + if m.single_relay { 0int } else { 1 },
            m.maybe_start(now).buffer as int,
        ),
        m.target_inputs() is None ==> brought_in(m, m.bounds.min as int, m.maybe_start(now).buffer as int),
{
    lemma_all_measured(m);
    lemma_brought_in(m, m.wanted_depth());
}

/// A session starts exactly where this relay is its authority, it has not started yet, and
/// every expected slot, of which there is one at least, is live.
pub proof fn law_a_session_starts_once_all_are_live(m: MakerView, now: Instant)
    ensures
        !m.started ==> (m.maybe_start(now).started <==> {
            &&& m.authority == Authority::SelfRelay
            &&& exists|s: SlotId| m.expected.contains(s)
            &&& forall|s: SlotId| #[trigger] m.expected.contains(s) ==> m.live.contains(s)
        }),
        m.started ==> m.maybe_start(now) == m,
        !m.started && m.maybe_start(now).started ==> m.maybe_start(now).started_at == Some(
            if m.started_at is Some { m.started_at->0 } else { now },
        ),
        !m.maybe_start(now).started ==> m.maybe_start(now) == m,
{
    if exists|s: SlotId| m.expected.contains(s) {
        let s = choose|s: SlotId| m.expected.contains(s);
        assert(!(m.expected =~= Set::empty()));
    } else {
        assert(m.expected =~= Set::empty());
    }
}

} // verus!
