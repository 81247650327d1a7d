//! Laws of what a relay takes over, gives up and winds up: undecided departures, abandoned
//! sessions, and the order in which reports are worked off.
use crate::ids::SessionKeyView;
use crate::ids::SlotId;
use crate::maker::leave::FinalizeOutcome;
use crate::maker::MakerView;
use crate::registry::RegistryView;
use crate::slot::CounterUpdate;
use crate::slot::SlotView;
use crate::sync::turns::SyncTurn;
use crate::time::Instant;
use crate::wire::Authority;
use crate::wire::LeaveDirective;
use vstd::prelude::*;

verus! {

/// Whether a departure is still open: on record, and no leave decided for it.
pub open spec fn is_open(m: MakerView, slot: SlotId) -> bool {
    m.departures.contains_key(slot) && !m.decided_leaves.contains_key(slot)
}

/// The open departures are listed each once, in ascending order, with the reason on record.
pub proof fn law_open_departures_are_listed(m: MakerView, slot: SlotId)
    ensures
        ({
            let open = m.with_reasons(m.undecided());
            &&& is_open(m, slot) <==> exists|i: int| 0 <= i < open.len() && (#[trigger] open[i]).0 == slot
            &&& forall|i: int| 0 <= i < open.len() ==> (#[trigger] open[i]).1 == m.departures[open[i].0].reason
            &&& forall|i: int, j: int| 0 <= i < j < open.len() ==> (#[trigger] open[i]).0.0 < (#[trigger] open[j]).0.0
        }),
{
    lemma_listed(m, m.undecided(), slot);
}

proof fn lemma_listed(m: MakerView, slots: Set<SlotId>, slot: SlotId)
    ensures
        ({
            let open = m.with_reasons(slots);
            &&& slots.contains(slot) <==> exists|i: int| 0 <= i < open.len() && (#[trigger] open[i]).0 == slot
            &&& forall|i: int| 0 <= i < open.len() ==> (#[trigger] open[i]).1 == m.departures[open[i].0].reason
            &&& forall|i: int| 0 <= i < open.len() ==> slots.contains((#[trigger] open[i]).0)
            &&& forall|i: int, j: int| 0 <= i < j < open.len() ==> (#[trigger] open[i]).0.0 < (#[trigger] open[j]).0.0
        }),
{
    crate::laws::phase::lemma_slots_are_finite(slots);
    crate::ordmap::lemma_listing_exists(slots);
    let keys = crate::ordmap::listing(slots);
    let open = m.with_reasons(slots);
    assert(open.len() == keys.len());
    assert forall|i: int| 0 <= i < open.len() implies slots.contains((#[trigger] open[i]).0) by {
        assert(keys.contains(keys[i]));
    }
    if slots.contains(slot) {
        assert(keys.contains(slot));
        let i = choose|i: int| 0 <= i < keys.len() && keys[i] == slot;
        assert(open[i].0 == slot);
    }
    assert forall|i: int, j: int| 0 <= i < j < open.len() implies (#[trigger] open[i]).0.0 < (#[trigger] open[j]).0.0 by {
        assert(keys[i].0 < keys[j].0);
    }
}

proof fn lemma_others_stay_open(m: MakerView, slots: Seq<(SlotId, u32)>, n: int, now: Instant, slot: SlotId)
    requires
        0 <= n <= slots.len(),
        forall|i: int| 0 <= i < n ==> (#[trigger] slots[i]).0 != slot,
    ensures
        m.decide_leaves(slots, n, now).0.decided_leaves.contains_key(slot) == m.decided_leaves.contains_key(slot),
        m.decide_leaves(slots, n, now).0.departures.contains_key(slot) == m.departures.contains_key(slot),
        m.departures.contains_key(slot) ==> m.decide_leaves(slots, n, now).0.departures[slot] == m.departures[slot],
    decreases n,
{
    if n > 0 {
        lemma_others_stay_open(m, slots, n - 1, now, slot);
        assert(slots[n - 1].0 != slot);
    }
}

/// A departure that is held open stays open across a takeover, and keeps what is on record
/// of it.
pub proof fn law_a_held_departure_stays_open(m: MakerView, held: Set<SlotId>, now: Instant, slot: SlotId)
    requires
        is_open(m, slot),
        held.contains(slot),
    ensures
        is_open(m.set_authority(Authority::SelfRelay, held, now), slot),
        m.set_authority(Authority::SelfRelay, held, now).departures[slot] == m.departures[slot],
{
    let handed = m.handoff(held);
    lemma_listed(m, m.undecided().difference(held), slot);
    assert forall|i: int| 0 <= i < handed.len() implies (#[trigger] handed[i]).0 != slot by {
        assert(m.undecided().difference(held).contains(handed[i].0));
    }
    lemma_others_stay_open(m.reseated(Authority::SelfRelay), handed, handed.len() as int, now, slot);
}

/// A takeover decides an open departure that is not held exactly where it can be scheduled:
/// where a frame of its own, or of any slot present, is known.
pub proof fn law_a_takeover_decides_what_can_be_scheduled(m: MakerView, held: Set<SlotId>, now: Instant, slot: SlotId)
    requires
        crate::laws::session::sound(m),
        m.authority == Authority::Peer,
        is_open(m, slot),
        !held.contains(slot),
    ensures
        m.set_authority(Authority::SelfRelay, held, now).decided_leaves.contains_key(slot) <==> m.departures[slot].last_frame is Some
            || exists|s: SlotId| #[trigger] m.slots.contains_key(s) && m.slots[s].frame is Some,
        m.set_authority(Authority::SelfRelay, held, now).authority == Authority::SelfRelay,
{
    crate::laws::departure::law_promotion_decides_each_once(m, held, now);
    assert(m.set_authority(Authority::SelfRelay, held, now).decided_leaves.dom().contains(slot)
        <==> crate::laws::departure::handed_over(m, held).contains(slot));
    law_what_can_be_scheduled(m, slot);
    lemma_authority_stands(m.reseated(Authority::SelfRelay), m.handoff(held), m.handoff(held).len() as int, now);
}

proof fn lemma_authority_stands(m: MakerView, slots: Seq<(SlotId, u32)>, n: int, now: Instant)
    ensures
        m.decide_leaves(slots, n, now).0.authority == m.authority,
    decreases n,
{
    if n > 0 {
        lemma_authority_stands(m, slots, n - 1, now);
    }
}

/// A leave can be scheduled where the departed slot's last frame is on record or any slot
/// present has announced one.
pub proof fn law_what_can_be_scheduled(m: MakerView, slot: SlotId)
    ensures
        m.leave_schedulable(slot) <==> (m.departures.contains_key(slot) && m.departures[slot].last_frame is Some) || exists|
            s: SlotId,
        | #[trigger] m.slots.contains_key(s) && m.slots[s].frame is Some,
{
    crate::laws::buffer::law_session_frame_is_the_earliest(m);
    if m.session_frame() is Some {
        let s = choose|s: SlotId| #[trigger] m.slots.contains_key(s) && m.slots[s].frame == m.session_frame();
        assert(m.slots.contains_key(s) && m.slots[s].frame is Some);
    }
}

proof fn lemma_forced(m: MakerView, slots: Seq<(SlotId, u32)>, n: int, now: Instant)
    requires
        0 <= n <= slots.len(),
    ensures
        ({
            let next = m.force_decide_leaves(slots, n, now).0;
            &&& forall|i: int| 0 <= i < n ==> next.decided_leaves.contains_key((#[trigger] slots[i]).0)
            &&& forall|s: SlotId| #[trigger] m.decided_leaves.contains_key(s) ==> next.decided_leaves.contains_key(s)
                && next.decided_leaves[s] == m.decided_leaves[s]
            &&& forall|s: SlotId| #[trigger]
                next.departures.contains_key(s) ==> m.departures.contains_key(s) || exists|i: int|
                    0 <= i < n && (#[trigger] slots[i]).0 == s
        }),
    decreases n,
{
    if n > 0 {
        lemma_forced(m, slots, n - 1, now);
        let before = m.force_decide_leaves(slots, n - 1, now).0;
        let next = m.force_decide_leaves(slots, n, now).0;
        let (slot, reason) = slots[n - 1];
        assert(next == before.force_decide_leave(slot, reason, now));
        assert(next.decided_leaves.contains_key(slots[n - 1].0));
    }
}

/// A session that is abandoned is left with nothing open: every departure is decided, and
/// what was decided before stands.
pub proof fn law_an_abandoned_session_has_nothing_open(a: RegistryView, key: SessionKeyView, now: Instant, slot: SlotId)
    requires
        a.makers.contains_key(key),
    ensures
        ({
            let m = a.makers[key];
            let next = a.decide_abandoned_departures(key, now).makers[key];
            &&& m.departures.contains_key(slot) ==> next.decided_leaves.contains_key(slot)
            &&& m.decided_leaves.contains_key(slot) ==> next.decided_leaves.contains_key(slot)
                && next.decided_leaves[slot] == m.decided_leaves[slot]
            &&& !is_open(next, slot)
        }),
{
    let m = a.makers[key];
    let slots = m.with_reasons(m.undecided());
    let (forced, decided) = m.force_decide_leaves(slots, slots.len() as int, now);
    lemma_forced(m, slots, slots.len() as int, now);
    law_open_departures_are_listed(m, slot);
    lemma_announcing_keeps(a.with_maker(key, forced), key, decided, decided.len() as int);
    if m.departures.contains_key(slot) && !m.decided_leaves.contains_key(slot) {
        let i = choose|i: int| 0 <= i < slots.len() && (#[trigger] slots[i]).0 == slot;
        assert(forced.decided_leaves.contains_key(slots[i].0));
    }
    if forced.departures.contains_key(slot) && !m.departures.contains_key(slot) {
        let i = choose|i: int| 0 <= i < slots.len() && (#[trigger] slots[i]).0 == slot;
        assert(forced.decided_leaves.contains_key(slots[i].0));
    }
}

proof fn lemma_announcing_keeps(a: RegistryView, key: SessionKeyView, leaves: Seq<LeaveDirective>, n: int)
    ensures
        a.announcing_all(key, leaves, n).makers == a.makers,
    decreases n,
{
    if n > 0 {
        lemma_announcing_keeps(a, key, leaves, n - 1);
    }
}

/// Once a turn is taken in and no split is found, no turn of its sender that could be worked
/// off is still kept.
pub proof fn law_ready_turns_are_worked_off(m: MakerView, slot: SlotId, seq: u64, turn: SyncTurn)
    requires
        !m.observers.contains(slot),
        m.origin(slot).failure is None,
        m.observe_sync(slot, seq, turn).1 is None,
    ensures
        ({
            let left = m.observe_sync(slot, seq, turn).0.origin(slot);
            left.failure is Some || !left.pending.contains_key(left.next)
        }),
{
    let pushed = m.with_origin(slot, m.origin(slot).push(seq, turn));
    match m.origin(slot).pushed(seq, turn) {
        Ok(None) => {
            lemma_worked_off(pushed, slot);
        },
        Err(_) => {},
        Ok(Some(read)) => {
            lemma_worked_off(pushed.compare_sync_turn(slot, read).0, slot);
        },
    }
}

proof fn lemma_worked_off(m: MakerView, slot: SlotId)
    requires
        m.drain_sync(slot).1 is None,
    ensures
        ({
            let left = m.drain_sync(slot).0.origin(slot);
            left.failure is Some || !left.pending.contains_key(left.next)
        }),
    decreases u64::MAX - m.origin(slot).next,
{
    let (next, verdict) = m.sync_step(slot);
    if m.sync_continues(slot) && verdict is None {
        lemma_worked_off(next, slot);
    }
}

/// An observer's turns are not followed, nor those of an origin that failed.
pub proof fn law_observers_turns_are_not_followed(m: MakerView, slot: SlotId, seq: u64, turn: SyncTurn)
    requires
        m.observers.contains(slot) || (m.sync_turns.contains_key(slot) && m.sync_turns[slot].failure is Some),
    ensures
        m.observe_sync(slot, seq, turn).0 == m,
        m.observe_sync(slot, seq, turn).1 is None,
{
}

/// A departing connection speaks for its slot where it is the slot's own, or where neither
/// is named.
pub proof fn law_a_connection_speaks_for_its_own_slot(m: MakerView, slot: SlotId, epoch: Option<u64>)
    ensures
        m.connection_epoch_matches(slot, epoch) <==> if m.connections.contains_key(slot) {
            epoch is Some && (m.connections[slot] == crate::slot::ConnectionState::Up(epoch->0) || m.connections[slot]
                == crate::slot::ConnectionState::Down(epoch->0))
        } else {
            epoch is None
        },
{
}

/// A departure is undone only while it is open; then the slot is present again and nothing
/// else has moved.
pub proof fn law_only_an_open_departure_is_undone(m: MakerView, slot: SlotId, now: Instant, other: SlotId)
    ensures
        m.reinstatable(slot) <==> is_open(m, slot),
        !is_open(m, slot) ==> m.reinstate_slot(slot, now) == m,
        is_open(m, slot) ==> {
            let next = m.reinstate_slot(slot, now);
            &&& !next.departures.contains_key(slot)
            &&& next.slots.contains_key(slot)
            &&& next.slots[slot].connection_up_at == Some(now)
            &&& other != slot ==> (next.departures.contains_key(other) <==> m.departures.contains_key(other))
            &&& other != slot ==> next.live_state(other) == m.live_state(other)
            &&& next.live == m.live && next.sync == m.sync && next.decided_leaves == m.decided_leaves
        },
{
}

/// A session counts as many slots as are live or expected, whichever is more.
pub proof fn law_a_session_counts_its_slots(m: MakerView)
    ensures
        m.session_slot_count() >= m.live.len(),
        m.session_slot_count() >= m.expected.len(),
        m.session_slot_count() == m.live.len() || m.session_slot_count() == m.expected.len(),
{
}

/// A start is latched under the first time it was known, and stays.
pub proof fn law_the_first_start_is_latched(m: MakerView, now: Instant, later: Instant, now_ms: u64)
    ensures
        m.latch_started(now).started,
        m.latch_started(now).started_at == if m.started_at is Some { m.started_at } else { Some(now) },
        m.latch_started(now).latch_started(later) == m.latch_started(now),
        m.note_started_at_ms(now_ms).started_at_ms == if m.started_at_ms is Some { m.started_at_ms } else { Some(now_ms) },
        m.latch_started(now).buffer == m.buffer && m.latch_started(now).live == m.live,
{
}

/// The hint in whole turns is the least number of turns that covers it; without a hint, or
/// with turns of no length, there is none.
pub proof fn law_the_hint_is_rounded_up(m: MakerView)
    ensures
        m.latency_hint_ms is None || m.law.turn_duration_us == 0 ==> m.latency_hint_turns() is None,
        m.latency_hint_ms is Some && m.law.turn_duration_us > 0 ==> m.latency_hint_turns() is Some,
        m.latency_hint_ms is Some && m.law.turn_duration_us > 0 && m.latency_hint_turns()->0 < u32::MAX
            ==> crate::laws::start::just_covers_the_hint(m, m.latency_hint_turns()->0 as int),
{
    if m.latency_hint_ms is Some && m.law.turn_duration_us > 0 {
        let us = m.latency_hint_ms->0 * 1000;
        let turn = m.law.turn_duration_us as int;
        let up = (us + turn - 1) / turn;
        vstd::arithmetic::div_mod::lemma_fundamental_div_mod(us + turn - 1, turn);
        vstd::arithmetic::div_mod::lemma_mod_bound(us + turn - 1, turn);
        assert(up * turn >= us && (up - 1) * turn < us && up >= 0) by (nonlinear_arith)
            requires
                us + turn - 1 == turn * up + (us + turn - 1) % turn,
                0 <= (us + turn - 1) % turn < turn,
                turn > 0,
                us >= 0,
        ;
    }
}

/// What a finalization answers: the count it read, or that there is none.
pub proof fn law_a_finalization_answers_its_count(count: Option<u64>)
    ensures
        count is Some ==> crate::maker::leave::finish_outcome(count) == (FinalizeOutcome::Finalized {
            final_turn_count: count->0,
        }),
        count is None ==> crate::maker::leave::finish_outcome(count) == FinalizeOutcome::RejectedNoCursor,
{
}

/// What a sample's counters amount to: the first sets where they stand; one that goes back is
/// stale; one with nothing more sent tells of late losses or of nothing; one with more sent
/// is an outage where a second or more passed since the last, and flowing otherwise.
pub proof fn law_what_a_sample_amounts_to(s: SlotView, lost: u64, sent: u64, now: Instant)
    ensures
        ({
            let told = s.counter_update(lost, sent, now);
            let back = s.seen && (sent < s.curr_sent || lost < s.curr_lost);
            let level = s.seen && !back && sent == s.curr_sent;
            &&& told == CounterUpdate::Baseline <==> !s.seen
            &&& told == CounterUpdate::Stale <==> back
            &&& told == CounterUpdate::LossAdvanced <==> level && lost > s.curr_lost
            &&& told == CounterUpdate::NonAdvancing <==> level && lost == s.curr_lost
            &&& told == CounterUpdate::OutageRebaselined <==> crate::laws::counters::resumes(s, lost, sent, now)
            &&& told == CounterUpdate::Advanced <==> crate::laws::counters::flows(s, lost, sent, now)
        }),
{
}

/// A slot that connects or starts is told of with its names and the time, and, where it
/// starts, with the session's frame and its own.
pub proof fn law_a_slots_coming_is_told(a: RegistryView, key: SessionKeyView, slot: SlotId, resumed: bool, now_ms: u64)
    ensures
        ({
            let connected = a.slot_connected_notice(key, slot, resumed, now_ms);
            let started = a.slot_started_notice(key, slot, now_ms);
            &&& connected.tenant == key.tenant && connected.session == key.session && connected.slot == slot
            &&& connected.resumed == resumed && connected.connected_at_ms == now_ms
            &&& connected.external_id == crate::laws::accounts::known_as(a, key)
            &&& connected.external_ref == crate::laws::accounts::slot_known_as(a, key, slot)
            &&& started.tenant == key.tenant && started.session == key.session && started.slot == slot
            &&& started.arrival_ms == now_ms
            &&& started.external_id == crate::laws::accounts::known_as(a, key)
            &&& started.external_ref == crate::laws::accounts::slot_known_as(a, key, slot)
            &&& a.makers.contains_key(key) ==> {
                let m = a.makers[key];
                &&& started.session_frame is Some <==> m.session_frame() is Some
                &&& m.session_frame() is Some ==> started.session_frame->0 == (m.session_frame()->0).0
                &&& started.slot_frame is Some <==> m.slots.contains_key(slot) && m.slots[slot].frame is Some
                &&& m.slots.contains_key(slot) && m.slots[slot].frame is Some ==> started.slot_frame->0 == (
                m.slots[slot].frame->0).0
            }
            &&& !a.makers.contains_key(key) ==> started.session_frame is None && started.slot_frame is None
        }),
{
}

/// Connecting and starting are each noted of the slot itself, and of no other session.
pub proof fn law_a_slots_coming_is_noted(a: RegistryView, key: SessionKeyView, slot: SlotId, other: SlotId)
    requires
        a.makers.contains_key(key),
    ensures
        a.noting_connected(key, slot).makers[key].connected.contains(other) <==> other == slot
            || a.makers[key].connected.contains(other),
        a.noting_started(key, slot).makers[key].started_slots.contains(other) <==> other == slot
            || a.makers[key].started_slots.contains(other),
        a.noting_started(key, slot).makers[key].peer_started == a.makers[key].peer_started,
        a.noting_connected(key, slot).makers[key].started_slots == a.makers[key].started_slots,
{
}

/// Arrivals tell of phases only once the session has started.
pub proof fn law_arrivals_count_from_the_start_on(m: MakerView, slot: SlotId, seq: u64, now: Instant)
    ensures
        !m.started ==> m.ingest_arrival_phase(slot, seq, now) == m,
        m.started ==> m.ingest_arrival_phase(slot, seq, now).phase == m.phase.note_arrival(slot, seq, now).evaluate(now),
        m.ingest_arrival_phase(slot, seq, now) == (MakerView {
            phase: m.ingest_arrival_phase(slot, seq, now).phase,
            ..m
        }),
{
}

/// Whether a leave heard of is new: it names a slot, and none was decided for that slot.
pub proof fn law_which_leaves_are_new(m: MakerView, leave: LeaveDirective)
    ensures
        m.leave_is_new(leave) <==> leave.slot < 256 && !m.decided_leaves.contains_key(SlotId(leave.slot as u8)),
{
}

/// A takeover sends the leaves decided before first, in ascending order of their slots, and
/// then those it decides itself; nothing is sent where nothing is taken over.
pub proof fn law_a_takeover_sends_the_decided_first(m: MakerView, authority: Authority, held: Set<SlotId>, now: Instant, i: int)
    ensures
        ({
            let sent = m.handoff_leaves(authority, held, now);
            let takes_over = m.authority == Authority::Peer && authority == Authority::SelfRelay;
            let decided = m.decided_leaves.dom().len();
            &&& !takes_over ==> sent.len() == 0 && m.fresh_leaves(authority, held, now).len() == 0
            &&& takes_over ==> sent.len() == decided + m.fresh_leaves(authority, held, now).len()
            &&& takes_over && 0 <= i < decided ==> exists|s: SlotId| #[trigger]
                m.decided_leaves.contains_key(s) && sent[i] == m.decided_leaves[s]
            &&& takes_over && 0 <= i < m.fresh_leaves(authority, held, now).len() ==> sent[decided + i]
                == m.fresh_leaves(authority, held, now)[i]
        }),
{
    let dom = m.decided_leaves.dom();
    crate::laws::phase::lemma_slots_are_finite(dom);
    crate::ordmap::lemma_listing_exists(dom);
    let keys = crate::ordmap::listing(dom);
    crate::ordmap::lemma_listed_len(keys, dom);
    if m.promotes(authority) && 0 <= i < keys.len() {
        assert(keys.contains(keys[i]));
        assert(m.decided_leaves.contains_key(keys[i]));
        assert(m.handoff_leaves(authority, held, now)[i] == m.decided_leaves[keys[i]]);
    }
}

/// Several leaves or conditions at once are the same as one after the other, in order; each
/// leave that this decides is given out.
pub proof fn law_batches_are_worked_off_in_order(
    m: MakerView,
    slots: Seq<(SlotId, u32)>,
    conditions: Seq<crate::wire::SlotConditions>,
    mesh_rtt_us: u32,
    now: Instant,
    n: int,
)
    requires
        0 <= n < slots.len(),
        0 <= n < conditions.len(),
    ensures
        m.decide_leaves(slots, 0, now).0 == m && m.decide_leaves(slots, 0, now).1.len() == 0,
        ({
            let (before, given) = m.decide_leaves(slots, n, now);
            let (next, out) = m.decide_leaves(slots, n + 1, now);
            &&& next == before.decide_leave(slots[n].0, slots[n].1, now)
            &&& before.leave_decision(slots[n].0, slots[n].1) is Some ==> out == given.push(
                before.leave_decision(slots[n].0, slots[n].1)->0,
            )
            &&& before.leave_decision(slots[n].0, slots[n].1) is None ==> out == given
        }),
        m.force_decide_leaves(slots, 0, now).0 == m && m.force_decide_leaves(slots, 0, now).1.len() == 0,
        ({
            let (before, given) = m.force_decide_leaves(slots, n, now);
            let (next, out) = m.force_decide_leaves(slots, n + 1, now);
            &&& next == before.force_decide_leave(slots[n].0, slots[n].1, now)
            &&& before.forced_decision(slots[n].0, slots[n].1) is Some ==> out == given.push(
                before.forced_decision(slots[n].0, slots[n].1)->0,
            )
            &&& before.forced_decision(slots[n].0, slots[n].1) is None ==> out == given
        }),
        m.ingest_upto(conditions, mesh_rtt_us, 0, now) == m,
        m.ingest_upto(conditions, mesh_rtt_us, n + 1, now) == m.ingest_upto(conditions, mesh_rtt_us, n, now).ingest_one(
            conditions[n],
            mesh_rtt_us,
            now,
        ),
        m.activate_upto(conditions, 0, now) == m,
        conditions[n].slot < 256 && conditions[n].connection_epoch is Some ==> m.activate_upto(conditions, n + 1, now)
            == m.activate_upto(conditions, n, now).activate_connection_epoch(
            SlotId(conditions[n].slot as u8),
            conditions[n].connection_epoch->0,
            now,
        ),
{
}

} // verus!
