//! Laws of departures, the leaves decided for them, and coming back.
use crate::ids::GameFrameCount;
use crate::ids::SlotId;
use crate::laws::session::Step;
use crate::maker::departure::StampsView;
use crate::maker::leave::FinalizeOutcome;
use crate::maker::MakerView;
use crate::ops::authority::SyncView;
use crate::slot::ReconnectAdmission;
use crate::time::Instant;
use crate::wire::Authority;
use crate::wire::DepartedSlot;
use crate::wire::DepartureKind;
use crate::wire::LeaveDirective;
use crate::wire::SlotConditions;
use crate::wire::LEAVE_REASON_DROPPED;
use vstd::prelude::*;

verus! {

/// Nothing a departed slot still has in flight brings it back: its turns, its conditions
/// and its presence count for nothing.
pub proof fn law_a_departed_slot_is_not_resurrected(
    m: MakerView,
    slot: SlotId,
    seq: u64,
    frame: GameFrameCount,
    c: SlotConditions,
    mesh_rtt_us: u32,
    now: Instant,
)
    requires
        m.departures.contains_key(slot),
        c.slot == slot.0,
    ensures
        m.observe_frame(slot, frame) == m,
        m.observe_turn_frame(slot, seq, frame) == m,
        m.ingest_one(c, mesh_rtt_us, now) == m,
        !m.present_slot_counts(slot),
        !m.up_admitted(slot, c.connection_epoch),
{
}

/// A departure keeps the first account of itself: what later accounts add is what was
/// missing, and the last frame only moves forward.
pub proof fn law_the_first_account_of_a_departure_stands(
    m: MakerView,
    slot: SlotId,
    stamps: StampsView,
    reason: u32,
    epoch: Option<u64>,
)
    requires
        m.departures.contains_key(slot),
    ensures
        ({
            let was = m.departures[slot];
            let next = m.note_departure(slot, stamps, reason, epoch).departures[slot];
            &&& next.reason == was.reason
            &&& was.result is Some ==> next.result == was.result
            &&& was.final_turn_count is Some ==> next.final_turn_count == was.final_turn_count
            &&& was.reachable_frame is Some ==> next.reachable_frame == was.reachable_frame
            &&& was.connection_epoch is Some ==> next.connection_epoch == was.connection_epoch
            &&& was.finalized ==> next.finalized
            &&& was.last_frame is Some ==> next.last_frame is Some && (next.last_frame->0).0 >= (was.last_frame->0).0
            &&& stamps.last_frame is Some ==> next.last_frame is Some && (next.last_frame->0).0
                >= (stamps.last_frame->0).0
        }),
{
}

/// Hearing of the same departure twice is hearing of it once.
pub proof fn law_departures_are_idempotent(
    m: MakerView,
    slot: SlotId,
    stamps: StampsView,
    reason: u32,
    other: u32,
    epoch: Option<u64>,
)
    ensures
        ({
            let once = m.note_departure(slot, stamps, reason, epoch);
            let twice = once.note_departure(slot, stamps, other, epoch);
            &&& twice.departures == once.departures
            &&& twice.slots == once.slots
            &&& twice.live == once.live
        }),
{
    let once = m.note_departure(slot, stamps, reason, epoch);
    let twice = once.note_departure(slot, stamps, other, epoch);
    assert(twice.departures[slot] =~= once.departures[slot]);
    assert(twice.departures =~= once.departures);
    assert(twice.slots =~= once.slots);
    assert(twice.live =~= once.live);
}

/// A departure undone gives back the slot's progress: its frame and turn history survive
/// the absence, and only what its link had taught is gone.
pub proof fn law_a_reinstated_slot_resumes(
    m: MakerView,
    slot: SlotId,
    stamps: StampsView,
    reason: u32,
    epoch: Option<u64>,
    now: Instant,
)
    requires
        m.slots.contains_key(slot),
        !m.departures.contains_key(slot),
        !m.decided_leaves.contains_key(slot),
    ensures
        ({
            let back = m.note_departure(slot, stamps, reason, epoch).reinstate_slot(slot, now);
            &&& back.departures == m.departures
            &&& back.slots.dom() == m.slots.dom()
            &&& back.slots[slot].frame == crate::ids::later_frame(m.slots[slot].frame, stamps.last_frame)
            &&& back.slots[slot].frame_history == m.slots[slot].frame_history
            &&& back.slots[slot].last_forward_advance_at == m.slots[slot].last_forward_advance_at
            &&& back.slots[slot].connection_up_at == Some(now)
            &&& back.slots[slot].rtts.len() == 0
            &&& forall|s: SlotId| s != slot ==> back.live_state(s) == m.live_state(s)
        }),
{
    let back = m.note_departure(slot, stamps, reason, epoch).reinstate_slot(slot, now);
    assert(back.departures =~= m.departures);
    assert(back.slots.dom() =~= m.slots.dom());
}

/// Tidying an observed leave twice is tidying it once, and a dropped player's turn count
/// survives only where finalization vouches for it.
pub proof fn law_unproven_counts_are_dropped(leave: LeaveDirective, enabled: bool)
    ensures
        ({
            let kept = crate::maker::departure::normalized_leave(leave, enabled);
            &&& crate::maker::departure::normalized_leave(kept, enabled) == kept
            &&& kept.reason == LEAVE_REASON_DROPPED && kept.final_turn_count is Some ==> kept.finalized && enabled
            &&& leave.reason != LEAVE_REASON_DROPPED ==> kept == leave
            &&& kept.slot == leave.slot && kept.reason == leave.reason && kept.leave_seq == leave.leave_seq
                && kept.apply_at_frame == leave.apply_at_frame
        }),
{
}

/// The authority decides a departed slot's leave as soon as it can be scheduled, and only
/// then; forced, it decides regardless. Nobody else decides.
pub proof fn law_leaves_are_decided_once_schedulable(m: MakerView, slot: SlotId, reason: u32)
    requires
        !m.decided_leaves.contains_key(slot),
    ensures
        m.leave_decision(slot, reason) is Some <==> m.is_authority() && m.departing(slot, reason).leave_schedulable(slot),
        m.forced_decision(slot, reason) is Some,
        m.leave_decision(slot, reason) is Some ==> m.forced_decision(slot, reason) == m.leave_decision(slot, reason),
{
}

/// A leave applies on the turn after the last one every survivor can reach: right behind
/// the departed slot's last frame, and never past what the survivors were shown to reach.
pub proof fn law_a_leave_applies_within_reach(m: MakerView, slot: SlotId, reason: u32)
    requires
        m.committed(slot, reason) is Some,
        m.recorded_last(slot) is Some,
    ensures
        (m.committed(slot, reason)->0).apply_at_frame <= (m.recorded_last(slot)->0).saturating_add(1),
        m.departures[slot].reachable_frame is Some ==> (m.committed(slot, reason)->0).apply_at_frame
            <= (m.departures[slot].reachable_frame->0).saturating_add(1),
        m.departures[slot].reachable_frame is None ==> (m.committed(slot, reason)->0).apply_at_frame == (m.recorded_last(
            slot,
        )->0).saturating_add(1),
{
}

/// Each leave decided gets the next number.
pub proof fn law_leaves_are_numbered_in_order(m: MakerView, slot: SlotId, reason: u32, now: Instant)
    ensures
        m.leave_decision(slot, reason) is Some ==> {
            &&& (m.leave_decision(slot, reason)->0).leave_seq == m.next_leave_seq.saturating_add(1)
            &&& m.decide_leave(slot, reason, now).next_leave_seq == m.next_leave_seq.saturating_add(1)
            &&& m.decide_leave(slot, reason, now).decided_leaves == m.decided_leaves.insert(
                slot,
                m.leave_decision(slot, reason)->0,
            )
        },
        m.leave_decision(slot, reason) is None ==> {
            &&& m.decide_leave(slot, reason, now).next_leave_seq == m.next_leave_seq
            &&& m.decide_leave(slot, reason, now).decided_leaves == m.decided_leaves
        },
{
}

/// A promoted relay numbers its leaves above every one it observed.
pub proof fn law_leave_numbers_outrank_what_was_observed(m: MakerView, leave: LeaveDirective, now: Instant)
    requires
        leave.slot <= 255,
    ensures
        m.observe_leave(leave, now).next_leave_seq >= leave.leave_seq,
        m.observe_leave(leave, now).next_leave_seq >= m.next_leave_seq,
{
}

/// A slot being finalized is not let back in; without a turn count it may be again.
pub proof fn law_a_sealed_slot_is_not_readmitted(
    m: MakerView,
    slot: SlotId,
    requested: Option<u64>,
    epoch: Option<u64>,
    hold_pending: bool,
)
    requires
        m.seal_refusal(slot, requested) is None,
    ensures
        m.seal_for_finalize(slot, requested).reconnect_transition(slot, epoch, hold_pending).admission
            == ReconnectAdmission::Rejected,
        !m.finalizing.contains(slot) ==> m.seal_for_finalize(slot, requested).finish_finalize(slot, None) == m,
{
    let sealed = m.seal_for_finalize(slot, requested);
    if !m.finalizing.contains(slot) {
        assert(sealed.finish_finalize(slot, None).finalizing =~= m.finalizing);
    }
}

/// A live slot, or a departure of another connection generation, is never finalized.
pub proof fn law_live_slots_are_not_finalized(m: MakerView, slot: SlotId, requested: Option<u64>)
    requires
        !m.decided_leaves.contains_key(slot),
        m.connection_is_up(slot) || m.departure_epoch(slot) != requested,
    ensures
        m.seal_refusal(slot, requested) == Some(FinalizeOutcome::RejectedLive),
        m.seal_for_finalize(slot, requested) == m,
{
}

/// A finalized drop carries its complete turn count into the leave that is decided for it.
pub proof fn law_a_finalized_drop_carries_its_count(m: MakerView, slot: SlotId, requested: Option<u64>, count: u64, now: Instant)
    requires
        m.seal_refusal(slot, requested) is None,
        m.departures.contains_key(slot) ==> m.departures[slot].final_turn_count is None,
        m.is_authority(),
    ensures
        ({
            let done = m.seal_for_finalize(slot, requested).finish_finalize(slot, Some(count));
            let leave = done.forced_decision(slot, LEAVE_REASON_DROPPED);
            &&& leave is Some
            &&& (leave->0).finalized
            &&& (leave->0).final_turn_count == Some(count)
            &&& done.force_decide_leave(slot, LEAVE_REASON_DROPPED, now).seal_refusal(slot, requested) == Some(
                FinalizeOutcome::Finalized { final_turn_count: count },
            )
        }),
{
}

/// A slot seeded as gone is decided at once and once only, and a drop's turn count is kept
/// only where it was finalized.
pub proof fn law_seeded_departures_are_decided(
    m: MakerView,
    slot: SlotId,
    kind: DepartureKind,
    count: Option<u64>,
    finalized: bool,
    now: Instant,
)
    ensures
        m.seed_departed(slot, kind, count, finalized, now).decided_leaves.contains_key(slot),
        m.seed_departed(slot, kind, count, finalized, now).departures.contains_key(slot),
        m.decided_leaves.contains_key(slot) ==> m.seed_directive(slot, kind, count, finalized) is None,
        m.seed_directive(slot, kind, count, finalized) is Some && kind == DepartureKind::Dropped && !finalized ==> (
        m.seed_directive(slot, kind, count, finalized)->0).final_turn_count is None,
{
}

/// A player evicted for silence is not let back in, whatever happens.
pub proof fn law_an_evicted_slot_stays_out(
    m: MakerView,
    steps: Seq<Step>,
    slot: SlotId,
    epoch: Option<u64>,
    hold_pending: bool,
)
    requires
        crate::laws::session::sound(m),
        m.silence_evicted.contains(slot),
    ensures
        crate::laws::session::after_all(m, steps).reconnect_transition(slot, epoch, hold_pending).admission
            == ReconnectAdmission::Rejected,
{
    crate::laws::session::law_sessions_stay_sound(m, steps);
}

/// A refused reconnect changes nothing; an accepted one ends with the slot live, not
/// departed, and the hold spent.
pub proof fn law_reconnects_are_all_or_nothing(m: MakerView, slot: SlotId, epoch: Option<u64>, hold_pending: bool, now: Instant)
    ensures
        m.reconnect_transition(slot, epoch, hold_pending).admission == ReconnectAdmission::Rejected ==> m.resolve_reconnect(
            slot,
            epoch,
            hold_pending,
            now,
        ) == m,
        m.reconnect_transition(slot, epoch, hold_pending).admission != ReconnectAdmission::Rejected ==> {
            &&& !m.resolve_reconnect(slot, epoch, hold_pending, now).departures.contains_key(slot)
            &&& m.departures.contains_key(slot) ==> m.resolve_reconnect(slot, epoch, hold_pending, now).slots.contains_key(
                slot,
            )
            &&& epoch is Some ==> m.resolve_reconnect(slot, epoch, hold_pending, now).connection_is_up(slot)
            &&& m.reconnect_transition(slot, epoch, hold_pending).consume_hold == hold_pending
        },
{
}

/// A promoted relay sends every leave already decided again, as it was.
pub proof fn law_promotion_resends_every_leave(m: MakerView, held: Set<SlotId>, now: Instant, slot: SlotId)
    requires
        m.promotes(Authority::SelfRelay),
        m.decided_leaves.contains_key(slot),
    ensures
        m.handoff_leaves(Authority::SelfRelay, held, now).contains(m.decided_leaves[slot]),
        m.set_authority(Authority::SelfRelay, held, now).decided_leaves.contains_key(slot),
        m.set_authority(Authority::SelfRelay, held, now).decided_leaves[slot] == m.decided_leaves[slot],
{
    let dom = m.decided_leaves.dom();
    crate::laws::phase::lemma_slots_are_finite(dom);
    crate::ordmap::lemma_listing_exists(dom);
    let keys = crate::ordmap::listing(dom);
    assert(dom.contains(slot));
    let i = choose|i: int| 0 <= i < keys.len() && keys[i] == slot;
    let resent = keys.map_values(|s: SlotId| m.decided_leaves[s]);
    assert(resent[i] == m.decided_leaves[slot]);
    let all = m.handoff_leaves(Authority::SelfRelay, held, now);
    assert(all == resent + m.fresh_leaves(Authority::SelfRelay, held, now));
    assert(all[i] == m.decided_leaves[slot]);
    let handed = m.handoff(held);
    lemma_decide_leaves_keep(m.reseated(Authority::SelfRelay), handed, handed.len() as int, now, slot);
}

proof fn lemma_decide_leaves_keep(m: MakerView, handed: Seq<(SlotId, u32)>, n: int, now: Instant, slot: SlotId)
    requires
        m.decided_leaves.contains_key(slot),
    ensures
        m.decide_leaves(handed, n, now).0.decided_leaves.contains_key(slot),
        m.decide_leaves(handed, n, now).0.decided_leaves[slot] == m.decided_leaves[slot],
    decreases n,
{
    if n > 0 {
        lemma_decide_leaves_keep(m, handed, n - 1, now, slot);
    }
}

/// Whether `b` schedules leaves as `a` does.
spec fn schedules_alike(a: MakerView, b: MakerView) -> bool {
    &&& b.slots == a.slots
    &&& b.authority == a.authority
    &&& b.departures.dom() == a.departures.dom()
    &&& forall|s: SlotId| #[trigger]
        a.departures.contains_key(s) ==> b.departures[s].last_frame == a.departures[s].last_frame
}

proof fn lemma_decide_leave_alike(m: MakerView, slot: SlotId, reason: u32, now: Instant)
    requires
        m.departures.contains_key(slot),
        !m.slots.contains_key(slot),
    ensures
        schedules_alike(m, m.decide_leave(slot, reason, now)),
{
    let next = m.decide_leave(slot, reason, now);
    assert(next.slots =~= m.slots);
    assert(next.departures.dom() =~= m.departures.dom());
}

proof fn lemma_decide_leaves_reach(m: MakerView, handed: Seq<(SlotId, u32)>, n: int, now: Instant)
    requires
        m.is_authority(),
        0 <= n <= handed.len(),
        forall|s: SlotId| #[trigger] m.departures.contains_key(s) ==> !m.slots.contains_key(s),
        forall|i: int| 0 <= i < handed.len() ==> m.departures.contains_key((#[trigger] handed[i]).0),
    ensures
        schedules_alike(m, m.decide_leaves(handed, n, now).0),
        forall|i: int|
            0 <= i < n && m.leave_schedulable((#[trigger] handed[i]).0) ==> m.decide_leaves(
                handed,
                n,
                now,
            ).0.decided_leaves.contains_key(handed[i].0),
    decreases n,
{
    if n > 0 {
        lemma_decide_leaves_reach(m, handed, n - 1, now);
        let before = m.decide_leaves(handed, n - 1, now).0;
        let (slot, reason) = handed[n - 1];
        assert(m.departures.contains_key(handed[n - 1].0));
        assert(before.departures.dom().contains(slot));
        lemma_decide_leave_alike(before, slot, reason, now);
        let next = before.decide_leave(slot, reason, now);
        let departed = before.departing(slot, reason);
        assert(departed.slots =~= before.slots);
        if m.leave_schedulable(slot) {
            assert(before.recorded_last(slot) == m.recorded_last(slot));
            assert(departed.recorded_last(slot) == before.recorded_last(slot));
            assert(departed.leave_schedulable(slot));
            assert(next.decided_leaves.contains_key(slot));
        }
        assert forall|s: SlotId| #[trigger] m.departures.contains_key(s) implies next.departures[s].last_frame
            == m.departures[s].last_frame by {
            assert(before.departures.dom().contains(s));
        }
    }
}

/// The slots that a promotion decides: departed, undecided, kept open by no drop hold, and
/// schedulable.
pub open spec fn handed_over(m: MakerView, held: Set<SlotId>) -> Set<SlotId> {
    m.undecided().difference(held).filter(|s: SlotId| m.leave_schedulable(s))
}

proof fn lemma_decide_one(m: MakerView, slot: SlotId, reason: u32, now: Instant)
    requires
        m.is_authority(),
        m.departures.contains_key(slot),
        !m.slots.contains_key(slot),
        !m.decided_leaves.contains_key(slot),
    ensures
        m.leave_decision(slot, reason) is Some <==> m.leave_schedulable(slot),
        m.leave_decision(slot, reason) is Some ==> (m.leave_decision(slot, reason)->0).slot == slot.0,
        m.leave_decision(slot, reason) is Some ==> m.decide_leave(slot, reason, now).decided_leaves
            == m.decided_leaves.insert(slot, m.leave_decision(slot, reason)->0),
        m.leave_decision(slot, reason) is None ==> m.decide_leave(slot, reason, now).decided_leaves == m.decided_leaves,
{
    let departed = m.departing(slot, reason);
    assert(departed.slots =~= m.slots);
    assert(departed.recorded_last(slot) == m.recorded_last(slot));
    assert(departed.leave_schedulable(slot) == m.leave_schedulable(slot));
}

/// Whether `out` and `next` are what deciding the first `n` of `handed` comes to.
spec fn drained(m: MakerView, handed: Seq<(SlotId, u32)>, n: int, next: MakerView, out: Seq<LeaveDirective>) -> bool {
    &&& forall|s: SlotId| #[trigger] m.decided_leaves.contains_key(s) ==> next.decided_leaves.contains_key(s)
        && next.decided_leaves[s] == m.decided_leaves[s]
    &&& forall|s: SlotId| #[trigger]
        next.decided_leaves.contains_key(s) ==> m.decided_leaves.contains_key(s) || (m.leave_schedulable(s)
            && exists|i: int| 0 <= i < n && (#[trigger] handed[i]).0 == s)
    &&& forall|i: int|
        0 <= i < n && m.leave_schedulable((#[trigger] handed[i]).0) ==> exists|k: int|
            0 <= k < out.len() && (#[trigger] out[k]).slot == handed[i].0.0
    &&& forall|k: int| 0 <= k < out.len() ==> leads(m, handed, n, next, #[trigger] out[k])
    &&& forall|j: int, k: int| 0 <= j < k < out.len() ==> (#[trigger] out[j]).slot != (#[trigger] out[k]).slot
}

/// Whether `leave` is the one that was decided for one of the first `n` of `handed`.
spec fn leads(m: MakerView, handed: Seq<(SlotId, u32)>, n: int, next: MakerView, leave: LeaveDirective) -> bool {
    exists|i: int|
        0 <= i < n && (#[trigger] handed[i]).0.0 == leave.slot && m.leave_schedulable(handed[i].0)
            && next.decided_leaves.contains_key(handed[i].0) && next.decided_leaves[handed[i].0] == leave
}

proof fn lemma_drained(m: MakerView, handed: Seq<(SlotId, u32)>, n: int, now: Instant)
    requires
        m.is_authority(),
        0 <= n <= handed.len(),
        forall|s: SlotId| #[trigger] m.departures.contains_key(s) ==> !m.slots.contains_key(s),
        forall|i: int|
            0 <= i < handed.len() ==> m.departures.contains_key((#[trigger] handed[i]).0) && !m.decided_leaves.contains_key(
                handed[i].0,
            ),
        forall|i: int, j: int| 0 <= i < j < handed.len() ==> (#[trigger] handed[i]).0 != (#[trigger] handed[j]).0,
    ensures
        drained(m, handed, n, m.decide_leaves(handed, n, now).0, m.decide_leaves(handed, n, now).1),
    decreases n,
{
    if n > 0 {
        lemma_drained(m, handed, n - 1, now);
        lemma_decide_leaves_reach(m, handed, n - 1, now);
        let (before, out) = m.decide_leaves(handed, n - 1, now);
        let (slot, reason) = handed[n - 1];
        assert(m.departures.contains_key(handed[n - 1].0) && !m.decided_leaves.contains_key(handed[n - 1].0));
        assert(before.departures.dom().contains(slot));
        assert(!m.slots.contains_key(slot));
        if before.decided_leaves.contains_key(slot) {
            let i = choose|i: int| 0 <= i < n - 1 && (#[trigger] handed[i]).0 == slot;
            assert(handed[i].0 != handed[n - 1].0);
        }
        lemma_decide_one(before, slot, reason, now);
        assert(before.recorded_last(slot) == m.recorded_last(slot));
        assert(before.leave_schedulable(slot) == m.leave_schedulable(slot));
        let (next, all) = m.decide_leaves(handed, n, now);
        assert forall|k: int| 0 <= k < all.len() implies leads(m, handed, n, next, #[trigger] all[k]) by {
            if k < out.len() {
                assert(leads(m, handed, n - 1, before, out[k]));
                let i = choose|i: int|
                    0 <= i < n - 1 && (#[trigger] handed[i]).0.0 == out[k].slot && m.leave_schedulable(handed[i].0)
                        && before.decided_leaves.contains_key(handed[i].0) && before.decided_leaves[handed[i].0] == out[k];
                assert(handed[i].0 != handed[n - 1].0);
            } else {
                assert(handed[n - 1].0.0 == all[k].slot);
            }
        }
        assert forall|j: int, k: int| 0 <= j < k < all.len() implies (#[trigger] all[j]).slot != (#[trigger] all[k]).slot by {
            if k == out.len() {
                assert(leads(m, handed, n - 1, before, out[j]));
                let i = choose|i: int|
                    0 <= i < n - 1 && (#[trigger] handed[i]).0.0 == out[j].slot && m.leave_schedulable(handed[i].0)
                        && before.decided_leaves.contains_key(handed[i].0) && before.decided_leaves[handed[i].0] == out[j];
                assert(handed[i].0 != handed[n - 1].0);
            }
        }
        assert forall|i: int| 0 <= i < n && m.leave_schedulable((#[trigger] handed[i]).0) implies exists|k: int|
            0 <= k < all.len() && (#[trigger] all[k]).slot == handed[i].0.0 by {
            if i < n - 1 {
                let k = choose|k: int| 0 <= k < out.len() && (#[trigger] out[k]).slot == handed[i].0.0;
                assert(all[k].slot == handed[i].0.0);
            } else {
                assert(all[out.len() as int].slot == handed[i].0.0);
            }
        }
        assert forall|s: SlotId| #[trigger] next.decided_leaves.contains_key(s) implies m.decided_leaves.contains_key(s) || (
        m.leave_schedulable(s) && exists|i: int| 0 <= i < n && (#[trigger] handed[i]).0 == s) by {
            if s == slot {
                assert(handed[n - 1].0 == s);
            } else if !m.decided_leaves.contains_key(s) {
                assert(before.decided_leaves.contains_key(s));
                let i = choose|i: int| 0 <= i < n - 1 && (#[trigger] handed[i]).0 == s;
                assert(handed[i].0 == s);
            }
        }
    }
}

proof fn lemma_handed(m: MakerView, held: Set<SlotId>, now: Instant)
    requires
        crate::laws::session::sound(m),
        m.promotes(Authority::SelfRelay),
    ensures
        drained(
            m.reseated(Authority::SelfRelay),
            m.handoff(held),
            m.handoff(held).len() as int,
            m.set_authority(Authority::SelfRelay, held, now),
            m.fresh_leaves(Authority::SelfRelay, held, now),
        ),
        m.set_authority(Authority::SelfRelay, held, now).is_authority(),
        forall|s: SlotId| #[trigger] m.undecided().difference(held).contains(s) <==> exists|i: int|
            0 <= i < m.handoff(held).len() && (#[trigger] m.handoff(held)[i]).0 == s,
        forall|s: SlotId| #[trigger]
            m.reseated(Authority::SelfRelay).leave_schedulable(s) == m.leave_schedulable(s),
{
    let open = m.undecided().difference(held);
    crate::laws::phase::lemma_slots_are_finite(open);
    crate::ordmap::lemma_listing_exists(open);
    let keys = crate::ordmap::listing(open);
    let handed = m.handoff(held);
    let reseated = m.reseated(Authority::SelfRelay);
    assert forall|i: int| 0 <= i < handed.len() implies reseated.departures.contains_key((#[trigger] handed[i]).0)
        && !reseated.decided_leaves.contains_key(handed[i].0) by {
        assert(keys.contains(keys[i]));
        assert(open.contains(keys[i]));
    }
    assert forall|i: int, j: int| 0 <= i < j < handed.len() implies (#[trigger] handed[i]).0 != (#[trigger] handed[j]).0 by {
        assert(crate::ordmap::OrdKey::rank(keys[i]) < crate::ordmap::OrdKey::rank(keys[j]));
    }
    assert forall|s: SlotId| #[trigger] open.contains(s) <==> exists|i: int|
        0 <= i < handed.len() && (#[trigger] handed[i]).0 == s by {
        if open.contains(s) {
            let i = choose|i: int| 0 <= i < keys.len() && keys[i] == s;
            assert(handed[i].0 == s);
        }
        if exists|i: int| 0 <= i < handed.len() && (#[trigger] handed[i]).0 == s {
            let i = choose|i: int| 0 <= i < handed.len() && (#[trigger] handed[i]).0 == s;
            assert(keys.contains(keys[i]));
        }
    }
    lemma_drained(reseated, handed, handed.len() as int, now);
    lemma_decide_leaves_reach(reseated, handed, handed.len() as int, now);
}

/// A promotion decides exactly the departures that no drop hold keeps open and that can be
/// scheduled, one fresh leave each: nothing else is decided, and a held slot stays as it
/// was.
pub proof fn law_promotion_decides_each_once(m: MakerView, held: Set<SlotId>, now: Instant)
    requires
        crate::laws::session::sound(m),
        m.promotes(Authority::SelfRelay),
    ensures
        ({
            let fresh = m.fresh_leaves(Authority::SelfRelay, held, now);
            let next = m.set_authority(Authority::SelfRelay, held, now);
            &&& next.decided_leaves.dom() == m.decided_leaves.dom().union(handed_over(m, held))
            &&& forall|k: int|
                0 <= k < fresh.len() ==> (#[trigger] fresh[k]).slot <= 255 && handed_over(m, held).contains(
                    SlotId(fresh[k].slot as u8),
                ) && next.decided_leaves[SlotId(fresh[k].slot as u8)] == fresh[k]
            &&& forall|s: SlotId| #[trigger]
                handed_over(m, held).contains(s) ==> exists|k: int|
                    0 <= k < fresh.len() && (#[trigger] fresh[k]).slot == s.0
            &&& forall|j: int, k: int| 0 <= j < k < fresh.len() ==> (#[trigger] fresh[j]).slot != (#[trigger] fresh[k]).slot
            &&& forall|s: SlotId| #[trigger]
                held.contains(s) ==> next.decided_leaves.contains_key(s) == m.decided_leaves.contains_key(s)
        }),
{
    lemma_handed(m, held, now);
    let fresh = m.fresh_leaves(Authority::SelfRelay, held, now);
    let next = m.set_authority(Authority::SelfRelay, held, now);
    let handed = m.handoff(held);
    let reseated = m.reseated(Authority::SelfRelay);
    let n = handed.len() as int;
    let due = handed_over(m, held);
    assert forall|k: int| 0 <= k < fresh.len() implies (#[trigger] fresh[k]).slot <= 255 && due.contains(
        SlotId(fresh[k].slot as u8),
    ) && next.decided_leaves.contains_key(SlotId(fresh[k].slot as u8)) && next.decided_leaves[SlotId(fresh[k].slot as u8)]
        == fresh[k] by {
        assert(leads(reseated, handed, n, next, fresh[k]));
        let i = choose|i: int|
            0 <= i < n && (#[trigger] handed[i]).0.0 == fresh[k].slot && reseated.leave_schedulable(handed[i].0)
                && next.decided_leaves.contains_key(handed[i].0) && next.decided_leaves[handed[i].0] == fresh[k];
        assert(handed[i].0 == SlotId(fresh[k].slot as u8));
        assert(m.undecided().difference(held).contains(handed[i].0));
    }
    assert forall|s: SlotId| #[trigger] due.contains(s) implies (exists|k: int|
        0 <= k < fresh.len() && (#[trigger] fresh[k]).slot == s.0) && next.decided_leaves.contains_key(s) by {
        assert(m.undecided().difference(held).contains(s));
        let i = choose|i: int| 0 <= i < n && (#[trigger] handed[i]).0 == s;
        assert(reseated.leave_schedulable(handed[i].0));
        let k = choose|k: int| 0 <= k < fresh.len() && (#[trigger] fresh[k]).slot == handed[i].0.0;
        assert(fresh[k].slot == s.0);
        assert(SlotId(fresh[k].slot as u8) == s);
    }
    assert forall|s: SlotId| #[trigger] next.decided_leaves.dom().contains(s) implies m.decided_leaves.dom().union(
        due,
    ).contains(s) by {
        assert(next.decided_leaves.contains_key(s));
        if !m.decided_leaves.contains_key(s) {
            assert(m.undecided().difference(held).contains(s));
            assert(reseated.leave_schedulable(s));
        }
    }
    assert forall|s: SlotId| #[trigger] m.decided_leaves.dom().union(due).contains(s) implies next.decided_leaves.dom().contains(
        s,
    ) by {
        if m.decided_leaves.contains_key(s) {
            assert(reseated.decided_leaves.contains_key(s));
        } else {
            assert(due.contains(s));
        }
    }
    assert(next.decided_leaves.dom() =~= m.decided_leaves.dom().union(due));
    assert forall|s: SlotId| #[trigger] held.contains(s) implies next.decided_leaves.contains_key(s)
        == m.decided_leaves.contains_key(s) by {
        assert(next.decided_leaves.dom().contains(s) == m.decided_leaves.dom().union(due).contains(s));
    }
}

/// What a promotion sends is every leave decided before, as it was, and then the fresh
/// ones: one per slot.
pub proof fn law_promotion_sends_one_leave_per_slot(m: MakerView, held: Set<SlotId>, now: Instant)
    requires
        crate::laws::session::sound(m),
        m.promotes(Authority::SelfRelay),
    ensures
        ({
            let keys = crate::ordmap::listing(m.decided_leaves.dom());
            let all = m.handoff_leaves(Authority::SelfRelay, held, now);
            &&& crate::ordmap::lists(keys, m.decided_leaves.dom())
            &&& all == keys.map_values(|s: SlotId| m.decided_leaves[s]) + m.fresh_leaves(Authority::SelfRelay, held, now)
            &&& forall|j: int, k: int| 0 <= j < k < all.len() ==> (#[trigger] all[j]).slot != (#[trigger] all[k]).slot
        }),
{
    law_promotion_decides_each_once(m, held, now);
    let dom = m.decided_leaves.dom();
    crate::laws::phase::lemma_slots_are_finite(dom);
    crate::ordmap::lemma_listing_exists(dom);
    let keys = crate::ordmap::listing(dom);
    let fresh = m.fresh_leaves(Authority::SelfRelay, held, now);
    let resent = keys.map_values(|s: SlotId| m.decided_leaves[s]);
    let all = m.handoff_leaves(Authority::SelfRelay, held, now);
    assert forall|j: int| 0 <= j < resent.len() implies (#[trigger] resent[j]).slot == keys[j].0 && dom.contains(keys[j]) by {
        assert(keys.contains(keys[j]));
        assert(m.decided_leaves.contains_key(keys[j]));
    }
    assert forall|j: int, k: int| 0 <= j < k < all.len() implies (#[trigger] all[j]).slot != (#[trigger] all[k]).slot by {
        let r = resent.len() as int;
        if k < r {
            assert(resent[j].slot == keys[j].0 && resent[k].slot == keys[k].0);
            assert(crate::ordmap::OrdKey::rank(keys[j]) < crate::ordmap::OrdKey::rank(keys[k]));
        } else if j < r {
            assert(resent[j].slot == keys[j].0);
            assert(all[k] == fresh[k - r]);
            assert(handed_over(m, held).contains(SlotId(fresh[k - r].slot as u8)));
        } else {
            assert(all[j] == fresh[j - r] && all[k] == fresh[k - r]);
        }
    }
}

/// Being promoted twice is being promoted once: the second time sends nothing and changes
/// nothing.
pub proof fn law_a_second_promotion_is_empty(
    m: MakerView,
    held: Set<SlotId>,
    now: Instant,
    other: Set<SlotId>,
    later: Instant,
)
    requires
        crate::laws::session::sound(m),
        m.promotes(Authority::SelfRelay),
    ensures
        ({
            let next = m.set_authority(Authority::SelfRelay, held, now);
            &&& next.set_authority(Authority::SelfRelay, other, later) == next
            &&& next.handoff_leaves(Authority::SelfRelay, other, later).len() == 0
            &&& next.fresh_leaves(Authority::SelfRelay, other, later).len() == 0
        }),
{
    lemma_handed(m, held, now);
}

/// Whether dropped players' counts may be finalized is fixed with the session: no later
/// description changes it.
pub proof fn law_finalized_drops_are_latched(m: MakerView, sync: SyncView, now: Instant)
    ensures
        m.reseeded(sync, now).bounded(sync.bounds).finalized_drops_enabled == m.finalized_drops_enabled,
{
    if sync.resumed_departed is Some {
        let departed = sync.resumed_departed->0;
        lemma_seeds_keep_the_latch(m.redescribed(sync), departed, departed.len() as int, now);
    }
}

proof fn lemma_seeds_keep_the_latch(m: MakerView, departed: Seq<DepartedSlot>, n: int, now: Instant)
    ensures
        m.seed_upto(departed, n, now).0.finalized_drops_enabled == m.finalized_drops_enabled,
    decreases n,
{
    if n > 0 {
        lemma_seeds_keep_the_latch(m, departed, n - 1, now);
    }
}

} // verus!
