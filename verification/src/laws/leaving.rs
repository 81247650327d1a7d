//! Laws of leaving: what a decided leave says of the slot, and what it is decided from.
use crate::ids::GameFrameCount;
use crate::ids::SlotId;
use crate::maker::departure::StampsView;
use crate::maker::MakerView;
use crate::time::Instant;
use crate::wire::Authority;
use crate::wire::DepartureKind;
use crate::wire::LeaveDirective;
use crate::wire::LEAVE_REASON_DROPPED;
use vstd::prelude::*;

verus! {

/// The turn count that is on record for a slot that departed.
pub open spec fn count_on_record(m: MakerView, slot: SlotId) -> Option<u64> {
    if m.departures.contains_key(slot) { m.departures[slot].final_turn_count } else { None }
}

/// Whether a slot's count was recorded as a finalized drop's complete one.
pub open spec fn finalized_on_record(m: MakerView, slot: SlotId) -> bool {
    m.departures.contains_key(slot) && m.departures[slot].finalized
}

/// Whether a leave says of its slot what is on record: who left and why; a clean leave's
/// count exactly as recorded, unless the session was resumed from elsewhere; a drop's count
/// only where finalization recorded it, and marked so.
pub open spec fn tells_the_record(m: MakerView, slot: SlotId, reason: u32, leave: LeaveDirective) -> bool {
    &&& leave.slot == slot.0
    &&& leave.reason == reason
    &&& reason != LEAVE_REASON_DROPPED && !m.resumed ==> leave.final_turn_count == count_on_record(m, slot)
    &&& reason != LEAVE_REASON_DROPPED && m.resumed ==> leave.final_turn_count is None
    &&& reason != LEAVE_REASON_DROPPED ==> !leave.finalized
    &&& reason == LEAVE_REASON_DROPPED && finalized_on_record(m, slot) ==> leave.final_turn_count == count_on_record(
        m,
        slot,
    )
    &&& reason == LEAVE_REASON_DROPPED && !finalized_on_record(m, slot) ==> leave.final_turn_count is None
    &&& reason == LEAVE_REASON_DROPPED ==> (leave.finalized <==> leave.final_turn_count is Some)
}

/// Every leave that the authority decides tells what is on record of the slot; one that is
/// forced does too.
pub proof fn law_a_leave_tells_what_is_on_record(m: MakerView, slot: SlotId, reason: u32)
    ensures
        m.leave_decision(slot, reason) is Some ==> tells_the_record(m, slot, reason, m.leave_decision(slot, reason)->0),
        m.forced_decision(slot, reason) is Some ==> tells_the_record(m, slot, reason, m.forced_decision(slot, reason)->0),
{
}

/// A clean leave keeps its count: where a slot departed with a turn count, in a session that
/// was not resumed from elsewhere, the leave decided for it carries exactly that count,
/// whatever was recorded of the slot after.
pub proof fn law_a_clean_leave_keeps_its_count(
    m: MakerView,
    slot: SlotId,
    stamps: StampsView,
    reason: u32,
    connection_epoch: Option<u64>,
    later: StampsView,
    later_reason: u32,
    later_epoch: Option<u64>,
    decided_reason: u32,
    count: u64,
)
    requires
        !m.resumed,
        !m.departures.contains_key(slot),
        decided_reason != LEAVE_REASON_DROPPED,
        stamps.final_turn_count == Some(count),
    ensures
        ({
            let departed = m.note_departure(slot, stamps, reason, connection_epoch);
            let retold = departed.note_departure(slot, later, later_reason, later_epoch);
            &&& departed.leave_decision(slot, decided_reason) is Some ==> (departed.leave_decision(
                slot,
                decided_reason,
            )->0).final_turn_count == Some(count)
            &&& retold.leave_decision(slot, decided_reason) is Some ==> (retold.leave_decision(
                slot,
                decided_reason,
            )->0).final_turn_count == Some(count)
            &&& departed.forced_decision(slot, decided_reason) is Some ==> (departed.forced_decision(
                slot,
                decided_reason,
            )->0).final_turn_count == Some(count)
        }),
{
    let departed = m.note_departure(slot, stamps, reason, connection_epoch);
    let retold = departed.note_departure(slot, later, later_reason, later_epoch);
    law_a_leave_tells_what_is_on_record(departed, slot, decided_reason);
    law_a_leave_tells_what_is_on_record(retold, slot, decided_reason);
}

/// The last frame a slot is known to have reached: the later of what its departure recorded
/// and what it last announced here.
pub open spec fn last_known_frame(m: MakerView, slot: SlotId) -> Option<u32> {
    let recorded = if m.departures.contains_key(slot) { m.departures[slot].last_frame } else { None };
    let live = if m.slots.contains_key(slot) { m.slots[slot].frame } else { None };
    match (recorded, live) {
        (Some(a), Some(b)) => Some(if a.0 >= b.0 { a.0 } else { b.0 }),
        (Some(a), None) => Some(a.0),
        (None, Some(b)) => Some(b.0),
        (None, None) => None,
    }
}

/// The survivors' reach that is on record for a departed slot.
pub open spec fn reach_on_record(m: MakerView, slot: SlotId) -> Option<u32> {
    if m.departures.contains_key(slot) { m.departures[slot].reachable_frame } else { None }
}

/// Whether `frame` is the earliest frame that any slot other than one has announced.
pub open spec fn is_earliest_of_others(m: MakerView, slot: SlotId, frame: u32) -> bool {
    &&& exists|s: SlotId| #[trigger] m.slots.contains_key(s) && s != slot && m.slots[s].frame == Some(GameFrameCount(frame))
    &&& forall|s: SlotId| #[trigger]
        m.slots.contains_key(s) && s != slot && m.slots[s].frame is Some ==> frame <= (m.slots[s].frame->0).0
}

pub open spec fn one_past(frame: u32) -> int {
    if frame < u32::MAX { frame + 1 } else { u32::MAX as int }
}

proof fn lemma_others_frame(m: MakerView, slot: SlotId, stamps: StampsView, reason: u32)
    ensures
        ({
            let departed = m.note_departure(slot, stamps, reason, None);
            match departed.session_frame() {
                Some(f) => is_earliest_of_others(m, slot, f.0),
                None => forall|s: SlotId| #[trigger] m.slots.contains_key(s) && s != slot ==> m.slots[s].frame is None,
            }
        }),
{
    let departed = m.note_departure(slot, stamps, reason, None);
    crate::laws::buffer::law_session_frame_is_the_earliest(departed);
    assert forall|s: SlotId| #[trigger] m.slots.contains_key(s) && s != slot implies departed.slots.contains_key(s)
        && departed.slots[s] == m.slots[s] by {}
    if let Some(f) = departed.session_frame() {
        let s = choose|s: SlotId| #[trigger] departed.slots.contains_key(s) && departed.slots[s].frame == Some(f);
        assert(m.slots.contains_key(s) && s != slot);
    }
}

/// A leave takes effect one frame past the last that its slot is known to have reached, or
/// one past what every survivor can reach where that comes first; and where nothing is known
/// of the slot, one frame past the earliest of the others. Only a forced leave is decided
/// with neither known, and then it takes effect at once.
pub proof fn law_a_leave_applies_past_the_slots_last_frame(m: MakerView, slot: SlotId, reason: u32, last: u32, reach: u32, others: u32)
    ensures
        m.leave_decision(slot, reason) is Some ==> {
            let frame = (m.leave_decision(slot, reason)->0).apply_at_frame;
            &&& last_known_frame(m, slot) == Some(last) && reach_on_record(m, slot) is None ==> frame == one_past(last)
            &&& last_known_frame(m, slot) == Some(last) && reach_on_record(m, slot) == Some(reach) ==> frame == one_past(
                if last <= reach { last } else { reach },
            )
            &&& last_known_frame(m, slot) is None && is_earliest_of_others(m, slot, others) ==> frame == one_past(others)
            &&& last_known_frame(m, slot) is None ==> exists|s: SlotId| #[trigger]
                m.slots.contains_key(s) && s != slot && m.slots[s].frame is Some
        },
        m.forced_decision(slot, reason) is Some ==> {
            let frame = (m.forced_decision(slot, reason)->0).apply_at_frame;
            &&& last_known_frame(m, slot) == Some(last) && reach_on_record(m, slot) is None ==> frame == one_past(last)
            &&& last_known_frame(m, slot) == Some(last) && reach_on_record(m, slot) == Some(reach) ==> frame == one_past(
                if last <= reach { last } else { reach },
            )
            &&& last_known_frame(m, slot) is None && is_earliest_of_others(m, slot, others) ==> frame == one_past(others)
            &&& last_known_frame(m, slot) is None && (forall|s: SlotId| #[trigger]
                m.slots.contains_key(s) && s != slot ==> m.slots[s].frame is None) ==> frame == 0
        },
{
    lemma_others_frame(m, slot, StampsView::blank(), reason);
    let departed = m.departing(slot, reason);
    assert(departed.recorded_last(slot) == last_known_frame(m, slot));
    assert(departed.departures[slot].reachable_frame == reach_on_record(m, slot));
    if let Some(f) = departed.session_frame() {
        let s = choose|s: SlotId| #[trigger]
            m.slots.contains_key(s) && s != slot && m.slots[s].frame == Some(GameFrameCount(f.0));
        assert(m.slots.contains_key(s) && s != slot && m.slots[s].frame is Some);
        if is_earliest_of_others(m, slot, others) {
            let o = choose|s: SlotId| #[trigger]
                m.slots.contains_key(s) && s != slot && m.slots[s].frame == Some(GameFrameCount(others));
            assert(m.slots.contains_key(o));
            assert(f.0 == others);
        }
    } else if is_earliest_of_others(m, slot, others) {
        let o = choose|s: SlotId| #[trigger]
            m.slots.contains_key(s) && s != slot && m.slots[s].frame == Some(GameFrameCount(others));
        assert(m.slots.contains_key(o));
    }
}

/// A leave is owed exactly by the authority, for a slot not decided before, as soon as the
/// slot's own last frame or any other slot's frame is known; a forced one by anyone, for any
/// slot not decided before.
pub proof fn law_a_leave_is_owed_once_a_frame_is_known(m: MakerView, slot: SlotId, reason: u32)
    ensures
        m.leave_decision(slot, reason) is Some <==> {
            &&& m.authority == Authority::SelfRelay
            &&& !m.decided_leaves.contains_key(slot)
            &&& last_known_frame(m, slot) is Some || exists|s: SlotId| #[trigger]
                m.slots.contains_key(s) && s != slot && m.slots[s].frame is Some
        },
        m.forced_decision(slot, reason) is Some <==> !m.decided_leaves.contains_key(slot),
{
    lemma_others_frame(m, slot, StampsView::blank(), reason);
    let departed = m.departing(slot, reason);
    assert(departed.recorded_last(slot) == last_known_frame(m, slot));
    if let Some(f) = departed.session_frame() {
        let s = choose|s: SlotId| #[trigger]
            m.slots.contains_key(s) && s != slot && m.slots[s].frame == Some(GameFrameCount(f.0));
        assert(m.slots.contains_key(s) && s != slot && m.slots[s].frame is Some);
    }
}

/// What every way out of a session does: the slot's departure is on record, it is neither
/// live nor measured any more, and the comparator has forgotten it.
pub open spec fn is_out(m: MakerView, slot: SlotId) -> bool {
    &&& m.departures.contains_key(slot)
    &&& !m.slots.contains_key(slot)
    &&& !m.live.contains(slot)
    &&& crate::laws::comparison::forgotten(m.sync, slot)
}

/// Deciding, forcing, seeding or finalizing a leave each puts the slot out; so does
/// observing a leave that is new, and recording the departure of the slot's own connection.
pub proof fn law_every_way_out_is_complete(
    m: MakerView,
    slot: SlotId,
    stamps: StampsView,
    reason: u32,
    epoch: Option<u64>,
    kind: DepartureKind,
    count: Option<u64>,
    finalized: bool,
    leave: LeaveDirective,
    now: Instant,
)
    ensures
        is_out(m.decide_leave(slot, reason, now), slot),
        is_out(m.force_decide_leave(slot, reason, now), slot),
        is_out(m.seed_departed(slot, kind, count, finalized, now), slot),
        count is Some ==> is_out(m.finish_finalize(slot, count), slot),
        leave.slot == slot.0 && !m.decided_leaves.contains_key(slot) ==> is_out(m.observe_leave(leave, now), slot),
        !m.connections.contains_key(slot) || epoch == Some(m.connections[slot].spec_epoch()) ==> is_out(
            m.record_departure_for_epoch(slot, stamps, reason, epoch),
            slot,
        ),
{
    crate::laws::comparison::law_a_departed_slot_is_not_compared(m, slot, StampsView::blank(), reason, None);
    crate::laws::comparison::law_a_departed_slot_is_not_compared(
        m.mark_connection_down(slot, epoch),
        slot,
        stamps,
        reason,
        epoch,
    );
}

/// A decided leave is kept as decided and dated: from then on the record holds exactly that
/// leave, under the time it was first decided at.
pub proof fn law_a_decided_leave_is_kept(m: MakerView, slot: SlotId, reason: u32, now: Instant)
    ensures
        ({
            let next = m.decide_leave(slot, reason, now);
            let forced = m.force_decide_leave(slot, reason, now);
            let dated = if m.decided_leave_at.contains_key(slot) { m.decided_leave_at[slot] } else { now };
            &&& m.leave_decision(slot, reason) is Some ==> next.decided_leaves == m.decided_leaves.insert(
                slot,
                m.leave_decision(slot, reason)->0,
            ) && next.decided_leave_at == m.decided_leave_at.insert(slot, dated)
            &&& m.leave_decision(slot, reason) is None ==> next.decided_leaves == m.decided_leaves
                && next.decided_leave_at == m.decided_leave_at
            &&& m.forced_decision(slot, reason) is Some ==> forced.decided_leaves == m.decided_leaves.insert(
                slot,
                m.forced_decision(slot, reason)->0,
            ) && forced.decided_leave_at == m.decided_leave_at.insert(slot, dated)
            &&& m.forced_decision(slot, reason) is None ==> forced.decided_leaves == m.decided_leaves
        }),
{
}

} // verus!
