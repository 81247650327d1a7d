//! Laws of a slot's standing: its connection, its departure, what is kept of it, and when it
//! is let back in.
use crate::ids::GameFrameCount;
use crate::ids::SlotId;
use crate::maker::departure::StampsView;
use crate::maker::leave::FinalizeOutcome;
use crate::maker::MakerView;
use crate::slot::ConnectionActivation;
use crate::slot::ConnectionState;
use crate::slot::DepartureRecordOutcome;
use crate::slot::ReconnectAdmission;
use crate::slot::SlotView;
use crate::time::Instant;
use crate::wire::DepartureKind;
use crate::wire::LeaveDirective;
use crate::wire::LEAVE_REASON_DROPPED;
use vstd::prelude::*;

verus! {

/// The later of two frames, where any is known.
pub open spec fn is_later(frame: Option<GameFrameCount>, a: Option<GameFrameCount>, b: Option<GameFrameCount>) -> bool {
    &&& frame == a || frame == b
    &&& a is Some || b is Some ==> frame is Some
    &&& a is Some ==> (frame->0).0 >= (a->0).0
    &&& b is Some ==> (frame->0).0 >= (b->0).0
}

/// A first account of a departure is kept as it was told, but for a result too long or
/// empty; its last frame is the later of what was told and what the slot had announced here.
pub proof fn law_a_first_account_is_kept_as_told(m: MakerView, slot: SlotId, stamps: StampsView, reason: u32, epoch: Option<u64>)
    requires
        !m.departures.contains_key(slot),
    ensures
        ({
            let kept = m.note_departure(slot, stamps, reason, epoch).departures[slot];
            let announced = if m.slots.contains_key(slot) { m.slots[slot].frame } else { None };
            &&& kept.reason == reason
            &&& kept.connection_epoch == epoch
            &&& kept.final_turn_count == stamps.final_turn_count
            &&& kept.finalized == stamps.finalized
            &&& kept.reachable_frame == stamps.reachable_frame
            &&& is_later(kept.last_frame, stamps.last_frame, announced)
            &&& stamps.result is None ==> kept.result is None
            &&& stamps.result is Some && 0 < (stamps.result->0).payload.len() <= crate::wire::MAX_GAME_RESULT_PAYLOAD_LEN
                ==> kept.result == stamps.result
            &&& stamps.result is Some && ((stamps.result->0).payload.len() == 0 || (stamps.result->0).payload.len()
                > crate::wire::MAX_GAME_RESULT_PAYLOAD_LEN) ==> kept.result is None
            &&& m.slots.contains_key(slot) ==> kept.slot_state == Some(
                SlotView { frame: kept.last_frame, ..m.slots[slot] },
            )
            &&& !m.slots.contains_key(slot) ==> kept.slot_state is None
        }),
{
}

/// A later account fills in what the first left out, and nothing else of it is taken but a
/// later frame.
pub proof fn law_a_later_account_fills_in(m: MakerView, slot: SlotId, stamps: StampsView, reason: u32, epoch: Option<u64>)
    requires
        m.departures.contains_key(slot),
        !m.slots.contains_key(slot),
    ensures
        ({
            let was = m.departures[slot];
            let kept = m.note_departure(slot, stamps, reason, epoch).departures[slot];
            &&& was.reachable_frame is None ==> kept.reachable_frame == stamps.reachable_frame
            &&& was.final_turn_count is None ==> kept.final_turn_count == stamps.final_turn_count
            &&& was.connection_epoch is None ==> kept.connection_epoch == epoch
            &&& kept.finalized == (was.finalized || stamps.finalized)
            &&& is_later(kept.last_frame, was.last_frame, stamps.last_frame)
            &&& was.slot_state is None ==> kept.slot_state is None
            &&& was.slot_state is Some ==> kept.slot_state is Some && (kept.slot_state->0).frame_history
                == (was.slot_state->0).frame_history && is_later(
                (kept.slot_state->0).frame,
                (was.slot_state->0).frame,
                kept.last_frame,
            )
        }),
{
}

/// A departure touches nobody else: the other slots, their departures, every decided leave
/// and the numbering stand.
pub proof fn law_a_departure_touches_nobody_else(
    m: MakerView,
    slot: SlotId,
    stamps: StampsView,
    reason: u32,
    epoch: Option<u64>,
    other: SlotId,
)
    requires
        other != slot,
    ensures
        ({
            let next = m.note_departure(slot, stamps, reason, epoch);
            &&& next.slots.contains_key(other) <==> m.slots.contains_key(other)
            &&& m.slots.contains_key(other) ==> next.slots[other] == m.slots[other]
            &&& next.departures.contains_key(other) <==> m.departures.contains_key(other)
            &&& m.departures.contains_key(other) ==> next.departures[other] == m.departures[other]
            &&& next.live.contains(other) <==> m.live.contains(other)
            &&& next.decided_leaves == m.decided_leaves && next.next_leave_seq == m.next_leave_seq && next.connections
                == m.connections && next.buffer == m.buffer && next.results == m.results && next.started == m.started
        }),
{
}

/// A leave heard of from elsewhere, of a slot not decided before, is kept as decided: as
/// told, but for a drop's count that no finalization vouches for. The slot's connection goes
/// down, its departure takes the leave's count and the slot's own result, and it is dated.
pub proof fn law_a_leave_heard_of_is_kept(m: MakerView, leave: LeaveDirective, now: Instant)
    requires
        leave.slot < 256,
        !m.decided_leaves.contains_key(SlotId(leave.slot as u8)),
    ensures
        ({
            let slot = SlotId(leave.slot as u8);
            let next = m.observe_leave(leave, now);
            let kept = next.decided_leaves[slot];
            let vouched = leave.reason != LEAVE_REASON_DROPPED || (leave.finalized && m.finalized_drops_enabled);
            &&& next.decided_leaves.contains_key(slot)
            &&& next.decided_leaves.remove(slot) =~= m.decided_leaves.remove(slot)
            &&& kept.slot == leave.slot && kept.reason == leave.reason && kept.leave_seq == leave.leave_seq
                && kept.apply_at_frame == leave.apply_at_frame
            &&& vouched ==> kept.final_turn_count == leave.final_turn_count && kept.finalized == leave.finalized
            &&& !vouched ==> kept.final_turn_count is None && !kept.finalized
            &&& next.next_leave_seq == if leave.leave_seq > m.next_leave_seq { leave.leave_seq } else { m.next_leave_seq }
            &&& next.decided_leave_at.contains_key(slot)
            &&& next.decided_leave_at[slot] == if m.decided_leave_at.contains_key(slot) { m.decided_leave_at[slot] } else { now }
            &&& m.connections.contains_key(slot) ==> next.connections.contains_key(slot) && next.connections[slot]
                == ConnectionState::Down(m.connections[slot].spec_epoch())
            &&& !m.connections.contains_key(slot) ==> next.connections == m.connections
            &&& !m.departures.contains_key(slot) ==> {
                &&& next.departures[slot].reason == leave.reason
                &&& next.departures[slot].final_turn_count == kept.final_turn_count
                &&& m.results.contains_key(slot) && 0 < m.results[slot].payload.len()
                    <= crate::wire::MAX_GAME_RESULT_PAYLOAD_LEN ==> next.departures[slot].result == Some(m.results[slot])
                &&& !m.results.contains_key(slot) ==> next.departures[slot].result is None
            }
            &&& next.delivery.forgotten == m.delivery.forgotten.insert(slot)
        }),
{
    let slot = SlotId(leave.slot as u8);
    assert(m.observe_leave(leave, now).decided_leaves.remove(slot) =~= m.decided_leaves.remove(slot));
}

/// A leave of a slot that is decided already, or of no slot at all, only moves the numbering.
pub proof fn law_a_known_leave_only_moves_the_numbering(m: MakerView, leave: LeaveDirective, now: Instant)
    requires
        leave.slot > 255 || m.decided_leaves.contains_key(SlotId(leave.slot as u8)),
    ensures
        m.observe_leave(leave, now) == (MakerView { next_leave_seq: m.observe_leave(leave, now).next_leave_seq, ..m }),
        leave.slot > 255 ==> m.observe_leave(leave, now) == m,
        leave.slot <= 255 ==> m.observe_leave(leave, now).next_leave_seq == if leave.leave_seq > m.next_leave_seq {
            leave.leave_seq
        } else {
            m.next_leave_seq
        },
{
}

/// A slot known to be gone from the start is decided at once: at the frame past the earliest
/// of the others, or at the first where none is known, under the next number, and with its
/// count unless it was dropped without finalization.
pub proof fn law_a_slot_gone_from_the_start_is_decided(
    m: MakerView,
    slot: SlotId,
    kind: DepartureKind,
    count: Option<u64>,
    finalized: bool,
    others: u32,
)
    requires
        !m.decided_leaves.contains_key(slot),
    ensures
        ({
            let leave = m.seed_directive(slot, kind, count, finalized)->0;
            let vouched = finalized && m.finalized_drops_enabled;
            &&& m.seed_directive(slot, kind, count, finalized) is Some
            &&& leave.slot == slot.0
            &&& kind == DepartureKind::Dropped ==> leave.reason == 0x4000_0006
            &&& kind == DepartureKind::Left ==> leave.reason == 3
            &&& kind == DepartureKind::Left || vouched ==> leave.final_turn_count == count
            &&& kind == DepartureKind::Dropped && !vouched ==> leave.final_turn_count is None
            &&& leave.finalized <==> kind == DepartureKind::Dropped && vouched && count is Some
            &&& m.next_leave_seq < u32::MAX ==> leave.leave_seq == m.next_leave_seq + 1
            &&& crate::laws::leaving::is_earliest_of_others(m, slot, others) ==> leave.apply_at_frame
                == crate::laws::leaving::one_past(others)
            &&& (forall|s: SlotId| #[trigger] m.slots.contains_key(s) && s != slot ==> m.slots[s].frame is None)
                ==> leave.apply_at_frame == 1
        }),
{
    let seeded = m.seeding(slot, kind, count, finalized);
    crate::laws::buffer::law_session_frame_is_the_earliest(seeded);
    if crate::laws::leaving::is_earliest_of_others(m, slot, others) {
        let o = choose|s: SlotId| #[trigger]
            m.slots.contains_key(s) && s != slot && m.slots[s].frame == Some(GameFrameCount(others));
        assert(seeded.slots.contains_key(o));
        let f = seeded.session_frame()->0;
        let s = choose|s: SlotId| #[trigger] seeded.slots.contains_key(s) && seeded.slots[s].frame == Some(f);
        assert(m.slots.contains_key(s));
    }
    if forall|s: SlotId| #[trigger] m.slots.contains_key(s) && s != slot ==> m.slots[s].frame is None {
        if seeded.session_frame() is Some {
            let f = seeded.session_frame()->0;
            let s = choose|s: SlotId| #[trigger] seeded.slots.contains_key(s) && seeded.slots[s].frame == Some(f);
            assert(m.slots.contains_key(s));
        }
    }
}

/// When a finalization is refused and why: a decided slot is answered by what was decided of
/// it; a slot that is up, or asked about under another connection, is live; a slot rehomed
/// from elsewhere, or one no leave could be scheduled for, has no complete count.
pub proof fn law_finalizations_are_refused_for_cause(m: MakerView, slot: SlotId, requested: Option<u64>)
    ensures
        ({
            let refusal = m.seal_refusal(slot, requested);
            let up = m.connections.contains_key(slot) && m.connections[slot] is Up;
            let departed_under = if m.departures.contains_key(slot) { m.departures[slot].connection_epoch } else { None };
            let live = up || departed_under != requested;
            let framed = (exists|s: SlotId| #[trigger] m.slots.contains_key(s) && m.slots[s].frame is Some) || (
            m.departures.contains_key(slot) && m.departures[slot].last_frame is Some);
            let decided = m.decided_leaves.contains_key(slot);
            &&& decided && m.decided_leaves[slot].finalized && m.decided_leaves[slot].final_turn_count is Some ==> refusal
                == Some(FinalizeOutcome::Finalized { final_turn_count: m.decided_leaves[slot].final_turn_count->0 })
            &&& decided && !(m.decided_leaves[slot].finalized && m.decided_leaves[slot].final_turn_count is Some)
                ==> refusal == Some(FinalizeOutcome::RejectedLive)
            &&& !decided && live ==> refusal == Some(FinalizeOutcome::RejectedLive)
            &&& !decided && !live && (m.rehomed_homes.contains(slot) || !framed) ==> refusal == Some(
                FinalizeOutcome::RejectedNoCursor,
            )
            &&& !decided && !live && !m.rehomed_homes.contains(slot) && framed ==> refusal is None
            &&& refusal is None ==> m.seal_for_finalize(slot, requested).finalizing == m.finalizing.insert(slot)
            &&& refusal is Some ==> m.seal_for_finalize(slot, requested) == m
        }),
{
    crate::laws::buffer::law_session_frame_is_the_earliest(m);
    if m.session_frame() is Some {
        let s = choose|s: SlotId| #[trigger] m.slots.contains_key(s) && m.slots[s].frame == m.session_frame();
        assert(m.slots.contains_key(s) && m.slots[s].frame is Some);
    }
}

/// A finalization that yields a count records the slot as dropped with that count, vouched
/// for, and the seal stays; one that yields none takes the seal off.
pub proof fn law_a_finalization_records_its_count(m: MakerView, slot: SlotId, count: u64)
    ensures
        ({
            let done = m.finish_finalize(slot, Some(count));
            &&& done.departures.contains_key(slot)
            &&& done.departures[slot].finalized
            &&& !m.departures.contains_key(slot) ==> done.departures[slot].reason == LEAVE_REASON_DROPPED
            &&& !m.departures.contains_key(slot) || m.departures[slot].final_turn_count is None
                ==> done.departures[slot].final_turn_count == Some(count)
            &&& done.finalizing == m.finalizing
            &&& m.finish_finalize(slot, None) == (MakerView { finalizing: m.finalizing.remove(slot), ..m })
        }),
{
}

/// A connection may be brought up unless its slot has departed or is decided, or the
/// generation itself went down or was replaced before. Bringing it up retires the one it
/// replaces and wipes what that link had taught; bringing up the one that is up changes
/// nothing.
pub proof fn law_a_connection_comes_up(m: MakerView, slot: SlotId, epoch: u64, now: Instant)
    ensures
        ({
            let next = m.activate_connection_epoch(slot, epoch, now);
            let barred = {
                ||| m.departures.contains_key(slot)
                ||| m.decided_leaves.contains_key(slot)
                ||| m.retired.contains_key(slot) && m.retired[slot].contains(epoch)
                ||| m.connections.contains_key(slot) && m.connections[slot] == ConnectionState::Down(epoch)
            };
            let current = m.connections.contains_key(slot) && m.connections[slot] == ConnectionState::Up(epoch);
            &&& m.up_admitted(slot, Some(epoch)) <==> !barred
            &&& barred || current ==> next == m
            &&& !barred ==> next.connections.contains_key(slot) && next.connections[slot] == ConnectionState::Up(epoch)
            &&& !barred && !current ==> {
                &&& m.connections.contains_key(slot) ==> next.retired.contains_key(slot) && next.retired[slot].contains(
                    m.connections[slot].spec_epoch(),
                )
                &&& m.retired.contains_key(slot) ==> next.retired.contains_key(slot) && m.retired[slot].subset_of(
                    next.retired[slot],
                )
                &&& !m.connections.contains_key(slot) ==> next.retired == m.retired
                &&& m.slots.contains_key(slot) ==> {
                    let s = next.slots[slot];
                    &&& next.slots.contains_key(slot)
                    &&& s.rtts.len() == 0 && s.mesh_rtt_us == 0 && s.snapshots.len() == 0 && !s.seen && s.blackout_run == 0
                    &&& s.frame == m.slots[slot].frame && s.frame_history == m.slots[slot].frame_history
                    &&& s.connection_up_at == Some(now)
                }
                &&& !m.slots.contains_key(slot) ==> next.slots == m.slots
            }
        }),
{
}

/// A connection announced without a generation is admitted only of a slot that is present,
/// undecided and never had one.
pub proof fn law_an_unnamed_connection_needs_a_clean_slot(m: MakerView, slot: SlotId, now: Instant)
    ensures
        m.up_admitted(slot, None) <==> !m.departures.contains_key(slot) && !m.decided_leaves.contains_key(slot)
            && !m.connections.contains_key(slot),
        m.admit_connection_up(slot, None, now) == m,
{
}

/// A connection goes down under its own generation only, or where none was ever named.
pub proof fn law_a_connection_goes_down_under_its_own_name(m: MakerView, slot: SlotId, observed: Option<u64>)
    ensures
        m.down_accepted(slot, observed) <==> (m.connections.contains_key(slot) ==> observed == Some(
            m.connections[slot].spec_epoch(),
        )),
        m.down_accepted(slot, observed) && observed is Some ==> m.mark_connection_down(slot, observed).connections
            == m.connections.insert(slot, ConnectionState::Down(observed->0)),
        !m.down_accepted(slot, observed) || observed is None ==> m.mark_connection_down(slot, observed) == m,
        m.mark_connection_down(slot, observed) == (MakerView {
            connections: m.mark_connection_down(slot, observed).connections,
            ..m
        }),
{
}

/// A departure reported under a connection that is not the slot's own is turned away and
/// changes nothing; one of a decided slot is final; any other is pending and can be undone.
pub proof fn law_a_departure_of_another_connection_is_turned_away(
    m: MakerView,
    slot: SlotId,
    stamps: StampsView,
    reason: u32,
    epoch: Option<u64>,
)
    ensures
        ({
            let own = m.connections.contains_key(slot) ==> epoch == Some(m.connections[slot].spec_epoch());
            let decided = m.decided_leaves.contains_key(slot);
            let next = m.record_departure_outcome(slot, stamps, reason, epoch);
            &&& decided ==> m.departure_outcome(slot, epoch) == DepartureRecordOutcome::Terminal
            &&& !decided && own ==> m.departure_outcome(slot, epoch) == DepartureRecordOutcome::Pending
            &&& !decided && !own ==> m.departure_outcome(slot, epoch) == DepartureRecordOutcome::Rejected && next == m
            &&& decided || own ==> next.departures.contains_key(slot) && !next.slots.contains_key(slot)
                && !next.live.contains(slot) && crate::laws::comparison::forgotten(next.sync, slot)
                && next.delivery.forgotten.contains(slot)
            &&& !decided && own && epoch is Some ==> next.connections.contains_key(slot) && next.connections[slot]
                == ConnectionState::Down(epoch->0)
        }),
{
}

/// A reconnect is let in unless the slot was thrown out, is sealed, is decided, or comes
/// under a generation that went down, was replaced, or is unnamed where one is known; and a
/// departed slot only while its hold stands. A hold is spent by a reconnect that is let in,
/// or by one of a slot that is decided.
pub proof fn law_who_is_let_back_in(m: MakerView, slot: SlotId, observed: Option<u64>, hold_pending: bool)
    ensures
        ({
            let t = m.reconnect_transition(slot, observed, hold_pending);
            let named_before = m.connections.contains_key(slot);
            let barred = {
                ||| m.silence_evicted.contains(slot)
                ||| m.finalizing.contains(slot)
                ||| m.decided_leaves.contains_key(slot)
                ||| observed is Some && m.retired.contains_key(slot) && m.retired[slot].contains(observed->0)
                ||| observed is Some && named_before && m.connections[slot] == ConnectionState::Down(observed->0)
                ||| observed is None && named_before
                ||| m.departures.contains_key(slot) && !hold_pending
            };
            &&& barred ==> t.admission == ReconnectAdmission::Rejected
            &&& !barred ==> t.admission == ReconnectAdmission::Admitted { reinstated: m.departures.contains_key(slot) }
            &&& t.consume_hold <==> hold_pending && (!barred || m.decided_leaves.contains_key(slot))
        }),
{
}

/// A reconnect that is let in undoes the departure: the slot is present again with the
/// progress its departure kept, under the generation it came with.
pub proof fn law_a_reconnect_undoes_the_departure(m: MakerView, slot: SlotId, observed: Option<u64>, hold_pending: bool, now: Instant)
    requires
        m.reconnect_transition(slot, observed, hold_pending).admission != ReconnectAdmission::Rejected,
        m.departures.contains_key(slot),
    ensures
        ({
            let next = m.resolve_reconnect(slot, observed, hold_pending, now);
            let kept = m.departures[slot].slot_state;
            &&& !next.departures.contains_key(slot)
            &&& next.slots.contains_key(slot)
            &&& next.slots[slot].connection_up_at == Some(now)
            &&& next.slots[slot].rtts.len() == 0 && next.slots[slot].snapshots.len() == 0 && !next.slots[slot].seen
            &&& kept is Some ==> next.slots[slot].frame_history == (kept->0).frame_history
                && next.slots[slot].last_forward_advance_at == (kept->0).last_forward_advance_at && is_later(
                next.slots[slot].frame,
                (kept->0).frame,
                m.departures[slot].last_frame,
            )
            &&& kept is None ==> next.slots[slot].frame == m.departures[slot].last_frame
                && next.slots[slot].frame_history.len() == 0
            &&& observed is Some ==> next.connections.contains_key(slot) && next.connections[slot] == ConnectionState::Up(
                observed->0,
            )
        }),
{
}

/// What an activation amounts to: nothing where the slot's own generation is already up, a
/// replacement where it is new, a refusal where it is past.
pub proof fn law_what_an_activation_amounts_to(m: MakerView, slot: SlotId, observed: Option<u64>)
    ensures
        ({
            let named = m.connections.contains_key(slot);
            let past = {
                ||| m.decided_leaves.contains_key(slot)
                ||| observed is Some && m.retired.contains_key(slot) && m.retired[slot].contains(observed->0)
                ||| observed is Some && named && m.connections[slot] == ConnectionState::Down(observed->0)
                ||| observed is None && named
            };
            let same = {
                ||| observed is Some && named && m.connections[slot] == ConnectionState::Up(observed->0)
                ||| observed is None && !named && !m.departures.contains_key(slot)
            };
            &&& past ==> m.connection_activation(slot, observed) == ConnectionActivation::Rejected
            &&& !past && same ==> m.connection_activation(slot, observed) == ConnectionActivation::Current
            &&& !past && !same ==> m.connection_activation(slot, observed) == ConnectionActivation::Replacement
        }),
{
}

/// Taking a slot's state away leaves its departure, if any, and everybody else alone.
pub proof fn law_removing_a_slot_keeps_its_departure(m: MakerView, slot: SlotId, other: SlotId)
    ensures
        ({
            let next = m.remove_slot(slot);
            &&& !next.slots.contains_key(slot)
            &&& next.departures == m.departures && next.decided_leaves == m.decided_leaves && next.live == m.live
                && next.sync == m.sync && next.connections == m.connections
            &&& other != slot ==> (next.slots.contains_key(other) <==> m.slots.contains_key(other))
            &&& other != slot && m.slots.contains_key(other) ==> next.slots[other] == m.slots[other]
            &&& next.delivery.forgotten == m.delivery.forgotten.insert(slot)
            &&& !next.phase.slots.contains_key(slot)
            &&& other != slot ==> (next.phase.slots.contains_key(other) <==> m.phase.slots.contains_key(other))
        }),
{
}

/// What is announced of a departure is all that is kept of it but the slot's own state.
pub proof fn law_a_departure_is_announced_as_kept(m: MakerView, slot: SlotId)
    ensures
        ({
            let (said_slot, said, reason, epoch) = m.announced(slot);
            let kept = m.departures[slot];
            &&& said_slot == slot
            &&& said.last_frame == kept.last_frame && said.reachable_frame == kept.reachable_frame && said.result
                == kept.result && said.final_turn_count == kept.final_turn_count && said.finalized == kept.finalized
            &&& reason == kept.reason
            &&& epoch == kept.connection_epoch
        }),
{
}

/// Another relay that hears what is announced of a departure keeps the same account of it.
pub proof fn law_an_announced_departure_carries_over(m: MakerView, peer: MakerView, slot: SlotId)
    requires
        m.departures.contains_key(slot),
        m.departures[slot].result is Some ==> 0 < (m.departures[slot].result->0).payload.len()
            <= crate::wire::MAX_GAME_RESULT_PAYLOAD_LEN,
        !peer.departures.contains_key(slot),
        !peer.slots.contains_key(slot),
    ensures
        ({
            let (said_slot, said, reason, epoch) = m.announced(slot);
            let kept = m.departures[slot];
            let heard = peer.note_departure(said_slot, said, reason, epoch).departures[slot];
            &&& heard.last_frame == kept.last_frame && heard.reachable_frame == kept.reachable_frame && heard.result
                == kept.result && heard.final_turn_count == kept.final_turn_count && heard.finalized == kept.finalized
            &&& heard.reason == kept.reason && heard.connection_epoch == kept.connection_epoch
        }),
{
}

/// A turn's frame moves its slot's forward and never back; the newest sequence and the last
/// turns' stamps are kept, as many as four past the deepest buffer and eight at least.
pub proof fn law_a_turn_moves_its_slot_forward(m: MakerView, slot: SlotId, seq: u64, frame: GameFrameCount, other: SlotId)
    requires
        !m.departures.contains_key(slot),
    ensures
        ({
            let was = if m.slots.contains_key(slot) { m.slots[slot] } else { SlotView::fresh() };
            let next = m.observe_turn_frame(slot, seq, frame);
            let kept = next.slots[slot];
            let cap = if m.bounds.max >= 4 { m.bounds.max + 4 } else { 8 };
            &&& next.slots.contains_key(slot)
            &&& is_later(kept.frame, was.frame, Some(frame))
            &&& kept.newest_framed_seq is Some && kept.newest_framed_seq->0 >= seq && (was.newest_framed_seq is Some
                ==> kept.newest_framed_seq->0 >= was.newest_framed_seq->0) && (kept.newest_framed_seq == Some(seq)
                || kept.newest_framed_seq == was.newest_framed_seq)
            &&& kept.frame_history.len() > 0 && kept.frame_history.last() == (seq, frame.0)
            &&& was.frame_history.len() < cap ==> kept.frame_history == was.frame_history.push((seq, frame.0))
            &&& kept.frame_history.len() <= cap || kept.frame_history.len() <= was.frame_history.len() + 1
            &&& other != slot ==> next.live_state(other) == m.live_state(other)
            &&& m.observe_frame(slot, frame).slots.contains_key(slot) && is_later(
                m.observe_frame(slot, frame).slots[slot].frame,
                was.frame,
                Some(frame),
            )
        }),
{
}

/// A frame that goes back in a later turn is told of, once, with the frame it went back
/// from.
pub proof fn law_a_frame_that_goes_back_is_told_once(m: MakerView, slot: SlotId, seq: u64, frame: GameFrameCount)
    ensures
        ({
            let was = if m.slots.contains_key(slot) { m.slots[slot] } else { SlotView::fresh() };
            let told = m.frame_regression(slot, seq, frame);
            let back = {
                &&& !m.departures.contains_key(slot)
                &&& was.frame is Some && frame.0 < (was.frame->0).0
                &&& was.newest_framed_seq is Some && seq > was.newest_framed_seq->0
                &&& !was.frame_regression_reported
            };
            &&& told is Some <==> back
            &&& told is Some ==> (told->0).prior_frame == (was.frame->0).0
            &&& told is Some ==> m.observe_turn_frame(slot, seq, frame).slots[slot].frame_regression_reported
            &&& was.frame_regression_reported && !m.departures.contains_key(slot) ==> m.observe_turn_frame(
                slot,
                seq,
                frame,
            ).slots[slot].frame_regression_reported
        }),
{
}

} // verus!
