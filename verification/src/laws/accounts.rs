//! Laws of the accounts given of a session: what each notice and record says, and what a
//! session is described by.
use crate::ids::SessionKeyView;
use crate::ids::SlotId;
use crate::maker::silence::SilentSlot;
use crate::maker::MakerView;
use crate::notice::DepartureNoticeView;
use crate::notice::EventView;
use crate::ops::authority::SyncView;
use crate::registry::RegistryView;
use crate::slot::SlotView;
use crate::sync::turns::SyncTurn;
use crate::time::Duration;
use crate::time::Instant;
use crate::wire::Authority;
use crate::wire::BufferDirective;
use crate::wire::DepartedSlot;
use crate::wire::DepartureKind;
use crate::wire::LeaveDirective;
use crate::wire::SlotConditions;
use vstd::prelude::*;

verus! {

/// The name a coordinator knows a session by.
pub open spec fn known_as(a: RegistryView, key: SessionKeyView) -> Option<Seq<char>> {
    if a.refs.contains_key(key) { a.refs[key].external_id } else { None }
}

/// The name a coordinator knows a session's slot by.
pub open spec fn slot_known_as(a: RegistryView, key: SessionKeyView, slot: SlotId) -> Option<Seq<char>> {
    if a.refs.contains_key(key) && a.refs[key].slots.contains_key(slot) { Some(a.refs[key].slots[slot]) } else { None }
}

/// Whether a notice says of a leave what was decided: whose it is, whether it was a drop or
/// a clean leave, its number, its count, and the result that is on record for the slot.
pub open spec fn tells_the_leave(
    n: DepartureNoticeView,
    a: RegistryView,
    key: SessionKeyView,
    slot: SlotId,
    leave: LeaveDirective,
    m: MakerView,
) -> bool {
    &&& n.tenant == key.tenant && n.session == key.session && n.slot == slot
    &&& n.kind == DepartureKind::Dropped <==> leave.reason == 0x4000_0006
    &&& n.reason == leave.reason
    &&& n.leave_seq == leave.leave_seq
    &&& n.final_turn_count == leave.final_turn_count
    &&& n.finalized == leave.finalized
    &&& n.external_id == known_as(a, key)
    &&& n.external_ref == slot_known_as(a, key, slot)
    &&& n.result == if m.departures.contains_key(slot) { m.departures[slot].result } else { None }
}

/// A leave that is decided here is recorded, and the coordinator is told of it, once.
pub proof fn law_a_decided_leave_is_told(a: RegistryView, key: SessionKeyView, slot: SlotId, reason: u32, now: Instant)
    requires
        a.makers.contains_key(key),
        a.makers[key].leave_decision(slot, reason) is Some,
    ensures
        ({
            let leave = a.makers[key].leave_decision(slot, reason)->0;
            let next = a.decide_leave(key, slot, reason, now);
            &&& next.notices.len() == a.notices.len() + 1
            &&& next.notices.last() is Departure
            &&& tells_the_leave(next.notices.last()->Departure_0, a, key, slot, leave, next.makers[key])
            &&& next.events == a.events.push((key, EventView::LeaveDecided { leave }))
            &&& next.makers[key] == a.makers[key].decide_leave(slot, reason, now)
        }),
{
}

/// A leave heard of from elsewhere, that is new, is passed on to the coordinator as it is
/// kept.
pub proof fn law_a_leave_heard_of_is_told(a: RegistryView, key: SessionKeyView, leave: LeaveDirective, now: Instant)
    requires
        a.makers.contains_key(key),
        leave.slot < 256,
        !a.makers[key].decided_leaves.contains_key(SlotId(leave.slot as u8)),
    ensures
        ({
            let slot = SlotId(leave.slot as u8);
            let next = a.observe_leave(key, leave, now);
            &&& next.notices.len() == a.notices.len() + 1
            &&& next.notices.last() is Departure
            &&& tells_the_leave(
                next.notices.last()->Departure_0,
                a,
                key,
                slot,
                next.makers[key].decided_leaves[slot],
                next.makers[key],
            )
            &&& next.events == a.events
            &&& next.makers[key] == a.makers[key].observe_leave(leave, now)
        }),
{
}

/// A slot's first result, neither empty nor too long, is kept with when it came, the
/// session's frame and the slot's own, and told; any other changes nothing.
pub proof fn law_a_result_is_stamped_and_told(a: RegistryView, key: SessionKeyView, slot: SlotId, payload: Seq<u8>, now_ms: u64)
    requires
        a.makers.contains_key(key),
    ensures
        ({
            let m = a.makers[key];
            let next = a.record_result(key, slot, payload, now_ms);
            let taken = 0 < payload.len() <= crate::wire::MAX_GAME_RESULT_PAYLOAD_LEN && !m.results.contains_key(slot);
            &&& !taken ==> next == a
            &&& taken ==> {
                let kept = next.makers[key].results[slot];
                let told = next.notices.last()->Result_0;
                &&& next.makers[key].results.contains_key(slot)
                &&& kept.payload == payload
                &&& kept.arrival_ms == now_ms
                &&& kept.session_frame is Some <==> m.session_frame() is Some
                &&& m.session_frame() is Some ==> kept.session_frame->0 == (m.session_frame()->0).0
                &&& kept.slot_frame is Some <==> m.slots.contains_key(slot) && m.slots[slot].frame is Some
                &&& m.slots.contains_key(slot) && m.slots[slot].frame is Some ==> kept.slot_frame->0 == (
                m.slots[slot].frame->0).0
                &&& next.notices.len() == a.notices.len() + 1
                &&& next.notices.last() is Result
                &&& told.tenant == key.tenant && told.session == key.session && told.slot == slot && told.echo == kept
                &&& told.external_id == known_as(a, key) && told.external_ref == slot_known_as(a, key, slot)
            }
        }),
{
}

/// A split in the checksums is recorded and told as it was found: where, by whom and when;
/// what finds none tells none.
pub proof fn law_a_desync_is_told_as_found(a: RegistryView, key: SessionKeyView, slot: SlotId, seq: u64, turn: SyncTurn, now_ms: u64, i: int)
    requires
        a.makers.contains_key(key),
    ensures
        ({
            let (m, found) = a.makers[key].observe_sync(slot, seq, turn);
            let next = a.observe_sync(key, slot, seq, turn, now_ms);
            &&& next.makers[key] == m
            &&& found is None ==> next.notices == a.notices
            &&& found is Some ==> {
                let told = next.notices.last()->Desync_0;
                &&& next.notices.len() == a.notices.len() + 1
                &&& next.notices.last() is Desync
                &&& told.tenant == key.tenant && told.session == key.session
                &&& told.sync_ordinal == (found->0).sync_ordinal
                &&& told.game_frame == (found->0).game_frame
                &&& told.no_majority == (found->0).no_majority
                &&& told.detected_at_ms == now_ms
                &&& told.external_id == known_as(a, key)
                &&& told.diverged.len() == (found->0).diverged.len()
                &&& 0 <= i < told.diverged.len() ==> told.diverged[i].0 == (found->0).diverged[i] && told.diverged[i].1
                    == slot_known_as(a, key, (found->0).diverged[i])
                &&& next.events.last().0 == key
                &&& next.events.last().1 == EventView::DesyncDetected {
                    sync_ordinal: (found->0).sync_ordinal,
                    diverged: (found->0).diverged,
                    no_majority: (found->0).no_majority,
                }
            }
        }),
{
}

/// A slot present counts towards the start unless it has departed or is decided. The start
/// it brings about is recorded and told, with the depth it starts at, and dated.
pub proof fn law_a_start_is_told(a: RegistryView, key: SessionKeyView, slot: SlotId, now: Instant, now_ms: u64)
    requires
        a.makers.contains_key(key),
        !a.makers[key].started,
    ensures
        ({
            let m = a.makers[key];
            let next = a.note_slot_present(key, slot, now, now_ms);
            let counts = !m.departures.contains_key(slot) && !m.decided_leaves.contains_key(slot);
            let begun = {
                &&& counts
                &&& m.authority == Authority::SelfRelay
                &&& exists|s: SlotId| m.expected.contains(s)
                &&& forall|s: SlotId| #[trigger] m.expected.contains(s) ==> s == slot || m.live.contains(s)
            };
            &&& !counts ==> next.makers[key] == m && next.notices == a.notices && next.events == a.events
            &&& counts ==> next.makers[key].live == m.live.insert(slot)
            &&& next.makers[key].started <==> begun
            &&& !begun ==> next.notices == a.notices && next.events == a.events
            &&& begun ==> {
                let told = next.notices.last()->SessionStarted_0;
                &&& next.notices.len() == a.notices.len() + 1
                &&& next.notices.last() is SessionStarted
                &&& told.tenant == key.tenant && told.session == key.session && told.external_id == known_as(a, key)
                &&& told.started_at_ms == now_ms
                &&& told.initial_buffer_turns == Some(next.makers[key].buffer)
                &&& next.events == a.events.push(
                    (key, EventView::SessionStart { initial_buffer_turns: Some(next.makers[key].buffer) }),
                )
                &&& next.makers[key].started_at_ms == if m.started_at_ms is Some { m.started_at_ms } else { Some(now_ms) }
            }
        }),
{
    let m = a.makers[key];
    let with = m.with_live(slot);
    crate::laws::start::law_a_session_starts_once_all_are_live(with, now);
    if exists|s: SlotId| m.expected.contains(s) {
        let s = choose|s: SlotId| m.expected.contains(s);
        assert(with.expected.contains(s));
    }
    if forall|s: SlotId| #[trigger] m.expected.contains(s) ==> s == slot || m.live.contains(s) {
        assert forall|s: SlotId| #[trigger] with.expected.contains(s) implies with.live.contains(s) by {}
    }
    if forall|s: SlotId| #[trigger] with.expected.contains(s) ==> with.live.contains(s) {
        assert forall|s: SlotId| #[trigger] m.expected.contains(s) implies s == slot || m.live.contains(s) by {
            assert(with.expected.contains(s));
        }
    }
}

/// A buffer decision that conditions bring about is recorded with what it rests on, which is
/// then forgotten; conditions that decide nothing record nothing.
pub proof fn law_a_decision_is_recorded(
    a: RegistryView,
    key: SessionKeyView,
    conditions: Seq<SlotConditions>,
    mesh_rtt_us: u32,
    local: bool,
    now: Instant,
)
    requires
        a.makers.contains_key(key),
    ensures
        ({
            let (m, decision) = a.makers[key].ingest(conditions, mesh_rtt_us, local, now);
            let next = a.ingest(key, conditions, mesh_rtt_us, local, now);
            &&& next.notices == a.notices
            &&& next.makers[key].buffer == m.buffer && next.makers[key].pending_directive == m.pending_directive
                && next.makers[key].slots == m.slots
            &&& decision is None ==> next.events == a.events && next.makers[key] == m
            &&& decision is Some && m.pending_directive is Some ==> next.makers[key].pending_inputs is None
                && next.events == a.events.push(
                (
                    key,
                    EventView::BufferDirective {
                        buffer_turns: (m.pending_directive->0).buffer_turns,
                        apply_frame: (m.pending_directive->0).apply_at_frame,
                        decision_seq: (m.pending_directive->0).decision_seq,
                        inputs: m.pending_inputs,
                    },
                ),
            )
        }),
{
}

/// Only conditions from a slot's own relay bring its connection up; then, or without, each
/// is taken in turn, and only the authority decides by them.
pub proof fn law_only_local_conditions_bring_connections_up(
    m: MakerView,
    c: SlotConditions,
    mesh_rtt_us: u32,
    local: bool,
    now: Instant,
)
    ensures
        ({
            let one = seq![c];
            let up = if local && c.slot < 256 && c.connection_epoch is Some {
                m.activate_connection_epoch(SlotId(c.slot as u8), c.connection_epoch->0, now)
            } else {
                m
            };
            let taken = up.ingest_one(c, mesh_rtt_us, now);
            let (next, decision) = m.ingest(one, mesh_rtt_us, local, now);
            &&& m.authority == Authority::SelfRelay ==> next == taken.decide(now).0 && decision == taken.decide(now).1
            &&& m.authority != Authority::SelfRelay ==> next == taken && decision is None
        }),
{
    let one = seq![c];
    reveal_with_fuel(MakerView::activate_upto, 2);
    reveal_with_fuel(MakerView::ingest_upto, 2);
    assert(one[0] == c);
}

/// A directive past ten turns is recorded the first time its number is seen, and the
/// directive itself is taken as any other.
pub proof fn law_a_directive_past_the_ceiling_is_recorded(a: RegistryView, key: SessionKeyView, d: BufferDirective)
    requires
        a.makers.contains_key(key),
    ensures
        ({
            let m = a.makers[key];
            let next = a.observe_directive(key, d);
            let past = d.buffer_turns > 10 && m.over_ceiling_warned_seq != Some(d.decision_seq);
            &&& past ==> next.events == a.events.push(
                (
                    key,
                    EventView::OverCeilingDirectiveForwarded { buffer_turns: d.buffer_turns, decision_seq: d.decision_seq },
                ),
            ) && next.makers[key].over_ceiling_warned_seq == Some(d.decision_seq)
            &&& !past ==> next.events == a.events && next.makers[key].over_ceiling_warned_seq == m.over_ceiling_warned_seq
            &&& next.makers[key].buffer == m.observe_directive(d).buffer && next.makers[key].decision_seq
                == m.observe_directive(d).decision_seq && next.makers[key].decision_seq_tiebreak == m.observe_directive(
                d,
            ).decision_seq_tiebreak
            &&& next.notices == a.notices
        }),
{
}

/// A new session begins as described: at its lower bound, under its authority, with nobody
/// present, nothing decided, and every home rehomed where it is resumed from elsewhere.
pub proof fn law_a_session_begins_as_described(key: SessionKeyView, sync: SyncView)
    ensures
        ({
            let m = MakerView::described(key, sync);
            &&& m.key == key && m.bounds == sync.bounds && m.buffer == sync.bounds.min && m.authority == sync.authority
            &&& m.expected == sync.expected && m.homed == sync.homed && m.observers == sync.observers
            &&& m.finalized_drops_enabled == sync.finalized_drops
            &&& sync.resumed_departed is Some ==> m.rehomed_homes == sync.homed
            &&& sync.resumed_departed is None ==> m.rehomed_homes =~= Set::empty()
            &&& m.slots.dom() =~= Set::empty() && m.departures.dom() =~= Set::empty() && m.decided_leaves.dom()
                =~= Set::empty() && m.live =~= Set::empty()
            &&& !m.started && !m.resumed && m.next_leave_seq == 0 && m.decision_seq == 0
            &&& m.single_relay && m.latency_hint_ms is None && m.own_relay_id is None && m.initial_buffer_turns is None
            &&& !m.initial_directive_sent && !m.edge_burned && m.last_shrink is None && m.last_decision_frame is None
                && m.pending_directive is None
            &&& m.results.dom() =~= Set::empty() && m.connections.dom() =~= Set::empty() && m.connected =~= Set::empty()
                && m.started_slots =~= Set::empty() && m.peer_started =~= Set::empty() && m.silence_evicted
                =~= Set::empty() && m.recovered_leaves =~= Set::empty()
            &&& m.law.turn_duration_us == 41_666 && m.law.lower_step == 2 && m.law.min_dwell_turns == 120
                && m.law.shrink_headroom_us == 5_208 && m.law.loss_attack_samples == 24 && m.law.loss_memory_samples == 192
                && m.law.shrink_lookback_turns == 600
        }),
{
}

/// A session described anew takes over observers, expected and home slots; a home it did not
/// have before counts as rehomed, and an observer is no longer compared. Nothing that was
/// decided or recorded is touched.
pub proof fn law_a_new_description_takes_over(m: MakerView, sync: SyncView, slot: SlotId)
    ensures
        ({
            let next = m.redescribed(sync);
            &&& next.observers == sync.observers && next.expected == sync.expected && next.homed == sync.homed
            &&& next.rehomed_homes.contains(slot) <==> m.rehomed_homes.contains(slot) || (sync.homed.contains(slot)
                && !m.homed.contains(slot))
            &&& sync.observers.contains(slot) ==> crate::laws::comparison::forgotten(next.sync, slot)
            &&& !sync.observers.contains(slot) ==> (next.sync.members.contains_key(slot) <==> m.sync.members.contains_key(
                slot,
            ))
            &&& next.departures == m.departures && next.decided_leaves == m.decided_leaves && next.slots == m.slots
                && next.live == m.live && next.buffer == m.buffer && next.started == m.started
        }),
{
}

proof fn lemma_seeded(m: MakerView, departed: Seq<DepartedSlot>, n: int, now: Instant, i: int)
    requires
        0 <= i < n <= departed.len(),
    ensures
        m.seed_upto(departed, n, now).0.departures.contains_key(departed[i].slot),
        m.seed_upto(departed, n, now).0.decided_leaves.contains_key(departed[i].slot),
    decreases n,
{
    if i < n - 1 {
        lemma_seeded(m, departed, n - 1, now, i);
    }
}

/// A session resumed from elsewhere counts as started and resumed, and every slot that was
/// gone there is departed and decided here.
pub proof fn law_a_resumed_session_knows_who_is_gone(m: MakerView, departed: Seq<DepartedSlot>, now: Instant, i: int)
    requires
        0 <= i < departed.len(),
    ensures
        ({
            let next = m.resuming(Some(departed), now).0;
            &&& next.resumed && next.started && next.started_at is Some
            &&& next.departures.contains_key(departed[i].slot)
            &&& next.decided_leaves.contains_key(departed[i].slot)
            &&& m.resuming(None, now).0 == m && m.resuming(None, now).1.len() == 0
        }),
{
    lemma_seeded(m, departed, departed.len() as int, now, i);
}

/// A session that adopts a start elsewhere counts as started; it keeps the time it first
/// heard of a start, and takes the depth it is told, brought into range.
pub proof fn law_an_adopted_start_is_kept(m: MakerView, depth: u32, now: Instant, now_ms: u64)
    ensures
        ({
            let next = m.adopt_session_start(Some(depth), now, now_ms);
            let bare = m.adopt_session_start(None, now, now_ms);
            &&& next.started && bare.started
            &&& next.started_at == if m.started_at is Some { m.started_at } else { Some(now) }
            &&& next.started_at_ms == if m.started_at_ms is Some { m.started_at_ms } else { Some(now_ms) }
            &&& bare.started_at == next.started_at && bare.started_at_ms == next.started_at_ms
            &&& crate::laws::start::brought_in(m, depth as int, next.buffer as int)
            &&& next.initial_buffer_turns == Some(next.buffer)
            &&& bare.buffer == m.buffer && bare.initial_buffer_turns == m.initial_buffer_turns
        }),
{
}

/// Region labels are due once, and not before the delay has passed since the start.
pub proof fn law_labels_are_due_after_the_delay(m: MakerView, delay: Duration, now: Instant)
    ensures
        m.labels_due(delay, now) <==> {
            &&& !m.region_labels_released
            &&& m.started_at is Some
            &&& delay.nanos == 0 || now.nanos >= m.started_at->0.nanos + delay.nanos
        },
        m.released_labels() is Some <==> m.region_labels_released && m.region_labels.len() > 0,
        m.released_labels() is Some ==> m.released_labels()->0 == m.region_labels,
{
}

/// A slot that the watch claims is the one it named, and is marked as thrown out; where it
/// named none, nobody is.
pub proof fn law_a_claimed_slot_is_thrown_out(m: MakerView, found: Option<SilentSlot>, slot: SlotId)
    ensures
        ({
            let next = crate::ops::silence::claimed(m, found);
            &&& next.silence_evicted.contains(slot) <==> m.silence_evicted.contains(slot) || (found is Some && (
            found->0).slot == slot)
            &&& next.recovered_leaves == m.recovering().recovered_leaves
            &&& next == (MakerView {
                silence_evicted: next.silence_evicted,
                recovered_leaves: next.recovered_leaves,
                ..m
            })
        }),
{
}

/// A slot is at home here where it is among the session's homes, or the session names none.
pub proof fn law_who_is_at_home(m: MakerView, slot: SlotId)
    ensures
        m.admits_slot(slot) <==> m.homed.contains(slot) || forall|s: SlotId| !m.homed.contains(s),
{
    if forall|s: SlotId| !m.homed.contains(s) {
        assert(m.homed =~= Set::empty());
    }
}

/// The departures that may still be undone: not decided, at home here, and held.
pub proof fn law_which_departures_can_be_undone(m: MakerView, held: Set<SlotId>)
    ensures
        m.has_reconnectable_departure(held) <==> exists|s: SlotId| #[trigger]
            m.departures.contains_key(s) && !m.decided_leaves.contains_key(s) && held.contains(s) && (m.homed.contains(s)
                || forall|h: SlotId| !m.homed.contains(h)),
{
    if m.has_reconnectable_departure(held) {
        let s = choose|s: SlotId| #[trigger]
            m.departures.contains_key(s) && !m.decided_leaves.contains_key(s) && m.admits_slot(s) && held.contains(s);
        law_who_is_at_home(m, s);
        assert(m.departures.contains_key(s));
    }
    if exists|s: SlotId| #[trigger]
        m.departures.contains_key(s) && !m.decided_leaves.contains_key(s) && held.contains(s) && (m.homed.contains(s)
            || forall|h: SlotId| !m.homed.contains(h)) {
        let s = choose|s: SlotId| #[trigger]
            m.departures.contains_key(s) && !m.decided_leaves.contains_key(s) && held.contains(s) && (m.homed.contains(s)
                || forall|h: SlotId| !m.homed.contains(h));
        law_who_is_at_home(m, s);
        assert(m.departures.contains_key(s));
    }
}

/// Whether a slot is one whose turns can show how far the others got when one departs.
pub open spec fn shows_progress(slots: Map<SlotId, SlotView>, departing: SlotId, s: SlotId) -> bool {
    slots.contains_key(s) && s != departing && slots[s].frame_history.len() > 0
}

/// The frame a slot had surely reached at a turn: the furthest stamp of its turns up to
/// there, or its earliest kept stamp where all are later.
pub open spec fn surely_reached(history: Seq<(u64, u32)>, turn: int, frame: u32) -> bool {
    if exists|i: int| 0 <= i < history.len() && (#[trigger] history[i]).0 <= turn {
        &&& exists|i: int| 0 <= i < history.len() && (#[trigger] history[i]).0 <= turn && history[i].1 == frame
        &&& forall|i: int| 0 <= i < history.len() && (#[trigger] history[i]).0 <= turn ==> history[i].1 <= frame
    } else {
        frame == history[0].1
    }
}

proof fn lemma_surely_reached(history: Seq<(u64, u32)>, turn: u64, frame: u32)
    requires
        history.len() > 0,
    ensures
        surely_reached(history, turn as int, frame) <==> crate::maker::authority::is_executed(history, turn, frame),
{
    if crate::maker::authority::is_executed(history, turn, frame) {
        if exists|i: int| 0 <= i < history.len() && #[trigger] history[i] == (history[i].0, frame) && history[i].0 <= turn {
            let i = choose|i: int| 0 <= i < history.len() && #[trigger] history[i] == (history[i].0, frame) && history[i].0
                <= turn;
            assert(history[i].0 <= turn && history[i].1 == frame);
        }
    }
    if surely_reached(history, turn as int, frame) {
        if exists|i: int| 0 <= i < history.len() && (#[trigger] history[i]).0 <= turn {
            let i = choose|i: int| 0 <= i < history.len() && (#[trigger] history[i]).0 <= turn && history[i].1 == frame;
            assert(history[i] == (history[i].0, frame));
        }
    }
}

/// The reach stamped on a departure is the least that any survivor had surely reached at the
/// turn a whole buffer before the newest one any survivor sent; and there is none only where
/// no survivor's turns show any.
pub proof fn law_the_reach_is_the_slowest_survivors(
    slots: Map<SlotId, SlotView>,
    departing: SlotId,
    buffer_max: u32,
    reach: Option<u32>,
    newest: SlotId,
    slot: SlotId,
    frame: u32,
)
    requires
        crate::maker::authority::is_reachable(slots, departing, buffer_max, reach),
        shows_progress(slots, departing, newest),
        forall|s: SlotId| #[trigger]
            shows_progress(slots, departing, s) ==> slots[s].frame_history.last().0 <= slots[newest].frame_history.last().0,
    ensures
        ({
            let top = slots[newest].frame_history.last().0;
            let turn = if top >= buffer_max { top - buffer_max } else { 0 };
            &&& reach is Some
            &&& shows_progress(slots, departing, slot) && surely_reached(slots[slot].frame_history, turn, frame) ==> reach->0
                <= frame
            &&& exists|s: SlotId| #[trigger]
                shows_progress(slots, departing, s) && surely_reached(slots[s].frame_history, turn, reach->0)
        }),
{
    let top = slots[newest].frame_history.last().0;
    let turn = top.saturating_sub(buffer_max as u64);
    assert(crate::maker::authority::survives(slots, departing, newest));
    assert(reach is Some);
    let c = reach->0;
    let t = choose|t: u64|
        {
            &&& #[trigger] crate::maker::authority::is_frontier(slots, departing, Some(t))
            &&& exists|s: SlotId| #[trigger]
                crate::maker::authority::survives(slots, departing, s) && crate::maker::authority::is_executed(
                    slots[s].frame_history,
                    t.saturating_sub(buffer_max as u64),
                    c,
                )
            &&& forall|s: SlotId, f: u32|
                crate::maker::authority::survives(slots, departing, s) && #[trigger] crate::maker::authority::is_executed(
                    slots[s].frame_history,
                    t.saturating_sub(buffer_max as u64),
                    f,
                ) ==> c <= f
        };
    let far = choose|s: SlotId| #[trigger]
        crate::maker::authority::survives(slots, departing, s) && slots[s].frame_history.last().0 == t;
    assert(shows_progress(slots, departing, far));
    assert(t == top);
    let s = choose|s: SlotId| #[trigger]
        crate::maker::authority::survives(slots, departing, s) && crate::maker::authority::is_executed(
            slots[s].frame_history,
            turn,
            c,
        );
    lemma_surely_reached(slots[s].frame_history, turn, c);
    assert(shows_progress(slots, departing, s));
    if shows_progress(slots, departing, slot) && surely_reached(slots[slot].frame_history, turn as int, frame) {
        lemma_surely_reached(slots[slot].frame_history, turn, frame);
        assert(crate::maker::authority::survives(slots, departing, slot));
    }
}

proof fn lemma_joined(leaves: Seq<LeaveDirective>, seeded: Seq<LeaveDirective>, n: int)
    requires
        0 <= n <= seeded.len(),
        forall|i: int, j: int| 0 <= i < j < leaves.len() ==> (#[trigger] leaves[i]).slot != (#[trigger] leaves[j]).slot,
    ensures
        ({
            let all = crate::ops::authority::joined_leaves(leaves, seeded, n);
            &&& leaves.is_prefix_of(all)
            &&& forall|i: int, j: int| 0 <= i < j < all.len() ==> (#[trigger] all[i]).slot != (#[trigger] all[j]).slot
            &&& forall|i: int|
                0 <= i < n ==> exists|k: int| 0 <= k < all.len() && (#[trigger] all[k]).slot == (#[trigger] seeded[i]).slot
            &&& forall|k: int| leaves.len() <= k < all.len() ==> seeded.contains(#[trigger] all[k])
        }),
    decreases n,
{
    if n > 0 {
        lemma_joined(leaves, seeded, n - 1);
        let before = crate::ops::authority::joined_leaves(leaves, seeded, n - 1);
        let all = crate::ops::authority::joined_leaves(leaves, seeded, n);
        let last = seeded[n - 1];
        if crate::ops::authority::names_slot(before, last.slot) {
            let k = choose|k: int| 0 <= k < before.len() && (#[trigger] before[k]).slot == last.slot;
            assert(all[k].slot == seeded[n - 1].slot);
        } else {
            assert(all[before.len() as int] == last);
            assert(seeded.contains(last));
            assert forall|i: int| 0 <= i < n implies exists|k: int|
                0 <= k < all.len() && (#[trigger] all[k]).slot == (#[trigger] seeded[i]).slot by {
                if i < n - 1 {
                    let k = choose|k: int| 0 <= k < before.len() && (#[trigger] before[k]).slot == seeded[i].slot;
                    assert(all[k].slot == seeded[i].slot);
                } else {
                    assert(all[before.len() as int].slot == seeded[i].slot);
                }
            }
            assert forall|i: int, j: int| 0 <= i < j < all.len() implies (#[trigger] all[i]).slot != (
            #[trigger] all[j]).slot by {
                if j == before.len() {
                    assert(before[i].slot != last.slot);
                } else {
                    assert(before[i].slot != before[j].slot);
                }
            }
            assert forall|k: int| leaves.len() <= k < all.len() implies seeded.contains(#[trigger] all[k]) by {
                if k < before.len() {
                    assert(before[k] == all[k]);
                }
            }
        }
    }
}

/// The leaves a description sends are those handed over, and after them those of slots gone
/// from the start that are not named yet; no slot is named twice, none is left out.
pub proof fn law_each_leave_is_sent_once(leaves: Seq<LeaveDirective>, seeded: Seq<LeaveDirective>)
    requires
        forall|i: int, j: int| 0 <= i < j < leaves.len() ==> (#[trigger] leaves[i]).slot != (#[trigger] leaves[j]).slot,
    ensures
        ({
            let all = crate::ops::authority::joined_leaves(leaves, seeded, seeded.len() as int);
            &&& leaves.is_prefix_of(all)
            &&& forall|i: int, j: int| 0 <= i < j < all.len() ==> (#[trigger] all[i]).slot != (#[trigger] all[j]).slot
            &&& forall|i: int|
                0 <= i < seeded.len() ==> exists|k: int|
                    0 <= k < all.len() && (#[trigger] all[k]).slot == (#[trigger] seeded[i]).slot
            &&& forall|k: int| leaves.len() <= k < all.len() ==> seeded.contains(#[trigger] all[k])
        }),
{
    lemma_joined(leaves, seeded, seeded.len() as int);
}

proof fn lemma_told_all(a: RegistryView, key: SessionKeyView, leaves: Seq<LeaveDirective>, n: int)
    requires
        a.makers.contains_key(key),
        0 <= n <= leaves.len(),
    ensures
        ({
            let next = a.announcing_all(key, leaves, n);
            &&& next.makers == a.makers && next.refs == a.refs
            &&& next.notices.len() == a.notices.len() + n
            &&& next.events.len() == a.events.len() + n
            &&& a.notices.is_prefix_of(next.notices) && a.events.is_prefix_of(next.events)
            &&& forall|i: int|
                0 <= i < n ==> next.events[a.events.len() + i] == (key, EventView::LeaveDecided { leave: #[trigger] leaves[i] })
                    && next.notices[a.notices.len() + i] is Departure && tells_the_leave(
                    next.notices[a.notices.len() + i]->Departure_0,
                    a,
                    key,
                    SlotId(leaves[i].slot as u8),
                    leaves[i],
                    a.makers[key],
                )
        }),
    decreases n,
{
    if n > 0 {
        lemma_told_all(a, key, leaves, n - 1);
        let before = a.announcing_all(key, leaves, n - 1);
        let next = a.announcing_all(key, leaves, n);
        assert forall|i: int| 0 <= i < n implies next.events[a.events.len() + i] == (
            key,
            EventView::LeaveDecided { leave: #[trigger] leaves[i] },
        ) && next.notices[a.notices.len() + i] is Departure && tells_the_leave(
            next.notices[a.notices.len() + i]->Departure_0,
            a,
            key,
            SlotId(leaves[i].slot as u8),
            leaves[i],
            a.makers[key],
        ) by {
            if i < n - 1 {
                assert(next.events[a.events.len() + i] == before.events[a.events.len() + i]);
                assert(next.notices[a.notices.len() + i] == before.notices[a.notices.len() + i]);
            } else {
                assert(next == before.announcing(key, leaves[i]));
                assert(next.notices.last() == next.notices[a.notices.len() + i]);
            }
        }
    }
}

/// Leaves that are decided together are recorded and told one by one, in order.
pub proof fn law_leaves_are_told_in_order(a: RegistryView, key: SessionKeyView, leaves: Seq<LeaveDirective>, i: int)
    requires
        a.makers.contains_key(key),
        0 <= i < leaves.len(),
    ensures
        ({
            let next = a.announcing_all(key, leaves, leaves.len() as int);
            &&& next.notices.len() == a.notices.len() + leaves.len()
            &&& next.events.len() == a.events.len() + leaves.len()
            &&& next.events[a.events.len() + i] == (key, EventView::LeaveDecided { leave: leaves[i] })
            &&& next.notices[a.notices.len() + i] is Departure
            &&& tells_the_leave(
                next.notices[a.notices.len() + i]->Departure_0,
                a,
                key,
                SlotId(leaves[i].slot as u8),
                leaves[i],
                a.makers[key],
            )
        }),
{
    lemma_told_all(a, key, leaves, leaves.len() as int);
}

/// What a description makes of a session: a new one begins as described, with whoever was
/// gone from the start decided and nothing told of it; a known one takes over the bounds and
/// the authority, and of the leaves that this decides each is told.
pub proof fn law_what_a_description_makes(a: RegistryView, key: SessionKeyView, sync: SyncView, now: Instant)
    ensures
        ({
            let next = a.sync_maker(key, sync, now).0;
            &&& next.makers.contains_key(key)
            &&& next.makers[key].authority == sync.authority
            &&& next.makers[key].bounds == sync.bounds
            &&& next.makers[key].expected == sync.expected && next.makers[key].homed == sync.homed
                && next.makers[key].observers == sync.observers
            &&& next.refs == a.refs
            &&& !a.makers.contains_key(key) ==> next.notices == a.notices && next.events == a.events
            &&& sync.resumed_departed is Some ==> next.makers[key].resumed && next.makers[key].started
        }),
{
    if a.makers.contains_key(key) {
        let m = a.makers[key];
        let ready = m.reseeded(sync, now).bounded(sync.bounds);
        let fresh = ready.fresh_leaves(sync.authority, sync.held, now);
        let handed = ready.handoff(sync.held);
        lemma_told_all(
            a.with_maker(key, ready.set_authority(sync.authority, sync.held, now)),
            key,
            fresh,
            fresh.len() as int,
        );
        lemma_leaves_keep_the_seat(ready.reseated(sync.authority), handed, handed.len() as int, now);
        if sync.resumed_departed is Some {
            let departed = sync.resumed_departed->0;
            lemma_seeds_keep_the_seat(m.redescribed(sync), departed, departed.len() as int, now);
        }
    } else {
        if sync.resumed_departed is Some {
            let departed = sync.resumed_departed->0;
            lemma_seeds_keep_the_seat(MakerView::described(key, sync), departed, departed.len() as int, now);
        }
    }
}

proof fn lemma_leaves_keep_the_seat(m: MakerView, slots: Seq<(SlotId, u32)>, n: int, now: Instant)
    ensures
        m.decide_leaves(slots, n, now).0.authority == m.authority,
        m.decide_leaves(slots, n, now).0.bounds == m.bounds,
        m.decide_leaves(slots, n, now).0.resumed == m.resumed,
        m.decide_leaves(slots, n, now).0.started == m.started,
        m.decide_leaves(slots, n, now).0.expected == m.expected,
        m.decide_leaves(slots, n, now).0.homed == m.homed,
        m.decide_leaves(slots, n, now).0.observers == m.observers,
    decreases n,
{
    if n > 0 {
        lemma_leaves_keep_the_seat(m, slots, n - 1, now);
    }
}

proof fn lemma_seeds_keep_the_seat(m: MakerView, departed: Seq<DepartedSlot>, n: int, now: Instant)
    ensures
        m.seed_upto(departed, n, now).0.authority == m.authority,
        m.seed_upto(departed, n, now).0.bounds == m.bounds,
        m.seed_upto(departed, n, now).0.expected == m.expected,
        m.seed_upto(departed, n, now).0.homed == m.homed,
        m.seed_upto(departed, n, now).0.observers == m.observers,
    decreases n,
{
    if n > 0 {
        lemma_seeds_keep_the_seat(m, departed, n - 1, now);
    }
}

} // verus!
