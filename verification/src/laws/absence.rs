//! Laws over any run of operations: whoever is out of a session holds its comparison up no
//! more.
use crate::ids::SessionKeyView;
use crate::ids::SlotId;
use crate::law::ControlLaw;
use crate::laws::session::Control;
use crate::laws::session::Leave;
use crate::laws::session::Link;
use crate::laws::session::Note;
use crate::laws::session::Setup;
use crate::laws::session::Step;
use crate::laws::session::Traffic;
use crate::maker::departure::StampsView;
use crate::maker::MakerView;
use crate::sync::tracker::SyncReport;
use crate::sync::tracker::TrackerView;
use crate::sync::turns::SyncGap;
use crate::sync::turns::SyncTurn;
use crate::time::Instant;
use crate::wire::Authority;
use crate::wire::BufferBounds;
use crate::wire::DepartedSlot;
use crate::wire::DepartureKind;
use crate::wire::LeaveDirective;
use crate::wire::SlotConditions;
use crate::wire::LEAVE_REASON_DROPPED;
use vstd::prelude::*;

verus! {

/// Whether a slot is out of the comparison: it has departed, only observes, or was put out.
pub open spec fn is_absent(m: MakerView, slot: SlotId) -> bool {
    m.departures.contains_key(slot) || m.observers.contains(slot) || m.sync.excluded.contains(slot)
}

/// Whether the comparator waits for no slot that is out of the comparison, and holds nothing
/// that one reported.
pub open spec fn quiet(m: MakerView) -> bool {
    forall|s: SlotId| #[trigger] is_absent(m, s) ==> crate::laws::comparison::forgotten(m.sync, s)
}

/// Whether going from `a` to `b` leaves a quiet comparator quiet.
#[verifier::opaque]
spec fn hushed(a: MakerView, b: MakerView) -> bool {
    quiet(a) ==> quiet(b)
}

proof fn lemma_hushed_chain(a: MakerView, b: MakerView, c: MakerView)
    requires
        hushed(a, b),
        hushed(b, c),
    ensures
        hushed(a, c),
{
    reveal(hushed);
}

/// Whether `b` compares the same as `a`, and nobody departed on the way.
spec fn same_watch(a: MakerView, b: MakerView) -> bool {
    &&& b.sync == a.sync
    &&& b.observers == a.observers
    &&& forall|s: SlotId| #[trigger] b.departures.contains_key(s) ==> a.departures.contains_key(s)
}

proof fn lemma_same_watch(a: MakerView, b: MakerView)
    requires
        same_watch(a, b),
    ensures
        hushed(a, b),
{
    reveal(hushed);
    if quiet(a) {
        assert forall|s: SlotId| #[trigger] is_absent(b, s) implies crate::laws::comparison::forgotten(b.sync, s) by {
            assert(is_absent(a, s));
        }
    }
}

proof fn lemma_departure(m: MakerView, slot: SlotId, stamps: StampsView, reason: u32, epoch: Option<u64>)
    ensures
        hushed(m, m.note_departure(slot, stamps, reason, epoch)),
{
    reveal(hushed);
    let next = m.note_departure(slot, stamps, reason, epoch);
    crate::laws::comparison::law_a_departed_slot_is_not_compared(m, slot, stamps, reason, epoch);
    if quiet(m) {
        assert forall|s: SlotId| #[trigger] is_absent(next, s) implies crate::laws::comparison::forgotten(next.sync, s) by {
            if s != slot {
                assert(is_absent(m, s));
                lemma_removed(m.sync, slot, s);
            }
        }
    }
}

proof fn lemma_removed(t: TrackerView, slot: SlotId, s: SlotId)
    requires
        crate::laws::comparison::forgotten(t, s),
    ensures
        crate::laws::comparison::forgotten(t.remove_member(slot), s),
{
}

proof fn lemma_exclude(t: TrackerView, out: Set<SlotId>, s: SlotId)
    ensures
        out.contains(s) || crate::laws::comparison::forgotten(t, s) ==> crate::laws::comparison::forgotten(
            t.remove_members(out),
            s,
        ),
{
}

proof fn lemma_ready(t: TrackerView, margin: u64, s: SlotId)
    ensures
        ({
            let next = t.evaluate_ready(margin).0;
            &&& crate::laws::comparison::forgotten(t, s) ==> crate::laws::comparison::forgotten(next, s)
            &&& next.excluded.contains(s) ==> t.excluded.contains(s) || crate::laws::comparison::forgotten(next, s)
        }),
    decreases u64::MAX - t.base,
{
    if margin == 0 || t.base == u64::MAX || !t.margin_reached(margin) {
    } else if !t.base_required() {
        lemma_ready(t.advanced(), margin, s);
    } else if t.base_complete() {
        let row = crate::sync::tracker::row_at(t.pending, t.base);
        if t.advanced().verdict(t.base, row) is Some {
            lemma_exclude(t.advanced(), crate::sync::tracker::outvoted(row, t.base), s);
        } else {
            lemma_ready(t.advanced(), margin, s);
        }
    }
}

proof fn lemma_evict(t: TrackerView, n: nat, s: SlotId)
    ensures
        crate::laws::comparison::forgotten(t, s) ==> crate::laws::comparison::forgotten(t.evict(n), s),
        t.evict(n).excluded == t.excluded,
    decreases n,
{
    if n > 0 {
        lemma_evict(t, (n - 1) as nat, s);
    }
}

proof fn lemma_noted(t: TrackerView, slot: SlotId, ordinal: u64, report: SyncReport, skipped: Option<SyncGap>, s: SlotId)
    requires
        s != slot,
        crate::laws::comparison::forgotten(t, s),
    ensures
        crate::laws::comparison::forgotten(t.joined(slot, ordinal), s),
        crate::laws::comparison::forgotten(t.noted(slot, ordinal, report, skipped), s),
{
}

proof fn lemma_record(
    t: TrackerView,
    slot: SlotId,
    ordinal: u64,
    report: SyncReport,
    skipped: Option<SyncGap>,
    margin: u64,
    s: SlotId,
)
    requires
        s != slot || t.excluded.contains(s),
        crate::laws::comparison::forgotten(t, s) || !t.excluded.contains(s),
    ensures
        ({
            let next = t.record(slot, ordinal, report, skipped, margin).0;
            &&& crate::laws::comparison::forgotten(t, s) ==> crate::laws::comparison::forgotten(next, s)
            &&& next.excluded.contains(s) ==> crate::laws::comparison::forgotten(next, s)
        }),
{
    if t.admits(slot, report) && ordinal >= t.joined(slot, ordinal).base {
        let noted = t.noted(slot, ordinal, report, skipped);
        let ready = noted.evaluate_ready(margin).0;
        let held = ready.pending.dom().len();
        let over = if held > 64 { (held - 64) as nat } else { 0 };
        if crate::laws::comparison::forgotten(t, s) {
            lemma_noted(t, slot, ordinal, report, skipped, s);
        }
        lemma_ready(noted, margin, s);
        lemma_evict(ready, over, s);
    } else if t.admits(slot, report) && crate::laws::comparison::forgotten(t, s) {
        lemma_noted(t, slot, ordinal, report, skipped, s);
    }
}

proof fn lemma_own_record(t: TrackerView, slot: SlotId, ordinal: u64, report: SyncReport, skipped: Option<SyncGap>, margin: u64)
    requires
        !t.excluded.contains(slot),
    ensures
        ({
            let next = t.record(slot, ordinal, report, skipped, margin).0;
            next.excluded.contains(slot) ==> crate::laws::comparison::forgotten(next, slot)
        }),
{
    if t.admits(slot, report) && ordinal >= t.joined(slot, ordinal).base {
        let noted = t.noted(slot, ordinal, report, skipped);
        let ready = noted.evaluate_ready(margin).0;
        let held = ready.pending.dom().len();
        let over = if held > 64 { (held - 64) as nat } else { 0 };
        lemma_ready(noted, margin, slot);
        lemma_evict(ready, over, slot);
    }
}

proof fn lemma_compared(m: MakerView, slot: SlotId, turn: SyncTurn)
    requires
        !m.observers.contains(slot),
    ensures
        hushed(m, m.compare_sync_turn(slot, turn).0),
        m.compare_sync_turn(slot, turn).0.observers == m.observers,
{
    reveal(hushed);
    let next = m.compare_sync_turn(slot, turn).0;
    let sync = m.bounded_sync();
    if quiet(m) {
        assert forall|s: SlotId| #[trigger] is_absent(next, s) implies crate::laws::comparison::forgotten(next.sync, s) by {
            if is_absent(m, s) {
                assert(crate::laws::comparison::forgotten(sync, s));
            }
            if m.is_authority() && !m.departures.contains_key(slot) && !sync.dormant && turn.command is Some
                && turn.ordinal is Some {
                let command = turn.command->0;
                let report = SyncReport { kind: command.kind, value: command.value, game_frame: turn.frame };
                let margin = crate::sync::eval_margin(m.bounds.max);
                if s == slot && !sync.excluded.contains(slot) {
                    lemma_own_record(sync, slot, turn.ordinal->0, report, turn.skipped, margin);
                } else {
                    if sync.excluded.contains(s) {
                        assert(is_absent(m, s));
                    }
                    lemma_record(sync, slot, turn.ordinal->0, report, turn.skipped, margin, s);
                }
            }
        }
    }
}

proof fn lemma_without_member(m: MakerView, slot: SlotId)
    ensures
        hushed(m, m.without_member(slot)),
{
    reveal(hushed);
    let next = m.without_member(slot);
    if quiet(m) {
        assert forall|s: SlotId| #[trigger] is_absent(next, s) implies crate::laws::comparison::forgotten(next.sync, s) by {
            assert(is_absent(m, s));
            lemma_removed(m.sync, slot, s);
        }
    }
}

proof fn lemma_drained(m: MakerView, slot: SlotId)
    requires
        !m.observers.contains(slot),
    ensures
        hushed(m, m.drain_sync(slot).0),
    decreases u64::MAX - m.origin(slot).next,
{
    let popped = m.with_origin(slot, m.origin(slot).pop());
    lemma_same_watch(m, popped);
    lemma_same_watch(m, m);
    let (next, verdict) = m.sync_step(slot);
    match m.origin(slot).popped() {
        Ok(None) => {},
        Err(_) => {
            lemma_without_member(popped, slot);
            lemma_hushed_chain(m, popped, next);
        },
        Ok(Some(turn)) => {
            lemma_compared(popped, slot, turn);
            lemma_hushed_chain(m, popped, next);
        },
    }
    if m.sync_continues(slot) && verdict is None {
        lemma_drained(next, slot);
        lemma_hushed_chain(m, next, m.drain_sync(slot).0);
    }
}

proof fn lemma_observed(m: MakerView, slot: SlotId, seq: u64, turn: SyncTurn)
    ensures
        hushed(m, m.observe_sync(slot, seq, turn).0),
{
    let pushed = m.with_origin(slot, m.origin(slot).push(seq, turn));
    lemma_same_watch(m, pushed);
    lemma_same_watch(m, m);
    if m.follows_sync(slot) {
        match m.origin(slot).pushed(seq, turn) {
            Ok(None) => {
                lemma_drained(pushed, slot);
                lemma_hushed_chain(m, pushed, m.observe_sync(slot, seq, turn).0);
            },
            Err(_) => {
                lemma_without_member(pushed, slot);
                lemma_hushed_chain(m, pushed, m.observe_sync(slot, seq, turn).0);
            },
            Ok(Some(read)) => {
                let compared = pushed.compare_sync_turn(slot, read).0;
                lemma_compared(pushed, slot, read);
                lemma_hushed_chain(m, pushed, compared);
                lemma_drained(compared, slot);
                lemma_hushed_chain(m, compared, compared.drain_sync(slot).0);
            },
        }
    }
}

proof fn lemma_traffic(m: MakerView, step: Traffic)
    ensures
        hushed(m, crate::laws::session::after_traffic(m, step)),
{
    match step {
        Traffic::Report(slot, seq, turn) => {
            lemma_observed(m, slot, seq, turn);
        },
        _ => {
            lemma_same_watch(m, crate::laws::session::after_traffic(m, step));
        },
    }
}

proof fn lemma_decide(m: MakerView, now: Instant)
    ensures
        same_watch(m, m.decide(now).0),
{
    match (m.session_frame(), m.target_inputs()) {
        (Some(frame), Some(inputs)) => {
            let extra = m.delivery.cushion_turns.saturating_add(m.phase.stretch_turns(now));
            let target = inputs.target.saturating_add(extra);
            let shrink_target = inputs.shrink_target.saturating_add(extra);
            let noted = m.noting_target(frame.0, target, now);
            assert(same_watch(m, noted));
            assert(same_watch(noted, noted.proposal(frame.0, target, shrink_target).0));
            assert(same_watch(m, m.steer(frame, inputs, now).0));
        },
        _ => {},
    }
}

proof fn lemma_ingest_upto(m: MakerView, conditions: Seq<SlotConditions>, mesh_rtt_us: u32, n: int, now: Instant)
    ensures
        same_watch(m, m.ingest_upto(conditions, mesh_rtt_us, n, now)),
    decreases n,
{
    if n > 0 {
        lemma_ingest_upto(m, conditions, mesh_rtt_us, n - 1, now);
    }
}

proof fn lemma_activate_upto(m: MakerView, conditions: Seq<SlotConditions>, n: int, now: Instant)
    ensures
        same_watch(m, m.activate_upto(conditions, n, now)),
    decreases n,
{
    if n > 0 {
        lemma_activate_upto(m, conditions, n - 1, now);
    }
}

proof fn lemma_ingest(m: MakerView, conditions: Seq<SlotConditions>, mesh_rtt_us: u32, local: bool, now: Instant)
    ensures
        hushed(m, m.ingest(conditions, mesh_rtt_us, local, now).0),
{
    lemma_activate_upto(m, conditions, conditions.len() as int, now);
    let ready = if local { m.activate_local_epochs(conditions, now) } else { m };
    lemma_ingest_upto(ready, conditions, mesh_rtt_us, conditions.len() as int, now);
    let ingested = ready.ingest_upto(conditions, mesh_rtt_us, conditions.len() as int, now);
    lemma_decide(ingested, now);
    lemma_same_watch(m, ingested);
    lemma_same_watch(ingested, ingested.decide(now).0);
    lemma_hushed_chain(m, ingested, ingested.decide(now).0);
}

proof fn lemma_deciding(m: MakerView, slot: SlotId, directive: LeaveDirective, now: Instant)
    ensures
        hushed(m, m.deciding(slot, directive, now)),
{
    lemma_same_watch(m, m.deciding(slot, directive, now));
}

proof fn lemma_decided(m: MakerView, slot: SlotId, reason: u32, now: Instant)
    ensures
        hushed(m, m.decide_leave(slot, reason, now)),
        hushed(m, m.force_decide_leave(slot, reason, now)),
{
    let departed = m.departing(slot, reason);
    lemma_departure(m, slot, StampsView::blank(), reason, None);
    if m.is_authority() && departed.committed(slot, reason) is Some {
        lemma_deciding(departed, slot, departed.committed(slot, reason)->0, now);
        lemma_hushed_chain(m, departed, m.decide_leave(slot, reason, now));
    }
    if m.forced_decision(slot, reason) is Some {
        lemma_deciding(departed, slot, m.forced_decision(slot, reason)->0, now);
        lemma_hushed_chain(m, departed, m.force_decide_leave(slot, reason, now));
    }
}

proof fn lemma_decide_leaves(m: MakerView, slots: Seq<(SlotId, u32)>, n: int, now: Instant)
    ensures
        hushed(m, m.decide_leaves(slots, n, now).0),
        hushed(m, m.force_decide_leaves(slots, n, now).0),
    decreases n,
{
    lemma_same_watch(m, m);
    if n > 0 {
        lemma_decide_leaves(m, slots, n - 1, now);
        let (slot, reason) = slots[n - 1];
        let a = m.decide_leaves(slots, n - 1, now).0;
        let b = m.force_decide_leaves(slots, n - 1, now).0;
        lemma_decided(a, slot, reason, now);
        lemma_decided(b, slot, reason, now);
        lemma_hushed_chain(m, a, a.decide_leave(slot, reason, now));
        lemma_hushed_chain(m, b, b.force_decide_leave(slot, reason, now));
    }
}

proof fn lemma_set_authority(m: MakerView, authority: Authority, held: Set<SlotId>, now: Instant)
    ensures
        hushed(m, m.set_authority(authority, held, now)),
{
    let reseated = m.reseated(authority);
    assert(hushed(m, reseated)) by {
        reveal(hushed);
        if quiet(m) {
            assert forall|s: SlotId| #[trigger] is_absent(reseated, s) implies crate::laws::comparison::forgotten(
                reseated.sync,
                s,
            ) by {
                if m.authority == authority || authority == Authority::Peer {
                    assert(is_absent(m, s));
                }
            }
        }
    }
    let handed = m.handoff(held);
    lemma_decide_leaves(reseated, handed, handed.len() as int, now);
    lemma_hushed_chain(m, reseated, reseated.decide_leaves(handed, handed.len() as int, now).0);
}

proof fn lemma_control(m: MakerView, step: Control)
    ensures
        hushed(m, crate::laws::session::after_control(m, step)),
{
    match step {
        Control::IngestLocal(conditions, now) => {
            lemma_ingest(m, conditions, 0, true, now);
        },
        Control::IngestRemote(conditions, mesh_rtt_us, now) => {
            lemma_ingest(m, conditions, mesh_rtt_us, false, now);
        },
        Control::Sync(bounds, authority, held, now) => {
            lemma_same_watch(m, m.bounded(bounds));
            lemma_set_authority(m.bounded(bounds), authority, held, now);
            lemma_hushed_chain(m, m.bounded(bounds), m.bounded(bounds).set_authority(authority, held, now));
        },
        Control::SetAuthority(authority, held, now) => {
            lemma_set_authority(m, authority, held, now);
        },
        _ => {
            lemma_same_watch(m, crate::laws::session::after_control(m, step));
        },
    }
}

proof fn lemma_observing(m: MakerView, b: MakerView, observers: Set<SlotId>)
    requires
        b.observers == observers,
        b.sync == m.sync.remove_members(observers),
        b.departures == m.departures,
    ensures
        hushed(m, b),
{
    reveal(hushed);
    if quiet(m) {
        assert forall|s: SlotId| #[trigger] is_absent(b, s) implies crate::laws::comparison::forgotten(b.sync, s) by {
            if !observers.contains(s) {
                assert(is_absent(m, s));
            }
            lemma_exclude(m.sync, observers, s);
        }
    }
}

proof fn lemma_setup(m: MakerView, step: Setup)
    ensures
        hushed(m, crate::laws::session::after_setup(m, step)),
{
    match step {
        Setup::Describe(sync) => {
            lemma_observing(m, m.redescribed(sync), sync.observers);
        },
        Setup::Observers(observers) => {
            lemma_observing(m, crate::laws::session::after_setup(m, step), observers);
        },
        _ => {
            lemma_same_watch(m, crate::laws::session::after_setup(m, step));
        },
    }
}

proof fn lemma_link(m: MakerView, step: Link)
    ensures
        hushed(m, crate::laws::session::after_link(m, step)),
{
    lemma_same_watch(m, crate::laws::session::after_link(m, step));
}

proof fn lemma_leave_heard_of(m: MakerView, leave: LeaveDirective, now: Instant)
    ensures
        hushed(m, m.observe_leave(leave, now)),
{
    let kept = crate::maker::departure::normalized_leave(leave, m.finalized_drops_enabled);
    let slot = SlotId(kept.slot as u8);
    if leave.slot <= 255 && m.leave_is_new(kept) {
        let keeping = m.keeping_leave(slot, kept, now);
        let stamps = m.observed_stamps(slot, kept);
        let departed = keeping.note_departure(slot, stamps, kept.reason, None);
        lemma_same_watch(m, keeping);
        lemma_departure(keeping, slot, stamps, kept.reason, None);
        lemma_hushed_chain(m, keeping, departed);
        lemma_same_watch(departed, departed.forgetting(slot));
        lemma_hushed_chain(m, departed, departed.forgetting(slot));
    } else {
        lemma_same_watch(m, m.observe_leave(leave, now));
    }
}

proof fn lemma_departed(m: MakerView, slot: SlotId, stamps: StampsView, reason: u32, epoch: Option<u64>)
    ensures
        hushed(m, m.note_departure(slot, stamps, reason, epoch).forgetting(slot)),
        hushed(m, m.record_departure_outcome(slot, stamps, reason, epoch)),
{
    let own = m.note_departure(slot, stamps, reason, epoch);
    lemma_departure(m, slot, stamps, reason, epoch);
    lemma_same_watch(own, own.forgetting(slot));
    lemma_hushed_chain(m, own, own.forgetting(slot));
    if m.decided_leaves.contains_key(slot) {
        let again = m.note_departure(slot, stamps, reason, None);
        lemma_departure(m, slot, stamps, reason, None);
        lemma_same_watch(again, again.forgetting(slot));
        lemma_hushed_chain(m, again, again.forgetting(slot));
    } else if m.down_accepted(slot, epoch) {
        let down = m.mark_connection_down(slot, epoch);
        let departed = down.note_departure(slot, stamps, reason, epoch);
        lemma_same_watch(m, down);
        lemma_departure(down, slot, stamps, reason, epoch);
        lemma_hushed_chain(m, down, departed);
        lemma_same_watch(departed, departed.forgetting(slot));
        lemma_hushed_chain(m, departed, departed.forgetting(slot));
    } else {
        lemma_same_watch(m, m);
    }
}

proof fn lemma_seeded(m: MakerView, slot: SlotId, kind: DepartureKind, count: Option<u64>, finalized: bool, now: Instant)
    ensures
        hushed(m, m.seed_departed(slot, kind, count, finalized, now)),
{
    let stamps = StampsView {
        final_turn_count: m.seed_count(kind, count, finalized),
        finalized: m.seed_finalized(kind, finalized),
        ..StampsView::blank()
    };
    let seeded = m.seeding(slot, kind, count, finalized);
    lemma_departure(m, slot, stamps, crate::maker::leave::reason_for(kind), None);
    if m.seed_directive(slot, kind, count, finalized) is Some {
        lemma_deciding(seeded, slot, m.seed_directive(slot, kind, count, finalized)->0, now);
        lemma_hushed_chain(m, seeded, m.seed_departed(slot, kind, count, finalized, now));
    }
}

proof fn lemma_seed_upto(m: MakerView, departed: Seq<DepartedSlot>, n: int, now: Instant)
    ensures
        hushed(m, m.seed_upto(departed, n, now).0),
    decreases n,
{
    lemma_same_watch(m, m);
    if n > 0 {
        lemma_seed_upto(m, departed, n - 1, now);
        let before = m.seed_upto(departed, n - 1, now).0;
        let d = departed[n - 1];
        lemma_seeded(before, d.slot, d.kind, d.final_turn_count, d.finalized, now);
        lemma_hushed_chain(m, before, m.seed_upto(departed, n, now).0);
    }
}

proof fn lemma_resumed(m: MakerView, departed: Seq<DepartedSlot>, now: Instant)
    ensures
        hushed(m, m.resuming(Some(departed), now).0),
{
    let seeded = m.seed_upto(departed, departed.len() as int, now).0;
    lemma_seed_upto(m, departed, departed.len() as int, now);
    lemma_same_watch(seeded, m.resuming(Some(departed), now).0);
    lemma_hushed_chain(m, seeded, m.resuming(Some(departed), now).0);
}

proof fn lemma_finalizing(m: MakerView, slot: SlotId, epoch: Option<u64>, count: Option<u64>)
    ensures
        hushed(m, m.seal_for_finalize(slot, epoch)),
        hushed(m, m.finish_finalize(slot, count)),
{
    lemma_same_watch(m, m.seal_for_finalize(slot, epoch));
    if count is Some {
        lemma_departure(
            m,
            slot,
            StampsView { final_turn_count: count, finalized: true, ..StampsView::blank() },
            LEAVE_REASON_DROPPED,
            None,
        );
    } else {
        lemma_same_watch(m, m.finish_finalize(slot, count));
    }
}

proof fn lemma_leave(m: MakerView, step: Leave)
    ensures
        hushed(m, crate::laws::session::after_leave(m, step)),
{
    match step {
        Leave::Observe(leave, now) => {
            lemma_leave_heard_of(m, leave, now);
        },
        Leave::Decide(slot, reason, now) => {
            lemma_decided(m, slot, reason, now);
        },
        Leave::ForceDecide(slot, reason, now) => {
            lemma_decided(m, slot, reason, now);
        },
        Leave::ForceUndecided(now) => {
            let slots = m.with_reasons(m.undecided());
            lemma_decide_leaves(m, slots, slots.len() as int, now);
        },
        Leave::Departure(slot, stamps, reason) => {
            lemma_departed(m, slot, stamps, reason, None);
        },
        Leave::DepartureForEpoch(slot, stamps, reason, epoch) => {
            lemma_departed(m, slot, stamps, reason, epoch);
        },
        Leave::Seed(slot, kind, count, finalized, now) => {
            lemma_seeded(m, slot, kind, count, finalized, now);
        },
        Leave::Resume(departed, now) => {
            lemma_resumed(m, departed, now);
        },
        Leave::Seal(slot, epoch) => {
            lemma_finalizing(m, slot, epoch, None);
        },
        Leave::Finish(slot, count) => {
            lemma_finalizing(m, slot, None, count);
        },
    }
}

proof fn lemma_note(m: MakerView, step: Note)
    ensures
        hushed(m, crate::laws::session::after_note(m, step)),
{
    lemma_same_watch(m, crate::laws::session::after_note(m, step));
}

/// No operation brings a slot that is out of the comparison back into it.
pub proof fn law_every_step_stays_quiet(m: MakerView, step: Step)
    requires
        quiet(m),
    ensures
        quiet(crate::laws::session::after(m, step)),
{
    reveal(crate::laws::session::after);
    reveal(hushed);
    match step {
        Step::Traffic(t) => {
            lemma_traffic(m, t);
        },
        Step::Control(c) => {
            lemma_control(m, c);
        },
        Step::Setup(s) => {
            lemma_setup(m, s);
        },
        Step::Link(l) => {
            lemma_link(m, l);
        },
        Step::Leave(l) => {
            lemma_leave(m, l);
        },
        Step::Note(n) => {
            lemma_note(m, n);
        },
    }
}

proof fn lemma_stays_quiet(m: MakerView, steps: Seq<Step>)
    requires
        quiet(m),
    ensures
        quiet(crate::laws::session::after_all(m, steps)),
    decreases steps.len(),
{
    if steps.len() > 0 {
        lemma_stays_quiet(m, steps.drop_last());
        law_every_step_stays_quiet(crate::laws::session::after_all(m, steps.drop_last()), steps.last());
    }
}

/// However a session runs, the comparator never waits for a slot that has departed, that
/// only observes or that was put out, and holds nothing that one reported.
pub proof fn law_the_absent_are_never_waited_for(
    key: SessionKeyView,
    bounds: BufferBounds,
    law: ControlLaw,
    authority: Authority,
    observers: Set<SlotId>,
    steps: Seq<Step>,
    slot: SlotId,
    ordinal: u64,
)
    ensures
        ({
            let m = crate::laws::session::after_all(MakerView::fresh(key, bounds, law, authority, observers), steps);
            m.departures.contains_key(slot) || m.observers.contains(slot) || m.sync.excluded.contains(slot) ==> {
                &&& !m.sync.members.contains_key(slot)
                &&& m.sync.pending.contains_key(ordinal) ==> !m.sync.pending[ordinal].contains_key(slot)
            }
        }),
{
    let begun = MakerView::fresh(key, bounds, law, authority, observers);
    let m = crate::laws::session::after_all(begun, steps);
    assert(quiet(begun));
    lemma_stays_quiet(begun, steps);
    if is_absent(m, slot) {
        assert(crate::laws::comparison::forgotten(m.sync, slot));
    }
}

} // verus!
