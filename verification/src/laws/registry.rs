//! Laws of the registry: sessions apart from each other, and what is reported of them.
use crate::ids::GameFrameCount;
use crate::ids::SessionKeyView;
use crate::ids::SlotId;
use crate::maker::MakerView;
use crate::ops::authority::SyncView;
use crate::registry::RegistryView;
use crate::sync::turns::SyncTurn;
use crate::time::Instant;
use crate::wire::Authority;
use crate::wire::BufferDirective;
use crate::wire::LeaveDirective;
use crate::wire::SlotConditions;
use vstd::prelude::*;

verus! {

/// Whether going from `a` to `b` touched no session but `key`'s, and lost nothing that was
/// still to be reported.
pub open spec fn stays_with(a: RegistryView, b: RegistryView, key: SessionKeyView) -> bool {
    &&& forall|k: SessionKeyView| k != key ==> #[trigger] b.maker(k) == a.maker(k)
    &&& b.refs == a.refs
    &&& a.notices.is_prefix_of(b.notices)
    &&& a.events.is_prefix_of(b.events)
}

proof fn lemma_announcing_all(a: RegistryView, key: SessionKeyView, leaves: Seq<LeaveDirective>, n: int)
    requires
        n <= leaves.len(),
    ensures
        a.announcing_all(key, leaves, n).makers == a.makers,
        a.announcing_all(key, leaves, n).refs == a.refs,
        a.notices.is_prefix_of(a.announcing_all(key, leaves, n).notices),
        a.events.is_prefix_of(a.announcing_all(key, leaves, n).events),
        n >= 0 ==> a.announcing_all(key, leaves, n).notices.len() == a.notices.len() + n,
    decreases n,
{
    if n > 0 {
        lemma_announcing_all(a, key, leaves, n - 1);
    }
}

/// What the turn stream brings stays within its session.
pub proof fn law_traffic_stays_in_its_session(
    a: RegistryView,
    key: SessionKeyView,
    slot: SlotId,
    seq: u64,
    frame: GameFrameCount,
    turn: SyncTurn,
    directive: BufferDirective,
    now_ms: u64,
)
    ensures
        stays_with(a, a.observe_turn_frame(key, slot, seq, frame), key),
        stays_with(a, a.observe_sync(key, slot, seq, turn, now_ms), key),
        stays_with(a, a.observe_directive(key, directive), key),
{
}

proof fn lemma_with_maker(a: RegistryView, key: SessionKeyView, m: MakerView)
    ensures
        stays_with(a, a.with_maker(key, m), key),
{
}

proof fn lemma_chain(a: RegistryView, b: RegistryView, c: RegistryView, key: SessionKeyView)
    requires
        stays_with(a, b, key),
        stays_with(b, c, key),
    ensures
        stays_with(a, c, key),
{
}

proof fn lemma_announced(a: RegistryView, key: SessionKeyView, m: MakerView, leaves: Seq<LeaveDirective>)
    ensures
        stays_with(a, a.with_maker(key, m).announcing_all(key, leaves, leaves.len() as int), key),
{
    let kept = a.with_maker(key, m);
    lemma_with_maker(a, key, m);
    lemma_announcing_all(kept, key, leaves, leaves.len() as int);
    let next = kept.announcing_all(key, leaves, leaves.len() as int);
    assert forall|k: SessionKeyView| k != key implies #[trigger] next.maker(k) == kept.maker(k) by {}
    lemma_chain(a, kept, next, key);
}

/// What conditions make of a session's buffer stays within it.
pub proof fn law_conditions_stay_in_their_session(
    a: RegistryView,
    key: SessionKeyView,
    conditions: Seq<SlotConditions>,
    mesh_rtt_us: u32,
    local: bool,
    now: Instant,
)
    ensures
        stays_with(a, a.ingest(key, conditions, mesh_rtt_us, local, now), key),
{
    if a.maker(key) is Some {
        let (next, decision) = (a.maker(key)->0).ingest(conditions, mesh_rtt_us, local, now);
        let kept = MakerView { pending_inputs: None, ..next };
        lemma_with_maker(a, key, next);
        lemma_with_maker(a, key, kept);
        let b = a.with_maker(key, kept);
        let c = b.recording_buffer(key, next.pending_directive, next.pending_inputs);
        assert(stays_with(b, c, key));
        lemma_chain(a, b, c, key);
    }
}

/// A change of authority stays within its session.
pub proof fn law_authority_stays_in_its_session(a: RegistryView, key: SessionKeyView, authority: Authority, held: Set<SlotId>, now: Instant)
    ensures
        stays_with(a, a.set_authority(key, authority, held, now), key),
{
    if a.maker(key) is Some {
        let m = a.maker(key)->0;
        lemma_announced(
            a,
            key,
            m.set_authority(authority, held, now),
            m.fresh_leaves(authority, held, now),
        );
    }
}

/// A session described anew leaves the others alone.
pub proof fn law_descriptions_stay_in_their_session(a: RegistryView, key: SessionKeyView, sync: SyncView, now: Instant)
    ensures
        stays_with(a, a.sync_maker(key, sync, now).0, key),
        a.sync_maker(key, sync, now).0.maker(key) is Some,
{
    match a.maker(key) {
        Some(m) => {
            let ready = m.reseeded(sync, now).bounded(sync.bounds);
            let next = ready.set_authority(sync.authority, sync.held, now);
            let fresh = ready.fresh_leaves(sync.authority, sync.held, now);
            lemma_announced(a, key, next, fresh);
            lemma_announcing_all(a.with_maker(key, next), key, fresh, fresh.len() as int);
        },
        None => {
            let made = MakerView::described(key, sync).resuming(sync.resumed_departed, now).0;
            lemma_with_maker(a, key, made);
        },
    }
}

/// Leaves stay within their session.
pub proof fn law_leaves_stay_in_their_session(
    a: RegistryView,
    key: SessionKeyView,
    slot: SlotId,
    leave: LeaveDirective,
    reason: u32,
    now: Instant,
)
    ensures
        stays_with(a, a.observe_leave(key, leave, now), key),
        stays_with(a, a.decide_leave(key, slot, reason, now), key),
{
    if a.maker(key) is Some {
        let m = a.maker(key)->0;
        lemma_with_maker(a, key, m.observe_leave(leave, now));
        lemma_with_maker(a, key, m.decide_leave(slot, reason, now));
        let b = a.with_maker(key, m.observe_leave(leave, now));
        assert(stays_with(b, a.observe_leave(key, leave, now), key));
        let c = a.with_maker(key, m.decide_leave(slot, reason, now));
        assert(stays_with(c, a.decide_leave(key, slot, reason, now), key));
    }
}

/// Closing a session out leaves the others alone.
pub proof fn law_abandonment_stays_in_its_session(a: RegistryView, key: SessionKeyView, now: Instant)
    ensures
        stays_with(a, a.decide_abandoned_departures(key, now), key),
{
    if a.maker(key) is Some {
        let m = a.maker(key)->0;
        let slots = m.with_reasons(m.undecided());
        let (next, decided) = m.force_decide_leaves(slots, slots.len() as int, now);
        lemma_announced(a, key, next, decided);
    }
}

proof fn lemma_start_latched(a: RegistryView, key: SessionKeyView, fired: Option<Option<u32>>, now_ms: u64)
    ensures
        stays_with(a, a.start_latched(key, fired, now_ms), key),
{
}

/// Results and starts stay within their session.
pub proof fn law_reports_stay_in_their_session(
    a: RegistryView,
    key: SessionKeyView,
    slot: SlotId,
    payload: Seq<u8>,
    now: Instant,
    now_ms: u64,
)
    ensures
        stays_with(a, a.record_result(key, slot, payload, now_ms), key),
        stays_with(a, a.note_slot_present(key, slot, now, now_ms), key),
        stays_with(a, a.reevaluate_start(key, now, now_ms), key),
{
    if a.maker(key) is Some {
        let m = a.maker(key)->0;
        let present = m.with_live(slot).maybe_start(now);
        let again = m.maybe_start(now);
        lemma_with_maker(a, key, m);
        lemma_with_maker(a, key, present);
        lemma_with_maker(a, key, again);
        let turns = if m.with_live(slot).starts() { Some(present.initial_buffer_turns) } else { None };
        lemma_start_latched(a.with_maker(key, present), key, turns, now_ms);
        lemma_start_latched(a.with_maker(key, m), key, None, now_ms);
        lemma_start_latched(
            a.with_maker(key, again),
            key,
            if m.starts() { Some(again.initial_buffer_turns) } else { None },
            now_ms,
        );
    }
}

/// A leave is reported to the coordinator when it is decided or first observed, and never
/// again.
pub proof fn law_a_leave_is_reported_once(a: RegistryView, key: SessionKeyView, slot: SlotId, reason: u32, leave: LeaveDirective, now: Instant)
    requires
        a.maker(key) is Some,
        leave.slot == slot.0,
    ensures
        ({
            let decided = a.maker(key)->0.decided_leaves.contains_key(slot);
            &&& decided ==> a.decide_leave(key, slot, reason, now).notices == a.notices
            &&& decided ==> a.observe_leave(key, leave, now).notices == a.notices
            &&& !decided ==> a.observe_leave(key, leave, now).notices.len() == a.notices.len() + 1
            &&& a.maker(key)->0.leave_decision(slot, reason) is Some ==> a.decide_leave(key, slot, reason, now).notices.len()
                == a.notices.len() + 1
            &&& a.maker(key)->0.leave_decision(slot, reason) is None ==> a.decide_leave(key, slot, reason, now).notices
                == a.notices
        }),
{
}

/// A slot's result is kept and reported once, whatever it reports afterwards.
pub proof fn law_a_result_is_reported_once(
    a: RegistryView,
    key: SessionKeyView,
    slot: SlotId,
    first: Seq<u8>,
    second: Seq<u8>,
    now_ms: u64,
    later_ms: u64,
)
    requires
        a.maker(key) is Some,
        crate::wire::valid_payload(first),
    ensures
        ({
            let once = a.record_result(key, slot, first, now_ms);
            &&& once.record_result(key, slot, second, later_ms) == once
            &&& once.maker(key)->0.results.contains_key(slot)
            &&& !a.maker(key)->0.results.contains_key(slot) ==> once.maker(key)->0.results[slot].payload == first
                && once.notices.len() == a.notices.len() + 1
        }),
{
}

/// A session's start is reported once.
pub proof fn law_a_start_is_reported_once(a: RegistryView, key: SessionKeyView, slot: SlotId, now: Instant, now_ms: u64)
    requires
        a.maker(key) is Some,
        a.maker(key)->0.started,
    ensures
        a.note_slot_present(key, slot, now, now_ms).notices == a.notices,
        a.reevaluate_start(key, now, now_ms).notices == a.notices,
{
}

/// A directive past the game's ceiling is recorded once per sequence number.
pub proof fn law_an_over_ceiling_directive_is_recorded_once(a: RegistryView, key: SessionKeyView, directive: BufferDirective)
    requires
        a.maker(key) is Some,
    ensures
        a.observe_directive(key, directive).observe_directive(key, directive).events == a.observe_directive(
            key,
            directive,
        ).events,
{
}

} // verus!
