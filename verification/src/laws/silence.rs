//! Laws of the silence watch: whom it watches, whom it waits for, and whom it names.
use crate::ids::SlotId;
use crate::maker::silence::SilentSlot;
use crate::maker::MakerView;
use crate::slot::ConnectionState;
use crate::time::Duration;
use crate::time::Instant;
use vstd::prelude::*;

verus! {

/// Whether a slot takes part in the session the watch looks at: it is expected, or, where
/// nobody is, it is or was present; and the session has not played on past its leave.
pub open spec fn takes_part(m: MakerView, slot: SlotId) -> bool {
    &&& !m.recovered_leaves.contains(slot)
    &&& if exists|s: SlotId| m.expected.contains(s) {
        m.expected.contains(slot)
    } else {
        m.slots.contains_key(slot) || m.departures.contains_key(slot)
    }
}

/// Whether a slot's game loop is known to have started, here or at another relay.
pub open spec fn plays(m: MakerView, slot: SlotId) -> bool {
    m.started_slots.contains(slot) || m.peer_started.contains(slot)
}

/// When a slot's turns last moved forward: as last seen here, or as its departure kept it,
/// and at the session's start where they never did.
pub open spec fn last_moved(m: MakerView, slot: SlotId, started_at: Instant) -> Instant {
    let seen = if m.slots.contains_key(slot) {
        m.slots[slot].last_forward_advance_at
    } else if m.departures.contains_key(slot) && m.departures[slot].slot_state is Some {
        (m.departures[slot].slot_state->0).last_forward_advance_at
    } else {
        None
    };
    if seen is Some { seen->0 } else { started_at }
}

/// Whether at least `window` has passed since `at`.
pub open spec fn long_ago(at: Instant, now: Instant, window: Duration) -> bool {
    window.nanos == 0 || now.nanos >= at.nanos + window.nanos
}

proof fn lemma_watched(m: MakerView)
    ensures
        forall|s: SlotId| #[trigger] m.watched().contains(s) <==> takes_part(m, s),
{
    if exists|s: SlotId| m.expected.contains(s) {
        let s = choose|s: SlotId| m.expected.contains(s);
        assert(!(m.expected =~= Set::empty()));
    } else {
        assert(m.expected =~= Set::empty());
    }
}

/// While any slot that takes part has not started its game loop, the watch names nobody.
pub proof fn law_nobody_is_named_before_all_have_started(
    m: MakerView,
    waiting: SlotId,
    now: Instant,
    window: Duration,
    answer: Option<SilentSlot>,
)
    requires
        takes_part(m, waiting),
        !m.started_slots.contains(waiting),
        !m.peer_started.contains(waiting),
        m.silence_answer(now, window, answer),
    ensures
        answer is None,
{
    lemma_watched(m);
    assert(m.watched().contains(waiting));
}

/// Whoever is named took part and had started, as had everyone else; and everyone's turns,
/// not only that slot's, stopped at least the window ago.
pub proof fn law_the_named_and_all_others_had_started(
    m: MakerView,
    now: Instant,
    window: Duration,
    found: SilentSlot,
)
    requires
        m.silence_answer(now, window, Some(found)),
    ensures
        m.started_at is Some,
        !m.resumed,
        takes_part(m, found.slot),
        forall|s: SlotId| #[trigger]
            takes_part(m, s) ==> plays(m, s) && (m.slots.contains_key(s) || m.departures.contains_key(s)) && long_ago(
                last_moved(m, s, m.started_at->0),
                now,
                window,
            ),
{
    lemma_watched(m);
    assert forall|s: SlotId| #[trigger] takes_part(m, s) implies plays(m, s) && (m.slots.contains_key(s)
        || m.departures.contains_key(s)) && long_ago(last_moved(m, s, m.started_at->0), now, window) by {
        assert(m.watched().contains(s));
    }
}

/// Whether the watch may throw a slot out: it is at home here, its connection is up and has
/// been for the window, and nothing was recorded, decided or done about it before.
pub open spec fn may_go(m: MakerView, slot: SlotId, now: Instant, window: Duration) -> bool {
    &&& m.homed.contains(slot)
    &&& m.connections.contains_key(slot) && m.connections[slot] is Up
    &&& !m.departures.contains_key(slot)
    &&& !m.decided_leaves.contains_key(slot)
    &&& !m.silence_evicted.contains(slot)
    &&& m.slots.contains_key(slot) && m.slots[slot].connection_up_at is Some ==> long_ago(
        m.slots[slot].connection_up_at->0,
        now,
        window,
    )
}

/// Whether a slot's turns stopped before those of everyone else who takes part, of whom
/// there is at least one.
pub open spec fn stopped_before_all(m: MakerView, slot: SlotId) -> bool {
    &&& exists|o: SlotId| #[trigger] takes_part(m, o) && o != slot
    &&& forall|o: SlotId| #[trigger]
        takes_part(m, o) && o != slot ==> last_moved(m, slot, m.started_at->0).nanos < last_moved(
            m,
            o,
            m.started_at->0,
        ).nanos
}

/// The slot that is named is one that may go and stopped before all others; the answer says
/// how long ago its turns stopped, and how much later the next slot's did.
pub proof fn law_the_named_slot_stopped_first(m: MakerView, now: Instant, window: Duration, found: SilentSlot, other: SlotId)
    requires
        m.silence_answer(now, window, Some(found)),
    ensures
        may_go(m, found.slot, now, window),
        stopped_before_all(m, found.slot),
        ({
            let stopped = last_moved(m, found.slot, m.started_at->0).nanos;
            &&& found.silent_for.nanos == if now.nanos >= stopped { now.nanos - stopped } else { 0 }
            &&& takes_part(m, other) && other != found.slot ==> stopped + found.lead.nanos <= last_moved(
                m,
                other,
                m.started_at->0,
            ).nanos
            &&& exists|o: SlotId| #[trigger]
                takes_part(m, o) && o != found.slot && last_moved(m, o, m.started_at->0).nanos == stopped + found.lead.nanos
        }),
{
    lemma_watched(m);
    law_the_named_and_all_others_had_started(m, now, window, found);
    let o = choose|o: SlotId| #[trigger]
        m.watched().contains(o) && o != found.slot && m.stop(o, m.started_at->0).spec_since(
            m.stop(found.slot, m.started_at->0),
        ) == found.lead;
    assert(takes_part(m, o) && o != found.slot);
    assert forall|s: SlotId| #[trigger] takes_part(m, s) implies m.stop(s, m.started_at->0) == last_moved(
        m,
        s,
        m.started_at->0,
    ) by {}
    assert forall|o: SlotId| #[trigger] takes_part(m, o) && o != found.slot implies last_moved(
        m,
        found.slot,
        m.started_at->0,
    ).nanos < last_moved(m, o, m.started_at->0).nanos by {
        assert(m.watched().contains(o));
    }
    if takes_part(m, other) && other != found.slot {
        assert(m.watched().contains(other));
    }
}

/// A slot that may go and stopped before all others is named, once everyone who takes part
/// has started and has been still for the window.
pub proof fn law_a_silent_slot_is_named(
    m: MakerView,
    slot: SlotId,
    now: Instant,
    window: Duration,
    answer: Option<SilentSlot>,
)
    requires
        m.started_at is Some,
        !m.resumed,
        takes_part(m, slot),
        may_go(m, slot, now, window),
        stopped_before_all(m, slot),
        forall|s: SlotId| #[trigger]
            takes_part(m, s) ==> plays(m, s) && (m.slots.contains_key(s) || m.departures.contains_key(s)) && long_ago(
                last_moved(m, s, m.started_at->0),
                now,
                window,
            ),
        m.silence_answer(now, window, answer),
    ensures
        answer is Some,
        (answer->0).slot == slot,
{
    lemma_watched(m);
    assert forall|s: SlotId| #[trigger] m.watched().contains(s) implies m.has_started(s) && (m.slots.contains_key(s)
        || m.departures.contains_key(s)) && now.spec_since(m.stop(s, m.started_at->0)).nanos >= window.nanos by {
        assert(takes_part(m, s));
    }
    assert forall|o: SlotId| #[trigger] m.watched().contains(o) && o != slot implies m.stop(o, m.started_at->0).nanos
        > m.stop(slot, m.started_at->0).nanos by {
        assert(takes_part(m, o));
        assert(takes_part(m, slot));
    }
    let o = choose|o: SlotId| #[trigger] takes_part(m, o) && o != slot;
    assert(m.watched().contains(o) && o != slot);
    assert(m.watched().contains(slot));
    assert(m.names_silent(slot, now, window));
    if let Some(found) = answer {
        if found.slot != slot {
            assert(m.watched().contains(found.slot));
        }
    }
}

/// A leave is played past exactly once every slot that takes part and is still present has
/// moved on since the leave was decided; from then on its slot takes no part. Nothing else
/// changes who takes part, and nothing does before the session has started or where it was
/// resumed from elsewhere.
pub proof fn law_a_leave_is_recovered_once_all_move_on(m: MakerView, slot: SlotId)
    ensures
        m.recovering() == (MakerView { recovered_leaves: m.recovering().recovered_leaves, ..m }),
        m.recovering().recovered_leaves.contains(slot) <==> m.recovered_leaves.contains(slot) || {
            &&& m.started_at is Some && !m.resumed
            &&& takes_part(m, slot)
            &&& m.decided_leave_at.contains_key(slot)
            &&& forall|l: SlotId| #[trigger]
                takes_part(m, l) && m.slots.contains_key(l) ==> last_moved(m, l, m.started_at->0).nanos
                    > m.decided_leave_at[slot].nanos
        },
{
    lemma_watched(m);
    if m.started_at is Some && !m.resumed {
        let at = m.started_at->0;
        if m.recovers(slot, at) {
            assert(takes_part(m, slot));
            assert forall|l: SlotId| #[trigger] takes_part(m, l) && m.slots.contains_key(l) implies last_moved(m, l, at).nanos
                > m.decided_leave_at[slot].nanos by {
                assert(m.watched().contains(l));
            }
        } else if takes_part(m, slot) && m.decided_leave_at.contains_key(slot) {
            assert(m.watched().contains(slot));
            let l = choose|l: SlotId| #[trigger]
                m.watched().contains(l) && m.slots.contains_key(l) && !(m.stop(l, at).nanos > m.decided_leave_at[slot].nanos);
            assert(m.watched().contains(l) && m.slots.contains_key(l));
            assert(takes_part(m, l));
        }
    }
}

} // verus!
