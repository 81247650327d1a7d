//! Laws over any run of operations: what a session says of its past is what happened.
use crate::ids::SessionKeyView;
use crate::ids::SlotId;
use crate::law::ControlLaw;
use crate::laws::session::Control;
use crate::laws::session::Leave;
use crate::laws::session::Link;
use crate::laws::session::Note;
use crate::laws::session::Setup;
use crate::laws::session::Step;
use crate::laws::session::Traffic;
use crate::maker::departure::StampsView;
use crate::maker::MakerView;
use crate::phase::SLOT_MAX_CHANGE_US;
use crate::phase::SLOT_MIN_CHANGE_US;
use crate::sync::turns::SyncTurn;
use crate::time::Instant;
use crate::wire::Authority;
use crate::wire::BufferBounds;
use crate::wire::DepartedSlot;
use crate::wire::DepartureKind;
use crate::wire::LeaveDirective;
use crate::wire::SlotConditions;
use vstd::prelude::*;

verus! {

/// Whether `b` tells of the same past as `a`: who connected and started, when the session
/// did, and what phases were commanded.
#[verifier::opaque]
spec fn same_past(a: MakerView, b: MakerView) -> bool {
    &&& b.connected == a.connected
    &&& b.started_slots == a.started_slots
    &&& b.started_at_ms == a.started_at_ms
    &&& b.phase.commanded == a.phase.commanded
    &&& b.phase.awaiting == a.phase.awaiting
    &&& b.phase.turn_us == a.phase.turn_us
}

proof fn lemma_decide(m: MakerView, now: Instant)
    ensures
        same_past(m, m.decide(now).0),
{
    reveal(same_past);
    match (m.session_frame(), m.target_inputs()) {
        (Some(frame), Some(inputs)) => {
            let extra = m.delivery.cushion_turns.saturating_add(m.phase.stretch_turns(now));
            let target = inputs.target.saturating_add(extra);
            let shrink_target = inputs.shrink_target.saturating_add(extra);
            let noted = m.noting_target(frame.0, target, now);
            assert(same_past(m, noted));
            assert(same_past(noted, noted.proposal(frame.0, target, shrink_target).0));
            assert(same_past(m, m.steer(frame, inputs, now).0));
        },
        _ => {},
    }
}

proof fn lemma_ingest_upto(m: MakerView, conditions: Seq<SlotConditions>, mesh_rtt_us: u32, n: int, now: Instant)
    ensures
        same_past(m, m.ingest_upto(conditions, mesh_rtt_us, n, now)),
    decreases n,
{
    reveal(same_past);
    if n > 0 {
        lemma_ingest_upto(m, conditions, mesh_rtt_us, n - 1, now);
    }
}

proof fn lemma_activate_upto(m: MakerView, conditions: Seq<SlotConditions>, n: int, now: Instant)
    ensures
        same_past(m, m.activate_upto(conditions, n, now)),
    decreases n,
{
    reveal(same_past);
    if n > 0 {
        lemma_activate_upto(m, conditions, n - 1, now);
    }
}

proof fn lemma_ingest(m: MakerView, conditions: Seq<SlotConditions>, mesh_rtt_us: u32, local: bool, now: Instant)
    ensures
        same_past(m, m.ingest(conditions, mesh_rtt_us, local, now).0),
{
    reveal(same_past);
    lemma_activate_upto(m, conditions, conditions.len() as int, now);
    let ready = if local { m.activate_local_epochs(conditions, now) } else { m };
    lemma_ingest_upto(ready, conditions, mesh_rtt_us, conditions.len() as int, now);
    let ingested = ready.ingest_upto(conditions, mesh_rtt_us, conditions.len() as int, now);
    lemma_decide(ingested, now);
}

proof fn lemma_decide_leaves(m: MakerView, slots: Seq<(SlotId, u32)>, n: int, now: Instant)
    ensures
        same_past(m, m.decide_leaves(slots, n, now).0),
        same_past(m, m.force_decide_leaves(slots, n, now).0),
    decreases n,
{
    reveal(same_past);
    if n > 0 {
        lemma_decide_leaves(m, slots, n - 1, now);
        let (slot, reason) = slots[n - 1];
        let a = m.decide_leaves(slots, n - 1, now).0;
        let b = m.force_decide_leaves(slots, n - 1, now).0;
        assert(same_past(a, a.decide_leave(slot, reason, now)));
        assert(same_past(b, b.force_decide_leave(slot, reason, now)));
    }
}

proof fn lemma_set_authority(m: MakerView, authority: Authority, held: Set<SlotId>, now: Instant)
    ensures
        same_past(m, m.set_authority(authority, held, now)),
{
    reveal(same_past);
    let handed = m.handoff(held);
    lemma_decide_leaves(m.reseated(authority), handed, handed.len() as int, now);
}

proof fn lemma_seed_upto(m: MakerView, departed: Seq<DepartedSlot>, n: int, now: Instant)
    ensures
        same_past(m, m.seed_upto(departed, n, now).0),
    decreases n,
{
    reveal(same_past);
    if n > 0 {
        lemma_seed_upto(m, departed, n - 1, now);
        let before = m.seed_upto(departed, n - 1, now).0;
        let d = departed[n - 1];
        assert(same_past(before, before.seed_departed(d.slot, d.kind, d.final_turn_count, d.finalized, now)));
    }
}

proof fn lemma_drain_sync(m: MakerView, slot: SlotId)
    ensures
        same_past(m, m.drain_sync(slot).0),
    decreases u64::MAX - m.origin(slot).next,
{
    reveal(same_past);
    let (next, verdict) = m.sync_step(slot);
    assert(same_past(m, next));
    if m.sync_continues(slot) && verdict is None {
        lemma_drain_sync(next, slot);
    }
}

proof fn lemma_observe_sync(m: MakerView, slot: SlotId, seq: u64, turn: SyncTurn)
    ensures
        same_past(m, m.observe_sync(slot, seq, turn).0),
{
    reveal(same_past);
    let pushed = m.with_origin(slot, m.origin(slot).push(seq, turn));
    if m.follows_sync(slot) {
        match m.origin(slot).pushed(seq, turn) {
            Ok(None) => {
                lemma_drain_sync(pushed, slot);
            },
            Err(_) => {},
            Ok(Some(read)) => {
                assert(same_past(pushed, pushed.compare_sync_turn(slot, read).0));
                lemma_drain_sync(pushed.compare_sync_turn(slot, read).0, slot);
            },
        }
    }
}

proof fn lemma_control(m: MakerView, step: Control)
    ensures
        same_past(m, crate::laws::session::after_control(m, step)),
{
    reveal(same_past);
    match step {
        Control::IngestLocal(conditions, now) => {
            lemma_ingest(m, conditions, 0, true, now);
        },
        Control::IngestRemote(conditions, mesh_rtt_us, now) => {
            lemma_ingest(m, conditions, mesh_rtt_us, false, now);
        },
        Control::Sync(bounds, authority, held, now) => {
            lemma_set_authority(m.bounded(bounds), authority, held, now);
        },
        Control::SetAuthority(authority, held, now) => {
            lemma_set_authority(m, authority, held, now);
        },
        _ => {},
    }
}

proof fn lemma_link(m: MakerView, step: Link)
    ensures
        same_past(m, crate::laws::session::after_link(m, step)),
{
    reveal(same_past);
}

proof fn lemma_observed_leave(m: MakerView, leave: LeaveDirective, now: Instant)
    ensures
        same_past(m, m.observe_leave(leave, now)),
{
    reveal(same_past);
}

proof fn lemma_decided_leave(m: MakerView, slot: SlotId, reason: u32, now: Instant)
    ensures
        same_past(m, m.decide_leave(slot, reason, now)),
        same_past(m, m.force_decide_leave(slot, reason, now)),
{
    reveal(same_past);
}

proof fn lemma_departure(m: MakerView, slot: SlotId, stamps: StampsView, reason: u32, epoch: Option<u64>)
    ensures
        same_past(m, m.note_departure(slot, stamps, reason, None).forgetting(slot)),
        same_past(m, m.record_departure_outcome(slot, stamps, reason, epoch)),
{
    reveal(same_past);
}

proof fn lemma_seeded(m: MakerView, slot: SlotId, kind: DepartureKind, count: Option<u64>, finalized: bool, now: Instant)
    ensures
        same_past(m, m.seed_departed(slot, kind, count, finalized, now)),
{
    reveal(same_past);
}

proof fn lemma_resumed(m: MakerView, departed: Seq<DepartedSlot>, now: Instant)
    ensures
        same_past(m, m.resuming(Some(departed), now).0),
{
    reveal(same_past);
    lemma_seed_upto(m, departed, departed.len() as int, now);
}

proof fn lemma_finalizing(m: MakerView, slot: SlotId, epoch: Option<u64>, count: Option<u64>)
    ensures
        same_past(m, m.seal_for_finalize(slot, epoch)),
        same_past(m, m.finish_finalize(slot, count)),
{
    reveal(same_past);
}

proof fn lemma_leave(m: MakerView, step: Leave)
    ensures
        same_past(m, crate::laws::session::after_leave(m, step)),
{
    match step {
        Leave::Observe(leave, now) => {
            lemma_observed_leave(m, leave, now);
        },
        Leave::Decide(slot, reason, now) => {
            lemma_decided_leave(m, slot, reason, now);
        },
        Leave::ForceDecide(slot, reason, now) => {
            lemma_decided_leave(m, slot, reason, now);
        },
        Leave::ForceUndecided(now) => {
            let slots = m.with_reasons(m.undecided());
            lemma_decide_leaves(m, slots, slots.len() as int, now);
        },
        Leave::Departure(slot, stamps, reason) => {
            lemma_departure(m, slot, stamps, reason, None);
        },
        Leave::DepartureForEpoch(slot, stamps, reason, epoch) => {
            lemma_departure(m, slot, stamps, reason, epoch);
        },
        Leave::Seed(slot, kind, count, finalized, now) => {
            lemma_seeded(m, slot, kind, count, finalized, now);
        },
        Leave::Resume(departed, now) => {
            lemma_resumed(m, departed, now);
        },
        Leave::Seal(slot, epoch) => {
            lemma_finalizing(m, slot, epoch, None);
        },
        Leave::Finish(slot, count) => {
            lemma_finalizing(m, slot, None, count);
        },
    }
}

proof fn lemma_setup(m: MakerView, step: Setup)
    ensures
        same_past(m, crate::laws::session::after_setup(m, step)),
{
    reveal(same_past);
}

proof fn lemma_traffic(m: MakerView, step: Traffic)
    requires
        !(step is Arrival) && !(step is PhaseApplied),
    ensures
        same_past(m, crate::laws::session::after_traffic(m, step)),
{
    reveal(same_past);
    if let Traffic::Report(slot, seq, turn) = step {
        lemma_observe_sync(m, slot, seq, turn);
    }
}

proof fn lemma_starting(m: MakerView, slot: SlotId, now: Instant)
    ensures
        same_past(m, m.maybe_start(now)),
        same_past(m, m.with_live(slot).maybe_start(now)),
        same_past(m, m.latch_started(now)),
        same_past(m, m.recovering()),
        same_past(m, m),
{
    reveal(same_past);
}

proof fn lemma_note(m: MakerView, step: Note)
    requires
        !(step is Connected) && !(step is Started) && !(step is StartedAt) && !(step is AdoptStart),
    ensures
        same_past(m, crate::laws::session::after_note(m, step)),
{
    match step {
        Note::Present(slot, now) => {
            lemma_starting(m, slot, now);
        },
        Note::Reevaluate(now) => {
            lemma_starting(m, SlotId(0), now);
        },
        Note::MarkStarted(now) => {
            lemma_starting(m, SlotId(0), now);
        },
        Note::WatchSilence => {
            lemma_starting(m, SlotId(0), Instant { nanos: 0 });
        },
        _ => {
            reveal(same_past);
        },
    }
}

/// Whether `step` adds to what the session tells of its past.
pub open spec fn tells(step: Step) -> bool {
    match step {
        Step::Traffic(Traffic::Arrival(..)) | Step::Traffic(Traffic::PhaseApplied(..)) => true,
        Step::Note(Note::Connected(_)) | Step::Note(Note::Started(_)) => true,
        Step::Note(Note::StartedAt(_)) | Step::Note(Note::AdoptStart(..)) => true,
        _ => false,
    }
}

proof fn lemma_quiet_step(m: MakerView, step: Step)
    requires
        !tells(step),
    ensures
        same_past(m, crate::laws::session::after(m, step)),
{
    reveal(crate::laws::session::after);
    match step {
        Step::Traffic(t) => {
            lemma_traffic(m, t);
        },
        Step::Control(c) => {
            lemma_control(m, c);
        },
        Step::Setup(s) => {
            lemma_setup(m, s);
        },
        Step::Link(l) => {
            lemma_link(m, l);
        },
        Step::Leave(l) => {
            lemma_leave(m, l);
        },
        Step::Note(n) => {
            lemma_note(m, n);
        },
    }
}

/// The slots noted as connected in `steps`.
pub open spec fn connected_in(steps: Seq<Step>) -> Set<SlotId> {
    Set::new(|s: SlotId| steps.contains(Step::Note(Note::Connected(s))))
}

/// The slots noted as started in `steps`.
pub open spec fn started_in(steps: Seq<Step>) -> Set<SlotId> {
    Set::new(|s: SlotId| steps.contains(Step::Note(Note::Started(s))))
}

/// The first start instant noted in `steps`.
pub open spec fn first_start(steps: Seq<Step>) -> Option<u64>
    decreases steps.len(),
{
    if steps.len() == 0 {
        None
    } else {
        match (first_start(steps.drop_last()), steps.last()) {
            (Some(at), _) => Some(at),
            (None, Step::Note(Note::StartedAt(now_ms))) => Some(now_ms),
            (None, Step::Note(Note::AdoptStart(_, _, now_ms))) => Some(now_ms),
            (None, _) => None,
        }
    }
}

proof fn lemma_last_step(steps: Seq<Step>, step: Step)
    requires
        steps.len() > 0,
    ensures
        steps.contains(step) <==> steps.drop_last().contains(step) || steps.last() == step,
{
    let fewer = steps.drop_last();
    if steps.contains(step) {
        let i = choose|i: int| 0 <= i < steps.len() && steps[i] == step;
        if i < fewer.len() {
            assert(fewer[i] == step);
        }
    }
    if fewer.contains(step) {
        let i = choose|i: int| 0 <= i < fewer.len() && fewer[i] == step;
        assert(steps[i] == step);
    }
    assert(steps[steps.len() - 1] == steps.last());
}

proof fn lemma_arrival_step(m: MakerView, slot: SlotId, seq: u64, now: Instant)
    ensures
        crate::laws::session::after(m, Step::Traffic(Traffic::Arrival(slot, seq, now))) == m.ingest_arrival_phase(
            slot,
            seq,
            now,
        ),
{
    reveal(crate::laws::session::after);
}

proof fn lemma_applied_step(m: MakerView, slot: SlotId, delay_us: u32, now: Instant)
    ensures
        crate::laws::session::after(m, Step::Traffic(Traffic::PhaseApplied(slot, delay_us, now))) == (MakerView {
            phase: m.phase.note_applied(slot, delay_us, now),
            ..m
        }),
{
    reveal(crate::laws::session::after);
}

proof fn lemma_note_step(m: MakerView, note: Note)
    ensures
        crate::laws::session::after(m, Step::Note(note)) == crate::laws::session::after_note(m, note),
{
    reveal(crate::laws::session::after);
}

/// The start instant once `step` has happened.
spec fn start_after(at: Option<u64>, step: Step) -> Option<u64> {
    match (at, step) {
        (Some(at), _) => Some(at),
        (None, Step::Note(Note::StartedAt(now_ms))) => Some(now_ms),
        (None, Step::Note(Note::AdoptStart(_, _, now_ms))) => Some(now_ms),
        (None, _) => None,
    }
}

/// Whether `b` is who connected and started, and when, once `step` has happened to `a`.
spec fn roster_follows(a: MakerView, step: Step, b: MakerView) -> bool {
    &&& forall|s: SlotId| #[trigger] b.connected.contains(s) <==> a.connected.contains(s) || step == Step::Note(
        Note::Connected(s),
    )
    &&& forall|s: SlotId| #[trigger] b.started_slots.contains(s) <==> a.started_slots.contains(s) || step == Step::Note(
        Note::Started(s),
    )
    &&& b.started_at_ms == start_after(a.started_at_ms, step)
}

proof fn lemma_roster_step(m: MakerView, step: Step)
    ensures
        roster_follows(m, step, crate::laws::session::after(m, step)),
{
    match step {
        Step::Traffic(Traffic::Arrival(slot, seq, now)) => {
            lemma_arrival_step(m, slot, seq, now);
        },
        Step::Traffic(Traffic::PhaseApplied(slot, delay_us, now)) => {
            lemma_applied_step(m, slot, delay_us, now);
        },
        Step::Note(Note::Connected(slot)) => {
            lemma_note_step(m, Note::Connected(slot));
        },
        Step::Note(Note::Started(slot)) => {
            lemma_note_step(m, Note::Started(slot));
        },
        Step::Note(Note::StartedAt(now_ms)) => {
            lemma_note_step(m, Note::StartedAt(now_ms));
        },
        Step::Note(Note::AdoptStart(depth, now, now_ms)) => {
            lemma_note_step(m, Note::AdoptStart(depth, now, now_ms));
        },
        _ => {
            lemma_quiet_step(m, step);
            reveal(same_past);
        },
    }
}

proof fn lemma_roster(m: MakerView, steps: Seq<Step>)
    ensures
        crate::laws::session::after_all(m, steps).connected == m.connected.union(connected_in(steps)),
        crate::laws::session::after_all(m, steps).started_slots == m.started_slots.union(started_in(steps)),
        crate::laws::session::after_all(m, steps).started_at_ms == if m.started_at_ms is Some {
            m.started_at_ms
        } else {
            first_start(steps)
        },
    decreases steps.len(),
{
    let end = crate::laws::session::after_all(m, steps);
    if steps.len() > 0 {
        lemma_roster(m, steps.drop_last());
        let before = crate::laws::session::after_all(m, steps.drop_last());
        lemma_roster_step(before, steps.last());
        assert forall|s: SlotId| #[trigger] end.connected.contains(s) <==> m.connected.union(connected_in(steps)).contains(s) by {
            lemma_last_step(steps, Step::Note(Note::Connected(s)));
        }
        assert forall|s: SlotId| #[trigger] end.started_slots.contains(s) <==> m.started_slots.union(
            started_in(steps),
        ).contains(s) by {
            lemma_last_step(steps, Step::Note(Note::Started(s)));
        }
    }
    assert(end.connected =~= m.connected.union(connected_in(steps)));
    assert(end.started_slots =~= m.started_slots.union(started_in(steps)));
}

/// What a restarted coordinator is told is what happened: over any run of operations, the
/// slots listed are those it began with and those ever noted since, each once in ascending
/// order, whoever departed or was removed meanwhile; and the start instant is the first
/// one noted.
pub proof fn law_the_load_state_is_what_was_noted(m: MakerView, steps: Seq<Step>)
    ensures
        ({
            let told = crate::laws::session::after_all(m, steps).load_state();
            &&& crate::ordmap::lists(told.ever_connected, m.connected.union(connected_in(steps)))
            &&& crate::ordmap::lists(told.started, m.started_slots.union(started_in(steps)))
            &&& told.started_at_ms == if m.started_at_ms is Some { m.started_at_ms } else { first_start(steps) }
        }),
{
    lemma_roster(m, steps);
    let end = crate::laws::session::after_all(m, steps);
    crate::laws::phase::lemma_slots_are_finite(end.connected);
    crate::laws::phase::lemma_slots_are_finite(end.started_slots);
    crate::ordmap::lemma_listing_exists(end.connected);
    crate::ordmap::lemma_listing_exists(end.started_slots);
}

/// A new session tells of exactly what was noted of it, and of nothing else.
pub proof fn law_a_new_session_tells_only_what_was_noted(
    key: SessionKeyView,
    bounds: BufferBounds,
    law: ControlLaw,
    authority: Authority,
    observers: Set<SlotId>,
    steps: Seq<Step>,
)
    ensures
        ({
            let told = crate::laws::session::after_all(
                MakerView::fresh(key, bounds, law, authority, observers),
                steps,
            ).load_state();
            &&& crate::ordmap::lists(told.ever_connected, connected_in(steps))
            &&& crate::ordmap::lists(told.started, started_in(steps))
            &&& told.started_at_ms == first_start(steps)
        }),
{
    let m = MakerView::fresh(key, bounds, law, authority, observers);
    law_the_load_state_is_what_was_noted(m, steps);
    assert(m.connected.union(connected_in(steps)) =~= connected_in(steps));
    assert(m.started_slots.union(started_in(steps)) =~= started_in(steps));
}

/// The delays that the arrival of turn `seq` of `slot` has commanded.
pub open spec fn arrival_result(m: MakerView, slot: SlotId, seq: u64, now: Instant) -> Seq<(SlotId, u32)> {
    if m.started { m.phase.note_arrival(slot, seq, now).issued(now) } else { Seq::empty() }
}

/// The delay that the latest of `steps` to command `slot` one commanded it.
pub open spec fn last_command(m: MakerView, steps: Seq<Step>, slot: SlotId) -> Option<u32>
    decreases steps.len(),
{
    if steps.len() == 0 {
        None
    } else {
        let before = crate::laws::session::after_all(m, steps.drop_last());
        let now_commanded = commanded_by(before, steps.last(), slot);
        if now_commanded is Some { now_commanded } else { last_command(m, steps.drop_last(), slot) }
    }
}

/// Whether `b`'s phases are the ones that `step` makes of `a`'s: commands change only where
/// an arrival issues some, and the wait for one ends only with its acknowledgement.
spec fn phase_follows(a: MakerView, step: Step, b: MakerView) -> bool {
    &&& crate::laws::phase::sound(b.phase)
    &&& b.phase.turn_us == a.phase.turn_us
    &&& forall|slot: SlotId| #[trigger]
        crate::laws::phase::delay_of(b.phase, slot) == match commanded_by(a, step, slot) {
            Some(delay) => Some(delay),
            None => crate::laws::phase::delay_of(a.phase, slot),
        }
    &&& forall|slot: SlotId| #[trigger]
        a.phase.awaiting.contains(slot) && !acknowledges(step, slot, a.phase.commanded[slot]) ==> b.phase.awaiting.contains(
            slot,
        ) && commanded_by(a, step, slot) is None
}

/// The delay that `step` commands `slot`, if it commands it one.
pub open spec fn commanded_by(m: MakerView, step: Step, slot: SlotId) -> Option<u32> {
    match step {
        Step::Traffic(Traffic::Arrival(sender, seq, now)) => crate::laws::phase::delay_in(
            arrival_result(m, sender, seq, now),
            slot,
        ),
        _ => None,
    }
}

proof fn lemma_arrival_follows(m: MakerView, sender: SlotId, seq: u64, now: Instant)
    requires
        crate::laws::phase::sound(m.phase),
    ensures
        phase_follows(
            m,
            Step::Traffic(Traffic::Arrival(sender, seq, now)),
            m.ingest_arrival_phase(sender, seq, now),
        ),
{
    let step = Step::Traffic(Traffic::Arrival(sender, seq, now));
    let next = m.ingest_arrival_phase(sender, seq, now);
    if m.started {
        let arrived = m.phase.note_arrival(sender, seq, now);
        crate::laws::phase::lemma_evaluate(arrived, now);
        assert forall|slot: SlotId| #[trigger] crate::laws::phase::delay_of(next.phase, slot) == match commanded_by(
            m,
            step,
            slot,
        ) {
            Some(delay) => Some(delay),
            None => crate::laws::phase::delay_of(m.phase, slot),
        } by {
            crate::laws::phase::law_what_is_issued_is_commanded(arrived, now, slot);
        }
        assert forall|slot: SlotId| #[trigger]
            m.phase.awaiting.contains(slot) && !acknowledges(step, slot, m.phase.commanded[slot]) implies next.phase.awaiting.contains(
            slot,
        ) && commanded_by(m, step, slot) is None by {
            assert(arrived.awaiting.contains(slot));
            crate::laws::phase::law_the_fence_holds_until_the_matching_echo(arrived, slot, sender, seq, 0, now);
        }
    }
}

proof fn lemma_phase_step(m: MakerView, step: Step)
    requires
        crate::laws::phase::sound(m.phase),
    ensures
        phase_follows(m, step, crate::laws::session::after(m, step)),
{
    match step {
        Step::Traffic(Traffic::Arrival(slot, seq, now)) => {
            lemma_arrival_step(m, slot, seq, now);
            lemma_arrival_follows(m, slot, seq, now);
        },
        Step::Traffic(Traffic::PhaseApplied(slot, delay_us, now)) => {
            lemma_applied_step(m, slot, delay_us, now);
        },
        Step::Note(note) => {
            if tells(step) {
                lemma_note_step(m, note);
            } else {
                lemma_quiet_step(m, step);
                reveal(same_past);
            }
        },
        _ => {
            lemma_quiet_step(m, step);
            reveal(same_past);
        },
    }
}

/// Over any run of operations the commands stay sound, for turns of the same length.
pub proof fn law_sessions_stay_in_phase(m: MakerView, steps: Seq<Step>)
    requires
        crate::laws::phase::sound(m.phase),
    ensures
        crate::laws::phase::sound(crate::laws::session::after_all(m, steps).phase),
        crate::laws::session::after_all(m, steps).phase.turn_us == m.phase.turn_us,
    decreases steps.len(),
{
    if steps.len() > 0 {
        law_sessions_stay_in_phase(m, steps.drop_last());
        lemma_phase_step(crate::laws::session::after_all(m, steps.drop_last()), steps.last());
    }
}

/// The delay a slot is known to be commanded is the latest one issued for it, over any run
/// of operations: no acknowledgement, departure, removal or reconnect changes it. Where
/// none was issued, it is what it was before.
pub proof fn law_the_commanded_delay_is_the_latest_issued(m: MakerView, steps: Seq<Step>, slot: SlotId)
    requires
        crate::laws::phase::sound(m.phase),
    ensures
        crate::laws::phase::delay_of(crate::laws::session::after_all(m, steps).phase, slot) == match last_command(
            m,
            steps,
            slot,
        ) {
            Some(delay) => Some(delay),
            None => crate::laws::phase::delay_of(m.phase, slot),
        },
    decreases steps.len(),
{
    if steps.len() > 0 {
        let fewer = steps.drop_last();
        law_the_commanded_delay_is_the_latest_issued(m, fewer, slot);
        law_sessions_stay_in_phase(m, fewer);
        let before = crate::laws::session::after_all(m, fewer);
        lemma_phase_step(before, steps.last());
    }
}

/// In a new session, a slot's commanded delay is the latest one issued for it since, and
/// there is none exactly where none was.
pub proof fn law_a_new_sessions_delays_were_issued(
    key: SessionKeyView,
    bounds: BufferBounds,
    law: ControlLaw,
    authority: Authority,
    observers: Set<SlotId>,
    steps: Seq<Step>,
    slot: SlotId,
)
    ensures
        crate::laws::phase::delay_of(
            crate::laws::session::after_all(MakerView::fresh(key, bounds, law, authority, observers), steps).phase,
            slot,
        ) == last_command(MakerView::fresh(key, bounds, law, authority, observers), steps, slot),
{
    let m = MakerView::fresh(key, bounds, law, authority, observers);
    law_the_commanded_delay_is_the_latest_issued(m, steps, slot);
}

/// Commanded delays are shorter than the session's own turn, however long it has run.
pub proof fn law_delays_are_shorter_than_a_turn(
    key: SessionKeyView,
    bounds: BufferBounds,
    law: ControlLaw,
    authority: Authority,
    observers: Set<SlotId>,
    steps: Seq<Step>,
)
    requires
        law.turn_duration_us > 0,
    ensures
        ({
            let end = crate::laws::session::after_all(
                MakerView::fresh(key, bounds, law, authority, observers),
                steps,
            );
            &&& end.law == law
            &&& end.phase.turn_us == law.turn_duration_us
            &&& crate::laws::phase::sound(end.phase)
        }),
{
    let m = MakerView::fresh(key, bounds, law, authority, observers);
    law_sessions_stay_in_phase(m, steps);
    crate::laws::session::law_sessions_begin_sound(key, bounds, law, authority, observers);
    crate::laws::session::law_sessions_stay_sound(m, steps);
}

/// An arrival commands nothing and changes nothing before the start. Afterwards every
/// delay it commands is in force at once, shorter than a turn and one capped step from the
/// one before, is waited for, and is the only one for its slot; other slots keep theirs.
pub proof fn law_arrivals_command_small_steps(m: MakerView, sender: SlotId, seq: u64, now: Instant)
    requires
        crate::laws::phase::sound(m.phase),
    ensures
        ({
            let r = arrival_result(m, sender, seq, now);
            let next = m.ingest_arrival_phase(sender, seq, now);
            &&& !m.started ==> r.len() == 0 && next == m
            &&& forall|k: int|
                0 <= k < r.len() ==> {
                    let (slot, delay) = #[trigger] r[k];
                    &&& crate::laws::phase::delay_of(next.phase, slot) == Some(delay)
                    &&& delay < m.phase.turn_us
                    &&& SLOT_MIN_CHANGE_US < crate::phase::abs(delay - m.phase.current_delay(slot)) <= SLOT_MAX_CHANGE_US
                    &&& !m.phase.awaiting.contains(slot)
                    &&& next.phase.awaiting.contains(slot)
                }
            &&& forall|j: int, k: int| 0 <= j < k < r.len() ==> (#[trigger] r[j]).0 != (#[trigger] r[k]).0
            &&& forall|slot: SlotId|
                crate::laws::phase::delay_in(r, slot) is None ==> #[trigger] crate::laws::phase::delay_of(next.phase, slot)
                    == crate::laws::phase::delay_of(m.phase, slot)
        }),
{
    if m.started {
        let r = arrival_result(m, sender, seq, now);
        let arrived = m.phase.note_arrival(sender, seq, now);
        let next = m.ingest_arrival_phase(sender, seq, now);
        crate::laws::phase::lemma_evaluate(arrived, now);
        assert forall|j: int, k: int| 0 <= j < k < r.len() implies (#[trigger] r[j]).0 != (#[trigger] r[k]).0 by {
            crate::laws::phase::law_a_slot_is_commanded_once_at_a_time(arrived, now, j, k);
        }
        assert forall|k: int| 0 <= k < r.len() implies ({
            let (slot, delay) = #[trigger] r[k];
            &&& crate::laws::phase::delay_of(next.phase, slot) == Some(delay)
            &&& delay < m.phase.turn_us
            &&& SLOT_MIN_CHANGE_US < crate::phase::abs(delay - m.phase.current_delay(slot)) <= SLOT_MAX_CHANGE_US
            &&& !m.phase.awaiting.contains(slot)
            &&& next.phase.awaiting.contains(slot)
        }) by {
            crate::laws::phase::law_commands_are_small_steps(arrived, now, k);
            crate::laws::phase::law_what_is_issued_is_commanded(arrived, now, r[k].0);
            let c = choose|c: int| 0 <= c < r.len() && (#[trigger] r[c]).0 == r[k].0;
            assert(r[c].0 == r[k].0);
            assert(c == k);
        }
        assert forall|slot: SlotId| crate::laws::phase::delay_in(r, slot) is None implies #[trigger] crate::laws::phase::delay_of(
            next.phase,
            slot,
        ) == crate::laws::phase::delay_of(m.phase, slot) by {
            crate::laws::phase::law_what_is_issued_is_commanded(arrived, now, slot);
        }
    }
}

/// Whether `step` is `slot`'s acknowledgement of exactly `delay`.
pub open spec fn acknowledges(step: Step, slot: SlotId, delay: u32) -> bool {
    match step {
        Step::Traffic(Traffic::PhaseApplied(s, d, _)) => s == slot && d == delay,
        _ => false,
    }
}

/// A commanded slot is commanded nothing more, over any run of operations, until it
/// acknowledges exactly what it was commanded; its delay stays meanwhile.
pub proof fn law_the_fence_lasts_until_the_matching_echo(
    m: MakerView,
    steps: Seq<Step>,
    slot: SlotId,
    sender: SlotId,
    seq: u64,
    now: Instant,
)
    requires
        crate::laws::phase::sound(m.phase),
        m.phase.awaiting.contains(slot),
        forall|i: int| 0 <= i < steps.len() ==> !acknowledges(#[trigger] steps[i], slot, m.phase.commanded[slot]),
    ensures
        crate::laws::session::after_all(m, steps).phase.awaiting.contains(slot),
        crate::laws::phase::delay_of(crate::laws::session::after_all(m, steps).phase, slot) == Some(
            m.phase.commanded[slot],
        ),
        crate::laws::phase::delay_in(
            arrival_result(crate::laws::session::after_all(m, steps), sender, seq, now),
            slot,
        ) is None,
    decreases steps.len(),
{
    law_sessions_stay_in_phase(m, steps);
    assert(m.phase.commanded.dom().contains(slot));
    if steps.len() > 0 {
        let fewer = steps.drop_last();
        assert forall|i: int| 0 <= i < fewer.len() implies !acknowledges(#[trigger] fewer[i], slot, m.phase.commanded[slot]) by {
            assert(!acknowledges(steps[i], slot, m.phase.commanded[slot]));
        }
        law_the_fence_lasts_until_the_matching_echo(m, fewer, slot, sender, seq, now);
        law_sessions_stay_in_phase(m, fewer);
        assert(!acknowledges(steps[steps.len() - 1], slot, m.phase.commanded[slot]));
        let before = crate::laws::session::after_all(m, fewer);
        lemma_phase_step(before, steps.last());
        assert(before.phase.commanded.dom().contains(slot));
    }
    let end = crate::laws::session::after_all(m, steps);
    if end.started {
        let arrived = end.phase.note_arrival(sender, seq, now);
        crate::laws::phase::law_the_fence_holds_until_the_matching_echo(arrived, slot, sender, seq, 0, now);
    }
}

} // verus!
