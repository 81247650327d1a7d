//! Laws of a session's whole life: what no operation ever undoes, and what always holds.
use crate::delivery::DeliveryView;
use crate::ids::GameFrameCount;
use crate::ids::RelayId;
use crate::ids::SessionKeyView;
use crate::ids::SlotId;
use crate::law::ControlLaw;
use crate::maker::departure::StampsView;
use crate::maker::MakerView;
use crate::ops::authority::SyncView;
use crate::slot::ConnectionActivation;
use crate::slot::ConnectionState;
use crate::slot::ReconnectAdmission;
use crate::slot::SlotView;
use crate::sync::turns::SyncTurn;
use crate::time::Duration;
use crate::time::Instant;
use crate::wire::Authority;
use crate::wire::BufferBounds;
use crate::wire::BufferDirective;
use crate::wire::DepartedSlot;
use crate::wire::DepartureKind;
use crate::wire::EchoView;
use crate::wire::LabelView;
use crate::wire::LeaveDirective;
use crate::wire::SlotConditions;
use crate::wire::LEAVE_REASON_DROPPED;
use vstd::prelude::*;

verus! {

/// What the turn stream tells of a slot.
pub enum Traffic {
    Frame(SlotId, GameFrameCount),
    TurnFrame(SlotId, u64, GameFrameCount),
    Report(SlotId, u64, SyncTurn),
    ForwardAdvance(SlotId, Instant),
    Arrival(SlotId, u64, Instant),
    PhaseApplied(SlotId, u32, Instant),
}

pub open spec fn after_traffic(m: MakerView, step: Traffic) -> MakerView {
    match step {
        Traffic::Frame(slot, frame) => m.observe_frame(slot, frame),
        Traffic::TurnFrame(slot, seq, frame) => m.observe_turn_frame(slot, seq, frame),
        Traffic::Report(slot, seq, turn) => m.observe_sync(slot, seq, turn).0,
        Traffic::ForwardAdvance(slot, now) => if m.slots.contains_key(slot) {
            m.with_slot(slot, SlotView { last_forward_advance_at: Some(now), ..m.slots[slot] })
        } else {
            m
        },
        Traffic::Arrival(slot, seq, now) => m.ingest_arrival_phase(slot, seq, now),
        Traffic::PhaseApplied(slot, delay_us, now) => MakerView {
            phase: m.phase.note_applied(slot, delay_us, now),
            ..m
        },
    }
}

/// What moves the buffer, or who may move it.
pub enum Control {
    ObserveDirective(BufferDirective),
    ActiveDirective,
    IngestLocal(Seq<SlotConditions>, Instant),
    IngestRemote(Seq<SlotConditions>, u32, Instant),
    Sync(BufferBounds, Authority, Set<SlotId>, Instant),
    SetAuthority(Authority, Set<SlotId>, Instant),
    /// What led to a decision was recorded.
    InputsRecorded,
    /// A directive past the game's ceiling was recorded.
    CeilingRecorded(u32),
}

pub open spec fn after_control(m: MakerView, step: Control) -> MakerView {
    match step {
        Control::ObserveDirective(directive) => m.observe_directive(directive),
        Control::ActiveDirective => MakerView { pending_directive: m.active_directive(), ..m },
        Control::IngestLocal(conditions, now) => m.ingest(conditions, 0, true, now).0,
        Control::IngestRemote(conditions, mesh_rtt_us, now) => m.ingest(conditions, mesh_rtt_us, false, now).0,
        Control::Sync(bounds, authority, held, now) => m.bounded(bounds).set_authority(authority, held, now),
        Control::SetAuthority(authority, held, now) => m.set_authority(authority, held, now),
        Control::InputsRecorded => MakerView { pending_inputs: None, ..m },
        Control::CeilingRecorded(seq) => MakerView { over_ceiling_warned_seq: Some(seq), ..m },
    }
}

/// What the coordinator describes the session by, and what is read of its deliveries.
pub enum Setup {
    Describe(SyncView),
    Delivery(DeliveryView),
    Observers(Set<SlotId>),
    Expected(Set<SlotId>),
    Homed(Set<SlotId>),
    Relay(RelayId),
    Shape(Option<u32>, bool),
    Labels(Seq<LabelView>),
    ReleaseLabels(Duration, Instant),
    FinalizedDrops(bool),
}

pub open spec fn after_setup(m: MakerView, step: Setup) -> MakerView {
    match step {
        Setup::Describe(sync) => m.redescribed(sync),
        Setup::Delivery(delivery) => MakerView { delivery, ..m },
        Setup::Observers(observers) => MakerView { observers, sync: m.sync.remove_members(observers), ..m },
        Setup::Expected(expected) => MakerView { expected, ..m },
        Setup::Homed(homed) => MakerView { homed, ..m },
        Setup::Relay(id) => MakerView { own_relay_id: Some(id), ..m },
        Setup::Shape(latency_hint_ms, single_relay) => MakerView { latency_hint_ms, single_relay, ..m },
        Setup::Labels(region_labels) => MakerView { region_labels, ..m },
        Setup::ReleaseLabels(delay, now) => MakerView {
            region_labels_released: m.region_labels_released || m.labels_due(delay, now),
            ..m
        },
        Setup::FinalizedDrops(finalized_drops_enabled) => MakerView { finalized_drops_enabled, ..m },
    }
}

/// What becomes of a slot's link.
pub enum Link {
    Activate(SlotId, u64, Instant),
    Down(SlotId, Option<u64>),
    Reconnect(SlotId, Option<u64>, bool, Instant),
    Reinstate(SlotId, Instant),
    Remove(SlotId),
}

pub open spec fn after_link(m: MakerView, step: Link) -> MakerView {
    match step {
        Link::Activate(slot, epoch, now) => m.activate_connection_epoch(slot, epoch, now),
        Link::Down(slot, epoch) => m.mark_connection_down(slot, epoch),
        Link::Reconnect(slot, epoch, hold_pending, now) => m.resolve_reconnect(slot, epoch, hold_pending, now),
        Link::Reinstate(slot, now) => m.reinstate_slot(slot, now),
        Link::Remove(slot) => m.remove_slot(slot),
    }
}

/// What makes a slot leave.
pub enum Leave {
    Observe(LeaveDirective, Instant),
    Decide(SlotId, u32, Instant),
    ForceDecide(SlotId, u32, Instant),
    ForceUndecided(Instant),
    Departure(SlotId, StampsView, u32),
    DepartureForEpoch(SlotId, StampsView, u32, Option<u64>),
    Seed(SlotId, DepartureKind, Option<u64>, bool, Instant),
    Resume(Seq<DepartedSlot>, Instant),
    Seal(SlotId, Option<u64>),
    Finish(SlotId, Option<u64>),
}

pub open spec fn after_leave(m: MakerView, step: Leave) -> MakerView {
    match step {
        Leave::Observe(leave, now) => m.observe_leave(leave, now),
        Leave::Decide(slot, reason, now) => m.decide_leave(slot, reason, now),
        Leave::ForceDecide(slot, reason, now) => m.force_decide_leave(slot, reason, now),
        Leave::ForceUndecided(now) => {
            let slots = m.with_reasons(m.undecided());
            m.force_decide_leaves(slots, slots.len() as int, now).0
        },
        Leave::Departure(slot, stamps, reason) => m.note_departure(slot, stamps, reason, None).forgetting(slot),
        Leave::DepartureForEpoch(slot, stamps, reason, epoch) => m.record_departure_outcome(slot, stamps, reason, epoch),
        Leave::Seed(slot, kind, count, finalized, now) => m.seed_departed(slot, kind, count, finalized, now),
        Leave::Resume(departed, now) => m.resuming(Some(departed), now).0,
        Leave::Seal(slot, epoch) => m.seal_for_finalize(slot, epoch),
        Leave::Finish(slot, count) => m.finish_finalize(slot, count),
    }
}

/// What is noted of the session's start, its players and its end.
pub enum Note {
    Connected(SlotId),
    Started(SlotId),
    PeerStarted(SlotId),
    Present(SlotId, Instant),
    Reevaluate(Instant),
    MarkStarted(Instant),
    StartedAt(u64),
    AdoptStart(Option<u32>, Instant, u64),
    Result(SlotId, EchoView),
    WatchSilence,
    Evicted(SlotId),
    ClaimClose,
    ReopenClose,
}

pub open spec fn after_note(m: MakerView, step: Note) -> MakerView {
    match step {
        Note::Connected(slot) => MakerView { connected: m.connected.insert(slot), ..m },
        Note::Started(slot) => MakerView { started_slots: m.started_slots.insert(slot), ..m },
        Note::PeerStarted(slot) => MakerView { peer_started: m.peer_started.insert(slot), ..m },
        Note::Present(slot, now) => if m.present_slot_counts(slot) { m.with_live(slot).maybe_start(now) } else { m },
        Note::Reevaluate(now) => m.maybe_start(now),
        Note::MarkStarted(now) => m.latch_started(now),
        Note::StartedAt(now_ms) => m.note_started_at_ms(now_ms),
        Note::AdoptStart(depth, now, now_ms) => m.adopt_session_start(depth, now, now_ms),
        Note::Result(slot, echo) => if crate::wire::valid_payload(echo.payload) && !m.results.contains_key(slot) {
            MakerView { results: m.results.insert(slot, echo), ..m }
        } else {
            m
        },
        Note::WatchSilence => m.recovering(),
        Note::Evicted(slot) => MakerView { silence_evicted: m.silence_evicted.insert(slot), ..m },
        Note::ClaimClose => MakerView { close_reported: true, ..m },
        Note::ReopenClose => MakerView { close_reported: false, ..m },
    }
}

/// Everything that can happen to a session, one operation of its decision-maker each.
pub enum Step {
    Traffic(Traffic),
    Control(Control),
    Setup(Setup),
    Link(Link),
    Leave(Leave),
    Note(Note),
}

/// The session once `step` has happened to it.
#[verifier::opaque]
pub open spec fn after(m: MakerView, step: Step) -> MakerView {
    match step {
        Step::Traffic(t) => after_traffic(m, t),
        Step::Control(c) => after_control(m, c),
        Step::Setup(s) => after_setup(m, s),
        Step::Link(l) => after_link(m, l),
        Step::Leave(l) => after_leave(m, l),
        Step::Note(n) => after_note(m, n),
    }
}

/// The session once every one of `steps` has happened to it, in order.
pub open spec fn after_all(m: MakerView, steps: Seq<Step>) -> MakerView
    decreases steps.len(),
{
    if steps.len() == 0 {
        m
    } else {
        after(after_all(m, steps.drop_last()), steps.last())
    }
}

/// Whether everything settled in `a` is still settled, unchanged, in `b`.
pub open spec fn keeps(a: MakerView, b: MakerView) -> bool {
    &&& forall|s: SlotId| #[trigger]
        a.decided_leaves.contains_key(s) ==> b.decided_leaves.contains_key(s) && b.decided_leaves[s] == a.decided_leaves[s]
    &&& forall|s: SlotId| #[trigger]
        a.decided_leave_at.contains_key(s) ==> b.decided_leave_at.contains_key(s) && b.decided_leave_at[s]
            == a.decided_leave_at[s]
    &&& forall|s: SlotId, e: u64| #[trigger] a.epoch_retired(s, e) ==> b.epoch_retired(s, e)
    &&& forall|s: SlotId| #[trigger]
        a.results.contains_key(s) ==> b.results.contains_key(s) && b.results[s] == a.results[s]
    &&& a.started ==> b.started
    &&& a.started_at is Some ==> b.started_at == a.started_at
    &&& a.started_at_ms is Some ==> b.started_at_ms == a.started_at_ms
    &&& a.resumed ==> b.resumed
    &&& a.connected.subset_of(b.connected)
    &&& a.started_slots.subset_of(b.started_slots)
    &&& a.peer_started.subset_of(b.peer_started)
    &&& a.silence_evicted.subset_of(b.silence_evicted)
    &&& a.recovered_leaves.subset_of(b.recovered_leaves)
    &&& a.region_labels_released ==> b.region_labels_released
    &&& a.decision_seq <= b.decision_seq
    &&& a.next_leave_seq <= b.next_leave_seq
    &&& a.phase.disabled ==> b.phase.disabled
    &&& a.key == b.key && a.law == b.law
}

/// Whether a decided leave is in order: it names its own slot, its number is among those
/// given out, and a dropped player's turn count is one that finalization proved.
pub open spec fn leave_in_order(slot: SlotId, leave: LeaveDirective, next_leave_seq: u32) -> bool {
    &&& leave.slot == slot.0
    &&& leave.leave_seq <= next_leave_seq
    &&& leave.reason == LEAVE_REASON_DROPPED && leave.final_turn_count is Some ==> leave.finalized
}

/// Whether a session's records agree: a decided slot is departed and its leave in order, a
/// departed slot is not live, and a slot's own connection is not a retired one.
pub open spec fn sound(m: MakerView) -> bool {
    &&& forall|s: SlotId| #[trigger]
        m.decided_leaves.contains_key(s) ==> m.departures.contains_key(s) && leave_in_order(
            s,
            m.decided_leaves[s],
            m.next_leave_seq,
        )
    &&& forall|s: SlotId| #[trigger] m.departures.contains_key(s) ==> !m.slots.contains_key(s)
    &&& forall|s: SlotId| #[trigger] m.retired.contains_key(s) ==> m.connections.contains_key(s)
    &&& forall|s: SlotId| #[trigger]
        m.connections.contains_key(s) ==> !m.epoch_retired(s, m.connections[s].spec_epoch())
}

/// Whether `b` has the same records as `a`: at most live slots' conditions and the control
/// law's own state differ.
spec fn same_records(a: MakerView, b: MakerView) -> bool {
    &&& b.slots.dom() == a.slots.dom()
    &&& b.departures == a.departures
    &&& b.connections == a.connections
    &&& b.retired == a.retired
    &&& same_history(a, b)
}

/// The part of [`same_records`] that speaks of what is settled.
spec fn same_history(a: MakerView, b: MakerView) -> bool {
    &&& b.decided_leaves == a.decided_leaves
    &&& b.decided_leave_at == a.decided_leave_at
    &&& b.next_leave_seq == a.next_leave_seq
    &&& same_progress(a, b)
}

/// The part of [`same_history`] that leaves have no part in.
spec fn same_progress(a: MakerView, b: MakerView) -> bool {
    &&& b.results == a.results
    &&& b.started == a.started
    &&& b.started_at == a.started_at
    &&& b.started_at_ms == a.started_at_ms
    &&& b.resumed == a.resumed
    &&& b.connected == a.connected
    &&& b.started_slots == a.started_slots
    &&& b.peer_started == a.peer_started
    &&& b.silence_evicted == a.silence_evicted
    &&& b.recovered_leaves == a.recovered_leaves
    &&& b.region_labels_released == a.region_labels_released
    &&& b.key == a.key
    &&& b.law == a.law
    &&& b.decision_seq >= a.decision_seq
    &&& a.phase.disabled ==> b.phase.disabled
}

proof fn lemma_announcing(m: MakerView, frame: GameFrameCount)
    ensures
        same_records(m, m.announcing(frame).0),
{
}

proof fn lemma_noting_target(m: MakerView, frame: u32, target: u32, now: Instant)
    ensures
        same_records(m, m.noting_target(frame, target, now)),
{
}

proof fn lemma_proposal(m: MakerView, frame: u32, target: u32, shrink_target: u32)
    ensures
        same_records(m, m.proposal(frame, target, shrink_target).0),
{
}

proof fn lemma_decide(m: MakerView, now: Instant)
    ensures
        same_records(m, m.decide(now).0),
{
    match (m.session_frame(), m.target_inputs()) {
        (None, _) => {},
        (Some(frame), None) => {
            lemma_announcing(m, frame);
        },
        (Some(frame), Some(inputs)) => {
            let extra = m.delivery.cushion_turns.saturating_add(m.phase.stretch_turns(now));
            let target = inputs.target.saturating_add(extra);
            let shrink_target = inputs.shrink_target.saturating_add(extra);
            let noted = m.noting_target(frame.0, target, now);
            lemma_noting_target(m, frame.0, target, now);
            lemma_proposal(noted, frame.0, target, shrink_target);
            lemma_announcing(m.steer(frame, inputs, now).0, frame);
        },
    }
}

proof fn lemma_activate_epoch(m: MakerView, slot: SlotId, epoch: u64, now: Instant)
    ensures
        same_history(m, m.activate_connection_epoch(slot, epoch, now)),
        m.activate_connection_epoch(slot, epoch, now).departures == m.departures,
        m.activate_connection_epoch(slot, epoch, now).slots.dom() == m.slots.dom(),
        forall|s: SlotId, e: u64| #[trigger]
            m.epoch_retired(s, e) ==> m.activate_connection_epoch(slot, epoch, now).epoch_retired(s, e),
        sound(m) ==> sound(m.activate_connection_epoch(slot, epoch, now)),
{
    let next = m.activate_connection_epoch(slot, epoch, now);
    assert(next.slots.dom() =~= m.slots.dom());
    if sound(m) {
        assert forall|s: SlotId| #[trigger] next.connections.contains_key(s) implies !next.epoch_retired(
            s,
            next.connections[s].spec_epoch(),
        ) by {
            if s != slot {
                assert(m.connections.contains_key(s));
            }
        }
    }
}

proof fn lemma_activate_upto(m: MakerView, conditions: Seq<SlotConditions>, n: int, now: Instant)
    ensures
        same_history(m, m.activate_upto(conditions, n, now)),
        m.activate_upto(conditions, n, now).departures == m.departures,
        forall|s: SlotId, e: u64| #[trigger]
            m.epoch_retired(s, e) ==> m.activate_upto(conditions, n, now).epoch_retired(s, e),
        sound(m) ==> sound(m.activate_upto(conditions, n, now)),
    decreases n,
{
    if n > 0 {
        lemma_activate_upto(m, conditions, n - 1, now);
        let c = conditions[n - 1];
        if c.slot <= 255 && c.connection_epoch is Some {
            lemma_activate_epoch(
                m.activate_upto(conditions, n - 1, now),
                SlotId(c.slot as u8),
                c.connection_epoch->0,
                now,
            );
        }
    }
}

/// Whether going from `a` to `b` undoes nothing and leaves a sound session sound.
#[verifier::opaque]
spec fn lawful(a: MakerView, b: MakerView) -> bool {
    keeps(a, b) && (sound(a) ==> sound(b))
}

proof fn lemma_lawful_chain(a: MakerView, b: MakerView, c: MakerView)
    requires
        lawful(a, b),
        lawful(b, c),
    ensures
        lawful(a, c),
{
    reveal(lawful);
}

proof fn lemma_same_records(a: MakerView, b: MakerView)
    requires
        same_records(a, b),
    ensures
        lawful(a, b),
{
    reveal(lawful);
    if sound(a) {
        assert forall|s: SlotId| #[trigger] b.departures.contains_key(s) implies !b.slots.contains_key(s) by {
            assert(!a.slots.dom().contains(s));
        }
        assert forall|s: SlotId| #[trigger] b.connections.contains_key(s) implies !b.epoch_retired(
            s,
            b.connections[s].spec_epoch(),
        ) by {
            assert(!a.epoch_retired(s, a.connections[s].spec_epoch()));
        }
    }
    assert forall|s: SlotId, e: u64| #[trigger] a.epoch_retired(s, e) implies b.epoch_retired(s, e) by {}
}

proof fn lemma_note_departure(m: MakerView, slot: SlotId, stamps: StampsView, reason: u32, epoch: Option<u64>)
    ensures
        lawful(m, m.note_departure(slot, stamps, reason, epoch)),
        lawful(m, m.note_departure(slot, stamps, reason, epoch).forgetting(slot)),
        m.note_departure(slot, stamps, reason, epoch).departures.contains_key(slot),
{
    reveal(lawful);
}

proof fn lemma_deciding(m: MakerView, slot: SlotId, directive: LeaveDirective, now: Instant)
    requires
        !m.decided_leaves.contains_key(slot),
        m.departures.contains_key(slot),
        leave_in_order(slot, directive, m.next_leave_seq.saturating_add(1)),
    ensures
        lawful(m, m.deciding(slot, directive, now)),
{
    reveal(lawful);
}

proof fn lemma_decide_leave(m: MakerView, slot: SlotId, reason: u32, now: Instant)
    ensures
        lawful(m, m.decide_leave(slot, reason, now)),
        lawful(m, m.force_decide_leave(slot, reason, now)),
{
    let departed = m.departing(slot, reason);
    lemma_note_departure(m, slot, StampsView::blank(), reason, None);
    if m.is_authority() && departed.committed(slot, reason) is Some {
        lemma_deciding(departed, slot, departed.committed(slot, reason)->0, now);
        lemma_lawful_chain(m, departed, m.decide_leave(slot, reason, now));
    }
    if m.forced_decision(slot, reason) is Some {
        lemma_deciding(departed, slot, m.forced_decision(slot, reason)->0, now);
        lemma_lawful_chain(m, departed, m.force_decide_leave(slot, reason, now));
    }
}

proof fn lemma_decide_leaves(m: MakerView, slots: Seq<(SlotId, u32)>, n: int, now: Instant)
    ensures
        lawful(m, m.decide_leaves(slots, n, now).0),
        lawful(m, m.force_decide_leaves(slots, n, now).0),
    decreases n,
{
    reveal(lawful);
    if n > 0 {
        lemma_decide_leaves(m, slots, n - 1, now);
        let (slot, reason) = slots[n - 1];
        let a = m.decide_leaves(slots, n - 1, now).0;
        lemma_decide_leave(a, slot, reason, now);
        lemma_lawful_chain(m, a, a.decide_leave(slot, reason, now));
        let b = m.force_decide_leaves(slots, n - 1, now).0;
        lemma_decide_leave(b, slot, reason, now);
        lemma_lawful_chain(m, b, b.force_decide_leave(slot, reason, now));
    }
}

proof fn lemma_seed(m: MakerView, slot: SlotId, kind: DepartureKind, count: Option<u64>, finalized: bool, now: Instant)
    ensures
        lawful(m, m.seed_departed(slot, kind, count, finalized, now)),
{
    let stamps = StampsView {
        final_turn_count: m.seed_count(kind, count, finalized),
        finalized: m.seed_finalized(kind, finalized),
        ..StampsView::blank()
    };
    lemma_note_departure(m, slot, stamps, crate::maker::leave::reason_for(kind), None);
    let seeded = m.seeding(slot, kind, count, finalized);
    if m.seed_directive(slot, kind, count, finalized) is Some {
        lemma_deciding(seeded, slot, m.seed_directive(slot, kind, count, finalized)->0, now);
        lemma_lawful_chain(m, seeded, m.seed_departed(slot, kind, count, finalized, now));
    }
}

proof fn lemma_seed_upto(m: MakerView, departed: Seq<DepartedSlot>, n: int, now: Instant)
    ensures
        lawful(m, m.seed_upto(departed, n, now).0),
    decreases n,
{
    reveal(lawful);
    if n > 0 {
        lemma_seed_upto(m, departed, n - 1, now);
        let before = m.seed_upto(departed, n - 1, now).0;
        let d = departed[n - 1];
        lemma_seed(before, d.slot, d.kind, d.final_turn_count, d.finalized, now);
        lemma_lawful_chain(m, before, m.seed_upto(departed, n, now).0);
    }
}

proof fn lemma_keeping_leave(m: MakerView, slot: SlotId, leave: LeaveDirective, now: Instant)
    requires
        !m.decided_leaves.contains_key(slot),
    ensures
        keeps(m, m.keeping_leave(slot, leave, now)),
        m.keeping_leave(slot, leave, now).slots == m.slots,
        m.keeping_leave(slot, leave, now).departures == m.departures,
        m.keeping_leave(slot, leave, now).next_leave_seq >= leave.leave_seq,
        m.keeping_leave(slot, leave, now).decided_leaves == m.decided_leaves.insert(slot, leave),
        m.keeping_leave(slot, leave, now).retired == m.retired,
        m.keeping_leave(slot, leave, now).connections.dom() == m.connections.dom(),
        forall|s: SlotId| #[trigger]
            m.connections.contains_key(s) ==> m.keeping_leave(slot, leave, now).connections[s].spec_epoch()
                == m.connections[s].spec_epoch(),
{
    assert(m.keeping_leave(slot, leave, now).connections.dom() =~= m.connections.dom());
}

proof fn lemma_observe_leave(m: MakerView, observed: LeaveDirective, now: Instant)
    ensures
        lawful(m, m.observe_leave(observed, now)),
{
    reveal(lawful);
    let leave = crate::maker::departure::normalized_leave(observed, m.finalized_drops_enabled);
    let slot = SlotId(leave.slot as u8);
    if leave.slot <= 255 && m.leave_is_new(leave) {
        let kept = m.keeping_leave(slot, leave, now);
        let stamps = m.observed_stamps(slot, leave);
        lemma_keeping_leave(m, slot, leave, now);
        lemma_note_departure(kept, slot, stamps, leave.reason, None);
        let next = kept.note_departure(slot, stamps, leave.reason, None).forgetting(slot);
        assert(keeps(m, next));
        if sound(m) {
            assert forall|s: SlotId| #[trigger] next.connections.contains_key(s) implies !next.epoch_retired(
                s,
                next.connections[s].spec_epoch(),
            ) by {
                assert(kept.connections.dom().contains(s));
                assert(m.connections.contains_key(s));
                assert(!m.epoch_retired(s, m.connections[s].spec_epoch()));
            }
            assert forall|s: SlotId| #[trigger] next.retired.contains_key(s) implies next.connections.contains_key(s) by {
                assert(m.retired.contains_key(s));
                assert(kept.connections.dom().contains(s));
            }
            assert(sound(next));
        }
    }
}

proof fn lemma_set_authority(m: MakerView, authority: Authority, held: Set<SlotId>, now: Instant)
    ensures
        lawful(m, m.set_authority(authority, held, now)),
{
    let reseated = m.reseated(authority);
    lemma_same_records(m, reseated);
    if m.promotes(authority) {
        let handed = m.handoff(held);
        lemma_decide_leaves(reseated, handed, handed.len() as int, now);
        lemma_lawful_chain(m, reseated, m.set_authority(authority, held, now));
    }
}

proof fn lemma_compare_sync_turn(m: MakerView, slot: SlotId, turn: SyncTurn)
    ensures
        same_records(m, m.compare_sync_turn(slot, turn).0),
{
}

proof fn lemma_sync_step(m: MakerView, slot: SlotId)
    ensures
        same_records(m, m.sync_step(slot).0),
{
    let popped = m.with_origin(slot, m.origin(slot).pop());
    if m.sync_continues(slot) {
        let turn = (m.origin(slot).popped()->Ok_0)->0;
        lemma_compare_sync_turn(popped, slot, turn);
    }
}

proof fn lemma_drain_sync(m: MakerView, slot: SlotId)
    ensures
        same_records(m, m.drain_sync(slot).0),
    decreases u64::MAX - m.origin(slot).next,
{
    lemma_sync_step(m, slot);
    let (next, verdict) = m.sync_step(slot);
    if m.sync_continues(slot) && verdict is None {
        lemma_drain_sync(next, slot);
    }
}

proof fn lemma_observe_sync(m: MakerView, slot: SlotId, seq: u64, turn: SyncTurn)
    ensures
        same_records(m, m.observe_sync(slot, seq, turn).0),
{
    let pushed = m.with_origin(slot, m.origin(slot).push(seq, turn));
    if m.follows_sync(slot) {
        match m.origin(slot).pushed(seq, turn) {
            Ok(None) => {
                lemma_drain_sync(pushed, slot);
            },
            Err(_) => {},
            Ok(Some(read)) => {
                lemma_compare_sync_turn(pushed, slot, read);
                lemma_drain_sync(pushed.compare_sync_turn(slot, read).0, slot);
            },
        }
    }
}

proof fn lemma_ingest(m: MakerView, conditions: Seq<SlotConditions>, mesh_rtt_us: u32, local: bool, now: Instant)
    ensures
        lawful(m, m.ingest(conditions, mesh_rtt_us, local, now).0),
{
    reveal(lawful);
    lemma_activate_upto(m, conditions, conditions.len() as int, now);
    let ready = if local { m.activate_local_epochs(conditions, now) } else { m };
    assert(lawful(m, ready));
    let ingested = ready.ingest_upto(conditions, mesh_rtt_us, conditions.len() as int, now);
    lemma_ingest_keeps(ready, conditions, mesh_rtt_us, conditions.len() as int, now);
    lemma_decide(ingested, now);
    lemma_same_records(ingested, ingested.decide(now).0);
    lemma_lawful_chain(m, ready, ingested);
    lemma_lawful_chain(m, ingested, ingested.decide(now).0);
}

proof fn lemma_ingest_keeps(m: MakerView, conditions: Seq<SlotConditions>, mesh_rtt_us: u32, n: int, now: Instant)
    ensures
        lawful(m, m.ingest_upto(conditions, mesh_rtt_us, n, now)),
    decreases n,
{
    reveal(lawful);
    if n > 0 {
        lemma_ingest_keeps(m, conditions, mesh_rtt_us, n - 1, now);
        let before = m.ingest_upto(conditions, mesh_rtt_us, n - 1, now);
        let next = before.ingest_one(conditions[n - 1], mesh_rtt_us, now);
        assert(lawful(before, next));
        lemma_lawful_chain(m, before, next);
    }
}

proof fn lemma_reconnect(m: MakerView, slot: SlotId, observed: Option<u64>, hold_pending: bool, now: Instant)
    ensures
        lawful(m, m.reinstate_slot(slot, now)),
        lawful(m, m.resolve_reconnect(slot, observed, hold_pending, now)),
{
    reveal(lawful);
    let back = m.reinstate_slot(slot, now);
    assert(lawful(m, back));
    if m.readmits(slot, observed, hold_pending) && observed is Some {
        lemma_activate_epoch(back, slot, observed->0, now);
        lemma_lawful_chain(m, back, back.activate_connection_epoch(slot, observed->0, now));
    }
}

proof fn lemma_connection_down(m: MakerView, slot: SlotId, observed: Option<u64>)
    ensures
        lawful(m, m.mark_connection_down(slot, observed)),
{
    reveal(lawful);
    let next = m.mark_connection_down(slot, observed);
    if sound(m) {
        assert forall|s: SlotId| #[trigger] next.connections.contains_key(s) implies !next.epoch_retired(
            s,
            next.connections[s].spec_epoch(),
        ) by {
            if m.connections.contains_key(s) {
                assert(!m.epoch_retired(s, m.connections[s].spec_epoch()));
            } else {
                assert(!m.retired.contains_key(s));
            }
        }
    }
}

proof fn lemma_record_departure(m: MakerView, slot: SlotId, stamps: StampsView, reason: u32, epoch: Option<u64>)
    ensures
        lawful(m, m.record_departure_outcome(slot, stamps, reason, epoch)),
{
    reveal(lawful);
    if m.decided_leaves.contains_key(slot) {
        lemma_note_departure(m, slot, stamps, reason, None);
    } else if m.down_accepted(slot, epoch) {
        let down = m.mark_connection_down(slot, epoch);
        lemma_connection_down(m, slot, epoch);
        lemma_note_departure(down, slot, stamps, reason, epoch);
        lemma_lawful_chain(m, down, down.note_departure(slot, stamps, reason, epoch).forgetting(slot));
    }
}

proof fn lemma_resume(m: MakerView, departed: Seq<DepartedSlot>, now: Instant)
    ensures
        lawful(m, m.resuming(Some(departed), now).0),
{
    reveal(lawful);
    lemma_seed_upto(m, departed, departed.len() as int, now);
    let seeded = m.seed_upto(departed, departed.len() as int, now).0;
    assert(lawful(seeded, m.resuming(Some(departed), now).0));
    lemma_lawful_chain(m, seeded, m.resuming(Some(departed), now).0);
}

proof fn lemma_finish(m: MakerView, slot: SlotId, count: Option<u64>)
    ensures
        lawful(m, m.finish_finalize(slot, count)),
{
    reveal(lawful);
    if count is Some {
        lemma_note_departure(
            m,
            slot,
            StampsView { final_turn_count: count, finalized: true, ..StampsView::blank() },
            LEAVE_REASON_DROPPED,
            None,
        );
    }
}

proof fn lemma_frames(m: MakerView, slot: SlotId, seq: u64, frame: GameFrameCount)
    ensures
        lawful(m, m.observe_frame(slot, frame)),
        lawful(m, m.observe_turn_frame(slot, seq, frame)),
{
    reveal(lawful);
}

proof fn lemma_arrival(m: MakerView, slot: SlotId, seq: u64, now: Instant)
    ensures
        lawful(m, m.ingest_arrival_phase(slot, seq, now)),
{
    assert(m.phase.disabled ==> m.phase.note_arrival(slot, seq, now).disabled);
    let arrived = m.phase.note_arrival(slot, seq, now);
    assert(arrived.disabled ==> arrived.evaluate(now).disabled);
    assert(same_records(m, m.ingest_arrival_phase(slot, seq, now)));
    lemma_same_records(m, m.ingest_arrival_phase(slot, seq, now));
}

proof fn lemma_traffic(m: MakerView, step: Traffic)
    ensures
        lawful(m, after_traffic(m, step)),
{
    match step {
        Traffic::Frame(slot, frame) => {
            lemma_frames(m, slot, 0, frame);
        },
        Traffic::TurnFrame(slot, seq, frame) => {
            lemma_frames(m, slot, seq, frame);
        },
        Traffic::Report(slot, seq, turn) => {
            lemma_observe_sync(m, slot, seq, turn);
            lemma_same_records(m, m.observe_sync(slot, seq, turn).0);
        },
        Traffic::ForwardAdvance(slot, now) => {
            assert(after_traffic(m, step).slots.dom() =~= m.slots.dom());
            lemma_same_records(m, after_traffic(m, step));
        },
        Traffic::Arrival(slot, seq, now) => {
            lemma_arrival(m, slot, seq, now);
        },
        Traffic::PhaseApplied(slot, delay_us, now) => {
            lemma_same_records(m, after_traffic(m, step));
        },
    }
}

proof fn lemma_control(m: MakerView, step: Control)
    ensures
        lawful(m, after_control(m, step)),
{
    match step {
        Control::ObserveDirective(directive) => {
            lemma_same_records(m, m.observe_directive(directive));
        },
        Control::ActiveDirective | Control::InputsRecorded | Control::CeilingRecorded(_) => {
            lemma_same_records(m, after_control(m, step));
        },
        Control::IngestLocal(conditions, now) => {
            lemma_ingest(m, conditions, 0, true, now);
        },
        Control::IngestRemote(conditions, mesh_rtt_us, now) => {
            lemma_ingest(m, conditions, mesh_rtt_us, false, now);
        },
        Control::Sync(bounds, authority, held, now) => {
            lemma_set_authority(m.bounded(bounds), authority, held, now);
            lemma_same_records(m, m.bounded(bounds));
            lemma_lawful_chain(m, m.bounded(bounds), m.bounded(bounds).set_authority(authority, held, now));
        },
        Control::SetAuthority(authority, held, now) => {
            lemma_set_authority(m, authority, held, now);
        },
    }
}

proof fn lemma_setup(m: MakerView, step: Setup)
    ensures
        lawful(m, after_setup(m, step)),
{
    if step is ReleaseLabels {
        reveal(lawful);
    } else {
        lemma_same_records(m, after_setup(m, step));
    }
}

proof fn lemma_link(m: MakerView, step: Link)
    ensures
        lawful(m, after_link(m, step)),
{
    match step {
        Link::Activate(slot, epoch, now) => {
            lemma_activate_lawful(m, slot, epoch, now);
        },
        Link::Down(slot, epoch) => {
            lemma_connection_down(m, slot, epoch);
        },
        Link::Reconnect(slot, epoch, hold_pending, now) => {
            lemma_reconnect(m, slot, epoch, hold_pending, now);
        },
        Link::Reinstate(slot, now) => {
            lemma_reconnect(m, slot, None, false, now);
        },
        Link::Remove(slot) => {
            lemma_remove(m, slot);
        },
    }
}

proof fn lemma_activate_lawful(m: MakerView, slot: SlotId, epoch: u64, now: Instant)
    ensures
        lawful(m, m.activate_connection_epoch(slot, epoch, now)),
{
    reveal(lawful);
    lemma_activate_epoch(m, slot, epoch, now);
}

proof fn lemma_remove(m: MakerView, slot: SlotId)
    ensures
        lawful(m, m.remove_slot(slot)),
{
    reveal(lawful);
}

proof fn lemma_leave(m: MakerView, step: Leave)
    ensures
        lawful(m, after_leave(m, step)),
{
    match step {
        Leave::Observe(leave, now) => {
            lemma_observe_leave(m, leave, now);
        },
        Leave::Decide(slot, reason, now) => {
            lemma_decide_leave(m, slot, reason, now);
        },
        Leave::ForceDecide(slot, reason, now) => {
            lemma_decide_leave(m, slot, reason, now);
        },
        Leave::ForceUndecided(now) => {
            let slots = m.with_reasons(m.undecided());
            lemma_decide_leaves(m, slots, slots.len() as int, now);
        },
        Leave::Departure(slot, stamps, reason) => {
            lemma_note_departure(m, slot, stamps, reason, None);
        },
        Leave::DepartureForEpoch(slot, stamps, reason, epoch) => {
            lemma_record_departure(m, slot, stamps, reason, epoch);
        },
        Leave::Seed(slot, kind, count, finalized, now) => {
            lemma_seed(m, slot, kind, count, finalized, now);
        },
        Leave::Resume(departed, now) => {
            lemma_resume(m, departed, now);
        },
        Leave::Seal(slot, epoch) => {
            lemma_same_records(m, m.seal_for_finalize(slot, epoch));
        },
        Leave::Finish(slot, count) => {
            lemma_finish(m, slot, count);
        },
    }
}

/// Whether `b` is `a` but that more may have started.
spec fn only_starts(a: MakerView, b: MakerView) -> bool {
    &&& b.slots == a.slots
    &&& b.departures == a.departures
    &&& b.connections == a.connections
    &&& b.retired == a.retired
    &&& b.decided_leaves == a.decided_leaves
    &&& b.decided_leave_at == a.decided_leave_at
    &&& b.next_leave_seq == a.next_leave_seq
    &&& b.results == a.results
    &&& b.resumed == a.resumed
    &&& b.connected == a.connected
    &&& b.started_slots == a.started_slots
    &&& b.peer_started == a.peer_started
    &&& b.silence_evicted == a.silence_evicted
    &&& b.recovered_leaves == a.recovered_leaves
    &&& b.region_labels_released == a.region_labels_released
    &&& b.key == a.key
    &&& b.law == a.law
    &&& b.decision_seq == a.decision_seq
    &&& b.phase == a.phase
    &&& a.started ==> b.started
    &&& a.started_at is Some ==> b.started_at == a.started_at
    &&& a.started_at_ms is Some ==> b.started_at_ms == a.started_at_ms
}

proof fn lemma_only_starts(a: MakerView, b: MakerView)
    requires
        only_starts(a, b),
    ensures
        lawful(a, b),
{
    reveal(lawful);
    assert forall|s: SlotId, e: u64| #[trigger] a.epoch_retired(s, e) implies b.epoch_retired(s, e) by {}
    if sound(a) {
        assert forall|s: SlotId| #[trigger] b.connections.contains_key(s) implies !b.epoch_retired(
            s,
            b.connections[s].spec_epoch(),
        ) by {
            assert(!a.epoch_retired(s, a.connections[s].spec_epoch()));
        }
    }
}

proof fn lemma_starting(m: MakerView, now: Instant)
    ensures
        lawful(m, m.maybe_start(now)),
{
    lemma_only_starts(m, m.maybe_start(now));
}

proof fn lemma_marks(m: MakerView, slot: SlotId, echo: EchoView)
    ensures
        lawful(m, MakerView { connected: m.connected.insert(slot), ..m }),
        lawful(m, MakerView { started_slots: m.started_slots.insert(slot), ..m }),
        lawful(m, MakerView { peer_started: m.peer_started.insert(slot), ..m }),
        lawful(m, MakerView { silence_evicted: m.silence_evicted.insert(slot), ..m }),
        !m.results.contains_key(slot) ==> lawful(m, MakerView { results: m.results.insert(slot, echo), ..m }),
        lawful(m, m.recovering()),
        lawful(m, m),
{
    reveal(lawful);
}

proof fn lemma_note(m: MakerView, step: Note)
    ensures
        lawful(m, after_note(m, step)),
{
    let blank = EchoView { payload: Seq::empty(), arrival_ms: 0, session_frame: None, slot_frame: None };
    match step {
        Note::Connected(slot) => {
            lemma_marks(m, slot, blank);
        },
        Note::Started(slot) => {
            lemma_marks(m, slot, blank);
        },
        Note::PeerStarted(slot) => {
            lemma_marks(m, slot, blank);
        },
        Note::Present(slot, now) => {
            lemma_marks(m, slot, blank);
            lemma_only_starts(m, m.with_live(slot));
            lemma_starting(m.with_live(slot), now);
            lemma_lawful_chain(m, m.with_live(slot), m.with_live(slot).maybe_start(now));
        },
        Note::Reevaluate(now) => {
            lemma_starting(m, now);
        },
        Note::MarkStarted(now) => {
            lemma_only_starts(m, m.latch_started(now));
        },
        Note::StartedAt(now_ms) => {
            lemma_only_starts(m, m.note_started_at_ms(now_ms));
        },
        Note::AdoptStart(depth, now, now_ms) => {
            lemma_only_starts(m, m.adopt_session_start(depth, now, now_ms));
        },
        Note::Result(slot, echo) => {
            lemma_marks(m, slot, echo);
        },
        Note::WatchSilence => {
            lemma_marks(m, SlotId(0), blank);
        },
        Note::Evicted(slot) => {
            lemma_marks(m, slot, blank);
        },
        Note::ClaimClose => {
            lemma_only_starts(m, MakerView { close_reported: true, ..m });
        },
        Note::ReopenClose => {
            lemma_only_starts(m, MakerView { close_reported: false, ..m });
        },
    }
}

proof fn lemma_step(m: MakerView, step: Step)
    ensures
        lawful(m, after(m, step)),
{
    reveal(after);
    match step {
        Step::Traffic(t) => {
            lemma_traffic(m, t);
        },
        Step::Control(c) => {
            lemma_control(m, c);
        },
        Step::Setup(s) => {
            lemma_setup(m, s);
        },
        Step::Link(l) => {
            lemma_link(m, l);
        },
        Step::Leave(l) => {
            lemma_leave(m, l);
        },
        Step::Note(n) => {
            lemma_note(m, n);
        },
    }
}

/// No operation undoes what is settled: a decided leave and when it was decided, a retired
/// connection epoch, a reported result, the start and when it was, who connected and
/// started, evictions, released labels, and the numbering of decisions and leaves.
pub proof fn law_no_step_undoes_what_is_settled(m: MakerView, step: Step)
    ensures
        keeps(m, after(m, step)),
{
    reveal(lawful);
    lemma_step(m, step);
}

/// A session that nothing has happened to is sound.
pub proof fn law_sessions_begin_sound(
    key: SessionKeyView,
    bounds: BufferBounds,
    law: ControlLaw,
    authority: Authority,
    observers: Set<SlotId>,
)
    ensures
        sound(MakerView::fresh(key, bounds, law, authority, observers)),
{
}

/// Every operation leaves a sound session sound.
pub proof fn law_every_step_stays_sound(m: MakerView, step: Step)
    requires
        sound(m),
    ensures
        sound(after(m, step)),
{
    reveal(lawful);
    lemma_step(m, step);
}

/// However long a session runs, it undoes nothing that is settled and stays sound.
pub proof fn law_sessions_stay_sound(m: MakerView, steps: Seq<Step>)
    requires
        sound(m),
    ensures
        keeps(m, after_all(m, steps)),
        sound(after_all(m, steps)),
    decreases steps.len(),
{
    if steps.len() > 0 {
        law_sessions_stay_sound(m, steps.drop_last());
        let before = after_all(m, steps.drop_last());
        law_no_step_undoes_what_is_settled(before, steps.last());
        law_every_step_stays_sound(before, steps.last());
        lemma_keeps_chain(m, before, after(before, steps.last()));
    }
}

proof fn lemma_keeps_chain(a: MakerView, b: MakerView, c: MakerView)
    requires
        keeps(a, b),
        keeps(b, c),
    ensures
        keeps(a, c),
{
}

/// A session may begin as the coordinator describes it, with players already gone: it is
/// sound all the same.
pub proof fn law_described_sessions_begin_sound(key: SessionKeyView, sync: SyncView, now: Instant)
    ensures
        sound(MakerView::described(key, sync).resuming(sync.resumed_departed, now).0),
{
    reveal(lawful);
    let made = MakerView::described(key, sync);
    assert(sound(made));
    match sync.resumed_departed {
        Some(departed) => {
            lemma_resume(made, departed, now);
        },
        None => {},
    }
}

/// A new description undoes nothing that is settled.
pub proof fn law_descriptions_undo_nothing(m: MakerView, sync: SyncView, now: Instant)
    requires
        sound(m),
    ensures
        keeps(m, m.reseeded(sync, now).bounded(sync.bounds).set_authority(sync.authority, sync.held, now)),
        sound(m.reseeded(sync, now).bounded(sync.bounds).set_authority(sync.authority, sync.held, now)),
{
    let described = m.redescribed(sync);
    let seeded = m.reseeded(sync, now);
    let ready = seeded.bounded(sync.bounds);
    let next = ready.set_authority(sync.authority, sync.held, now);
    lemma_same_records(m, described);
    match sync.resumed_departed {
        Some(departed) => {
            lemma_resume(described, departed, now);
        },
        None => {
            lemma_same_records(described, seeded);
        },
    }
    lemma_same_records(seeded, ready);
    lemma_set_authority(ready, sync.authority, sync.held, now);
    lemma_lawful_chain(m, described, seeded);
    lemma_lawful_chain(m, seeded, ready);
    lemma_lawful_chain(m, ready, next);
    reveal(lawful);
}

/// The first leave decided for a slot is the only one: whatever happens afterwards, it
/// stands as it is, nothing decides another, and the slot stays gone for good.
pub proof fn law_a_decided_leave_is_final(
    m: MakerView,
    steps: Seq<Step>,
    slot: SlotId,
    reason: u32,
    epoch: Option<u64>,
    hold_pending: bool,
)
    requires
        sound(m),
        m.decided_leaves.contains_key(slot),
    ensures
        after_all(m, steps).decided_leaves.contains_key(slot),
        after_all(m, steps).decided_leaves[slot] == m.decided_leaves[slot],
        after_all(m, steps).leave_decision(slot, reason) is None,
        after_all(m, steps).forced_decision(slot, reason) is None,
        after_all(m, steps).departures.contains_key(slot),
        !after_all(m, steps).slots.contains_key(slot),
        !after_all(m, steps).reinstatable(slot),
        after_all(m, steps).reconnect_transition(slot, epoch, hold_pending).admission == ReconnectAdmission::Rejected,
{
    law_sessions_stay_sound(m, steps);
}

/// A connection generation that another replaced never comes back.
pub proof fn law_a_retired_epoch_never_returns(
    m: MakerView,
    steps: Seq<Step>,
    slot: SlotId,
    epoch: u64,
    hold_pending: bool,
)
    requires
        sound(m),
        m.epoch_retired(slot, epoch),
    ensures
        !after_all(m, steps).epoch_activates(slot, epoch),
        after_all(m, steps).connection_activation(slot, Some(epoch)) == ConnectionActivation::Rejected,
        after_all(m, steps).reconnect_transition(slot, Some(epoch), hold_pending).admission
            == ReconnectAdmission::Rejected,
        after_all(m, steps).connection(slot) != Some(ConnectionState::Up(epoch)),
        after_all(m, steps).connection(slot) != Some(ConnectionState::Down(epoch)),
{
    law_sessions_stay_sound(m, steps);
    let end = after_all(m, steps);
    assert(end.epoch_retired(slot, epoch));
    if end.connections.contains_key(slot) {
        assert(!end.epoch_retired(slot, end.connections[slot].spec_epoch()));
    }
}

/// A connection generation that went down is not brought up again, and replacing it
/// retires it.
pub proof fn law_a_downed_epoch_stays_down(m: MakerView, slot: SlotId, epoch: u64, other: u64, now: Instant)
    requires
        m.connection(slot) == Some(ConnectionState::Down(epoch)),
    ensures
        !m.epoch_activates(slot, epoch),
        m.connection_activation(slot, Some(epoch)) == ConnectionActivation::Rejected,
        m.epoch_activates(slot, other) ==> m.activate_connection_epoch(slot, other, now).epoch_retired(slot, epoch),
{
}

/// Bringing a connection up twice is bringing it up once.
pub proof fn law_activation_is_idempotent(m: MakerView, slot: SlotId, epoch: u64, now: Instant, later: Instant)
    ensures
        m.activate_connection_epoch(slot, epoch, now).activate_connection_epoch(slot, epoch, later)
            == m.activate_connection_epoch(slot, epoch, now),
        m.epoch_activates(slot, epoch) ==> m.activate_connection_epoch(slot, epoch, now).connection(slot) == Some(
            ConnectionState::Up(epoch),
        ),
{
}

} // verus!
