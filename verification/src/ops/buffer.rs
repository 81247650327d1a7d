//! Link conditions in, buffer directives out.
use crate::ids::RelayId;
use crate::ids::SessionKey;
use crate::ids::SessionKeyView;
use crate::maker::DecisionMaker;
use crate::maker::MakerView;
use crate::notice::EventView;
use crate::notice::FlightEvent;
use crate::registry::DecisionMakers;
use crate::registry::RegistryView;
use crate::sync::GAME_SYNC_SAFE_BUFFER_MAX;
use crate::time::Instant;
use crate::wire::BufferDecisionInputs;
use crate::wire::BufferDirective;
use crate::wire::Decision;
use crate::wire::InputsView;
use crate::wire::LinkConditions;
use crate::wire::SlotConditions;
use vstd::prelude::*;

verus! {

impl MakerView {
    /// Conditions taken in and, on the authority, the control law run on them; home
    /// clients' conditions bring their connections up first.
    pub open spec fn ingest(self, conditions: Seq<SlotConditions>, mesh_rtt_us: u32, local: bool, now: Instant) -> (
        MakerView,
        Option<Decision>,
    ) {
        let ready = if local { self.activate_local_epochs(conditions, now) } else { self };
        ready.ingest_slots(conditions, mesh_rtt_us, now)
    }
}

impl DecisionMaker {
    /// Takes conditions in; the result is the decision that comes of them, with what led to
    /// it, which is kept no longer.
    pub(crate) fn ingest(&mut self, conditions: &Vec<SlotConditions>, mesh_rtt_us: u32, local: bool, now: Instant) -> (r: (
        Option<Decision>,
        Option<BufferDecisionInputs>,
    ))
        ensures
            r.0 == old(self)@.ingest(conditions@, mesh_rtt_us, local, now).1,
            ({
                let next = old(self)@.ingest(conditions@, mesh_rtt_us, local, now).0;
                if r.0 is Some {
                    &&& crate::wire::inputs_view(r.1) == next.pending_inputs
                    &&& final(self)@ == (MakerView { pending_inputs: None, ..next })
                } else {
                    final(self)@ == next
                }
            }),
    {
        if local {
            self.activate_local_epochs(conditions, now);
        }
        let decision = self.ingest_slots(conditions, mesh_rtt_us, now);
        if decision.is_some() {
            let inputs = self.pending_decision_inputs.take();
            (decision, inputs)
        } else {
            (decision, None)
        }
    }
}

impl RegistryView {
    /// A queued directive recorded, with what led to it.
    pub open spec fn recording_buffer(
        self,
        key: SessionKeyView,
        directive: Option<BufferDirective>,
        inputs: Option<InputsView>,
    ) -> RegistryView {
        match directive {
            Some(d) => self.recording(
                key,
                EventView::BufferDirective {
                    buffer_turns: d.buffer_turns,
                    apply_frame: d.apply_at_frame,
                    decision_seq: d.decision_seq,
                    inputs,
                },
            ),
            None => self,
        }
    }

    /// Conditions taken in, and a decision that comes of them recorded.
    pub open spec fn ingest(
        self,
        key: SessionKeyView,
        conditions: Seq<SlotConditions>,
        mesh_rtt_us: u32,
        local: bool,
        now: Instant,
    ) -> RegistryView {
        match self.maker(key) {
            None => self,
            Some(m) => {
                let (next, decision) = m.ingest(conditions, mesh_rtt_us, local, now);
                if decision is Some {
                    self.with_maker(key, MakerView { pending_inputs: None, ..next }).recording_buffer(
                        key,
                        next.pending_directive,
                        next.pending_inputs,
                    )
                } else {
                    self.with_maker(key, next)
                }
            },
        }
    }

    pub open spec fn ingest_decision(
        self,
        key: SessionKeyView,
        conditions: Seq<SlotConditions>,
        mesh_rtt_us: u32,
        local: bool,
        now: Instant,
    ) -> Option<Decision> {
        match self.maker(key) {
            None => None,
            Some(m) => m.ingest(conditions, mesh_rtt_us, local, now).1,
        }
    }

    /// A peer authority's directive taken in; one past the game's own ceiling is recorded,
    /// once per sequence number.
    pub open spec fn observe_directive(self, key: SessionKeyView, directive: BufferDirective) -> RegistryView {
        match self.maker(key) {
            None => self,
            Some(m) => {
                let next = m.observe_directive(directive);
                if directive.buffer_turns > GAME_SYNC_SAFE_BUFFER_MAX && m.over_ceiling_warned_seq != Some(
                    directive.decision_seq,
                ) {
                    self.with_maker(
                        key,
                        MakerView { over_ceiling_warned_seq: Some(directive.decision_seq), ..next },
                    ).recording(
                        key,
                        EventView::OverCeilingDirectiveForwarded {
                            buffer_turns: directive.buffer_turns,
                            decision_seq: directive.decision_seq,
                        },
                    )
                } else {
                    self.with_maker(key, next)
                }
            },
        }
    }
}

/// Takes home clients' conditions in.
pub fn ingest_local_conditions(registry: &mut DecisionMakers, key: &SessionKey, conditions: &LinkConditions, now: Instant) -> (r:
    Option<Decision>)
    ensures
        r == old(registry)@.ingest_decision(key@, conditions.slots@, 0, true, now),
        final(registry)@ == old(registry)@.ingest(key@, conditions.slots@, 0, true, now),
{
    ingest_conditions(registry, key, &conditions.slots, 0, true, now)
}

/// Takes one home client's conditions in.
pub fn ingest_local_condition(registry: &mut DecisionMakers, key: &SessionKey, conditions: &SlotConditions, now: Instant) -> (r:
    Option<Decision>)
    ensures
        r == old(registry)@.ingest_decision(key@, seq![*conditions], 0, true, now),
        final(registry)@ == old(registry)@.ingest(key@, seq![*conditions], 0, true, now),
{
    let mut one: Vec<SlotConditions> = Vec::new();
    one.push(*conditions);
    assert(one@ =~= seq![*conditions]);
    ingest_conditions(registry, key, &one, 0, true, now)
}

/// Takes conditions in, and records the decision that comes of them.
pub(crate) fn ingest_conditions(
    registry: &mut DecisionMakers,
    key: &SessionKey,
    conditions: &Vec<SlotConditions>,
    mesh_rtt_us: u32,
    local: bool,
    now: Instant,
) -> (r: Option<Decision>)
    ensures
        r == old(registry)@.ingest_decision(key@, conditions@, mesh_rtt_us, local, now),
        final(registry)@ == old(registry)@.ingest(key@, conditions@, mesh_rtt_us, local, now),
{
    let (decision, inputs) = match registry.makers.get_mut(key) {
        None => {
            return None;
        },
        Some(maker) => maker.ingest(conditions, mesh_rtt_us, local, now),
    };
    if decision.is_some() {
        let directive = match registry.makers.get(key) {
            Some(maker) => maker.pending_directive,
            None => None,
        };
        record_buffer_event(registry, key, directive, inputs);
    }
    decision
}

/// Records a queued directive, with what led to it.
pub(crate) fn record_buffer_event(
    registry: &mut DecisionMakers,
    key: &SessionKey,
    directive: Option<BufferDirective>,
    inputs: Option<BufferDecisionInputs>,
)
    ensures
        final(registry)@ == old(registry)@.recording_buffer(key@, directive, crate::wire::inputs_view(inputs)),
{
    if let Some(directive) = directive {
        registry.record_event(
            key,
            FlightEvent::BufferDirective {
                buffer_turns: directive.buffer_turns,
                apply_frame: directive.apply_at_frame,
                decision_seq: directive.decision_seq,
                inputs,
            },
        );
    }
}

/// Takes a peer relay's conditions in.
pub fn ingest_remote_conditions(
    registry: &mut DecisionMakers,
    key: &SessionKey,
    conditions: &LinkConditions,
    mesh_rtt_us: u32,
    now: Instant,
) -> (r: Option<Decision>)
    ensures
        r == old(registry)@.ingest_decision(key@, conditions.slots@, mesh_rtt_us, false, now),
        final(registry)@ == old(registry)@.ingest(key@, conditions.slots@, mesh_rtt_us, false, now),
{
    ingest_conditions(registry, key, &conditions.slots, mesh_rtt_us, false, now)
}

/// The directive still to be delivered; dropped once the session reaches its frame.
pub fn active_directive(registry: &mut DecisionMakers, key: &SessionKey) -> (r: Option<BufferDirective>)
    ensures
        match old(registry)@.maker(key@) {
            Some(m) => r == m.active_directive() && final(registry)@ == old(registry)@.with_maker(
                key@,
                MakerView { pending_directive: r, ..m },
            ),
            None => r is None && final(registry)@ == old(registry)@,
        },
{
    match registry.makers.get_mut(key) {
        Some(maker) => maker.active_directive(),
        None => None,
    }
}

/// Sets the relay id that this relay's directives carry.
pub fn set_own_relay_id(registry: &mut DecisionMakers, key: &SessionKey, id: RelayId)
    ensures
        final(registry)@ == match old(registry)@.maker(key@) {
            Some(m) => old(registry)@.with_maker(key@, MakerView { own_relay_id: Some(id), ..m }),
            None => old(registry)@,
        },
{
    registry.set_own_relay_id(key, id);
}

/// Takes a peer authority's directive in.
pub fn observe_directive(registry: &mut DecisionMakers, key: &SessionKey, directive: &BufferDirective)
    ensures
        final(registry)@ == old(registry)@.observe_directive(key@, *directive),
{
    let over_ceiling = match registry.makers.get_mut(key) {
        None => {
            return;
        },
        Some(maker) => {
            maker.observe_directive(directive);
            let warned = match maker.over_ceiling_warned_seq {
                Some(seq) => seq == directive.decision_seq,
                None => false,
            };
            if directive.buffer_turns > GAME_SYNC_SAFE_BUFFER_MAX && !warned {
                maker.over_ceiling_warned_seq = Some(directive.decision_seq);
                true
            } else {
                false
            }
        },
    };
    if over_ceiling {
        registry.record_event(
            key,
            FlightEvent::OverCeilingDirectiveForwarded {
                buffer_turns: directive.buffer_turns,
                decision_seq: directive.decision_seq,
            },
        );
    }
}

} // verus!
