//! The start of a session and of its slots' games.
use crate::ids::SessionKey;
use crate::ids::SessionKeyView;
use crate::ids::SlotId;
use crate::maker::MakerView;
use crate::notice::EventView;
use crate::notice::FlightEvent;
use crate::notice::NoticeView;
use crate::notice::RelayNotice;
use crate::registry::DecisionMakers;
use crate::registry::RegistryView;
use crate::time::Instant;
use crate::wire::RegionLabel;
use vstd::prelude::*;

verus! {

impl RegistryView {
    /// A session's start recorded and reported, at `now_ms` on the coordinator's clock.
    pub open spec fn start_latched(self, key: SessionKeyView, fired: Option<Option<u32>>, now_ms: u64) -> RegistryView {
        match fired {
            None => self,
            Some(turns) => {
                let recorded = self.recording(key, EventView::SessionStart { initial_buffer_turns: turns });
                let noted = match recorded.maker(key) {
                    Some(m) => recorded.with_maker(key, m.note_started_at_ms(now_ms)),
                    None => recorded,
                };
                noted.noticing(NoticeView::SessionStarted(self.session_started_notice(key, turns, now_ms)))
            },
        }
    }

    /// A slot's presence noted; a start that comes of it recorded and reported.
    pub open spec fn note_slot_present(self, key: SessionKeyView, slot: SlotId, now: Instant, now_ms: u64) -> RegistryView {
        match self.maker(key) {
            None => self,
            Some(m) => {
                let next = if m.present_slot_counts(slot) { m.with_live(slot).maybe_start(now) } else { m };
                let fired = if m.present_slot_counts(slot) && m.with_live(slot).starts() {
                    Some(next.initial_buffer_turns)
                } else {
                    None
                };
                self.with_maker(key, next).start_latched(key, fired, now_ms)
            },
        }
    }

    /// A session's start looked at again; a start that comes of it recorded and reported.
    pub open spec fn reevaluate_start(self, key: SessionKeyView, now: Instant, now_ms: u64) -> RegistryView {
        match self.maker(key) {
            None => self,
            Some(m) => {
                let next = m.maybe_start(now);
                let fired = if m.starts() { Some(next.initial_buffer_turns) } else { None };
                self.with_maker(key, next).start_latched(key, fired, now_ms)
            },
        }
    }

    pub open spec fn noting_connected(self, key: SessionKeyView, slot: SlotId) -> RegistryView {
        match self.maker(key) {
            Some(m) => self.with_maker(key, MakerView { connected: m.connected.insert(slot), ..m }),
            None => self,
        }
    }

    pub open spec fn noting_started(self, key: SessionKeyView, slot: SlotId) -> RegistryView {
        match self.maker(key) {
            Some(m) => self.with_maker(key, MakerView { started_slots: m.started_slots.insert(slot), ..m }),
            None => self,
        }
    }
}

/// Notes and reports that `slot`'s client has connected.
pub fn record_slot_connected(registry: &mut DecisionMakers, key: &SessionKey, slot: SlotId, resumed: bool, now_ms: u64)
    ensures
        final(registry)@ == old(registry)@.noting_connected(key@, slot).noticing(
            NoticeView::SlotConnected(old(registry)@.slot_connected_notice(key@, slot, resumed, now_ms)),
        ),
{
    if let Some(maker) = registry.makers.get_mut(key) {
        maker.note_slot_connected(slot);
    }
    let notice = registry.slot_connected_notice(key, slot, resumed, now_ms);
    registry.emit_notice(RelayNotice::SlotConnected(notice));
}

/// Notes and reports that a home slot's game has started.
pub fn record_slot_started(registry: &mut DecisionMakers, key: &SessionKey, slot: SlotId, now_ms: u64)
    ensures
        final(registry)@ == old(registry)@.noting_started(key@, slot).noticing(
            NoticeView::SlotStarted(old(registry)@.slot_started_notice(key@, slot, now_ms)),
        ),
{
    let notice = registry.slot_started_notice(key, slot, now_ms);
    if let Some(maker) = registry.makers.get_mut(key) {
        maker.note_slot_started(slot);
    }
    registry.emit_notice(RelayNotice::SlotStarted(notice));
}

/// Notes that a slot homed elsewhere has started.
pub fn record_peer_slot_started(registry: &mut DecisionMakers, key: &SessionKey, slot: SlotId)
    ensures
        final(registry)@ == match old(registry)@.maker(key@) {
            Some(m) => old(registry)@.with_maker(key@, MakerView { peer_started: m.peer_started.insert(slot), ..m }),
            None => old(registry)@,
        },
{
    if let Some(maker) = registry.makers.get_mut(key) {
        maker.note_peer_slot_started(slot);
    }
}

/// Whether `slot`'s game has started.
pub fn slot_has_started(registry: &DecisionMakers, key: &SessionKey, slot: SlotId) -> (r: bool)
    ensures
        r == match registry@.maker(key@) {
            Some(m) => m.has_started(slot),
            None => false,
        },
{
    match registry.makers.get(key) {
        Some(maker) => maker.has_started(slot),
        None => false,
    }
}

/// The home slots whose game has started, in ascending order.
pub fn started_home_slots(registry: &DecisionMakers, key: &SessionKey) -> (r: Vec<SlotId>)
    ensures
        r@ == match registry@.maker(key@) {
            Some(m) => crate::ordmap::listing(m.started_slots),
            None => Seq::empty(),
        },
{
    match registry.makers.get(key) {
        Some(maker) => maker.started_home_slots(),
        None => Vec::new(),
    }
}

/// Notes that `slot` is present; true where this starts the session.
#[must_use]
pub fn note_slot_present(registry: &mut DecisionMakers, key: &SessionKey, slot: SlotId, now: Instant, now_ms: u64) -> (r: bool)
    ensures
        r == match old(registry)@.maker(key@) {
            Some(m) => m.present_slot_counts(slot) && m.with_live(slot).starts(),
            None => false,
        },
        final(registry)@ == old(registry)@.note_slot_present(key@, slot, now, now_ms),
{
    let fired = match registry.makers.get_mut(key) {
        Some(maker) => {
            if maker.note_slot_present(slot, now) {
                Some(maker.initial_buffer_turns())
            } else {
                None
            }
        },
        None => None,
    };
    note_start_latched(registry, key, fired, now_ms);
    fired.is_some()
}

/// Looks again whether the session can start; true where it does now.
#[must_use]
pub fn reevaluate_session_start(registry: &mut DecisionMakers, key: &SessionKey, now: Instant, now_ms: u64) -> (r: bool)
    ensures
        r == match old(registry)@.maker(key@) {
            Some(m) => m.starts(),
            None => false,
        },
        final(registry)@ == old(registry)@.reevaluate_start(key@, now, now_ms),
{
    let fired = match registry.makers.get_mut(key) {
        Some(maker) => {
            if maker.reevaluate_start(now) {
                Some(maker.initial_buffer_turns())
            } else {
                None
            }
        },
        None => None,
    };
    note_start_latched(registry, key, fired, now_ms);
    fired.is_some()
}

/// Records and reports a session's start.
pub(crate) fn note_start_latched(registry: &mut DecisionMakers, key: &SessionKey, fired: Option<Option<u32>>, now_ms: u64)
    ensures
        final(registry)@ == old(registry)@.start_latched(key@, fired, now_ms),
{
    let turns = match fired {
        Some(turns) => turns,
        None => {
            return;
        },
    };
    let notice = registry.session_started_notice(key, turns, now_ms);
    registry.record_event(key, FlightEvent::SessionStart { initial_buffer_turns: turns });
    if let Some(maker) = registry.makers.get_mut(key) {
        maker.note_started_at_ms(now_ms);
    }
    registry.emit_notice(RelayNotice::SessionStarted(notice));
}

/// Whether the session has started.
pub fn session_started(registry: &DecisionMakers, key: &SessionKey) -> (r: bool)
    ensures
        r == match registry@.maker(key@) {
            Some(m) => m.started,
            None => false,
        },
{
    match registry.makers.get(key) {
        Some(maker) => maker.is_started(),
        None => false,
    }
}

/// How many slots a started session has.
pub fn started_session_slot_count(registry: &DecisionMakers, key: &SessionKey) -> (r: Option<usize>)
    ensures
        match registry@.maker(key@) {
            Some(m) => r is Some == m.started && (r is Some ==> r->0 == m.session_slot_count()),
            None => r is None,
        },
{
    match registry.makers.get(key) {
        Some(maker) => {
            if maker.is_started() {
                Some(maker.session_slot_count())
            } else {
                None
            }
        },
        None => None,
    }
}

/// Marks the session as started.
pub fn mark_session_started(registry: &mut DecisionMakers, key: &SessionKey, now: Instant)
    ensures
        final(registry)@ == match old(registry)@.maker(key@) {
            Some(m) => old(registry)@.with_maker(key@, m.latch_started(now)),
            None => old(registry)@,
        },
{
    if let Some(maker) = registry.makers.get_mut(key) {
        maker.mark_started(now);
    }
}

/// Sets the latency hint, and whether one relay serves every slot.
pub fn set_session_shape(registry: &mut DecisionMakers, key: &SessionKey, latency_hint_ms: Option<u32>, single_relay: bool)
    ensures
        final(registry)@ == match old(registry)@.maker(key@) {
            Some(m) => old(registry)@.with_maker(key@, MakerView { latency_hint_ms, single_relay, ..m }),
            None => old(registry)@,
        },
{
    if let Some(maker) = registry.makers.get_mut(key) {
        maker.set_session_shape(latency_hint_ms, single_relay);
    }
}

/// The depth the session started at.
pub fn session_initial_buffer_turns(registry: &DecisionMakers, key: &SessionKey) -> (r: Option<u32>)
    ensures
        r == match registry@.maker(key@) {
            Some(m) => m.initial_buffer_turns,
            None => None,
        },
{
    match registry.makers.get(key) {
        Some(maker) => maker.initial_buffer_turns(),
        None => None,
    }
}

/// Replaces the region labels, handing the new ones out where labels are already released
/// and these differ.
#[must_use]
pub fn set_region_labels(registry: &mut DecisionMakers, key: &SessionKey, labels: Vec<RegionLabel>) -> (r: Option<
    Vec<RegionLabel>,
>)
    ensures
        match old(registry)@.maker(key@) {
            Some(m) => {
                let next = MakerView { region_labels: crate::wire::label_views(labels@), ..m };
                &&& final(registry)@ == old(registry)@.with_maker(key@, next)
                &&& crate::wire::optional_label_views(r) == if next.region_labels == m.region_labels {
                    None
                } else {
                    next.released_labels()
                }
            },
            None => r is None && final(registry)@ == old(registry)@,
        },
{
    registry.set_region_labels(key, labels)
}

/// Releases the region labels once the session has run long enough.
#[must_use]
pub fn maybe_release_region_labels(registry: &mut DecisionMakers, key: &SessionKey, now: Instant) -> (r: Option<
    Vec<RegionLabel>,
>)
    ensures
        match old(registry)@.maker(key@) {
            Some(m) => {
                let due = m.labels_due(old(registry)@.region_release_delay, now);
                let next = MakerView { region_labels_released: m.region_labels_released || due, ..m };
                &&& final(registry)@ == old(registry)@.with_maker(key@, next)
                &&& crate::wire::optional_label_views(r) == if due { next.released_labels() } else { None }
            },
            None => r is None && final(registry)@ == old(registry)@,
        },
{
    registry.maybe_release_region_labels(key, now)
}

/// The labels players may see.
pub fn released_region_labels(registry: &DecisionMakers, key: &SessionKey) -> (r: Option<Vec<RegionLabel>>)
    ensures
        crate::wire::optional_label_views(r) == match registry@.maker(key@) {
            Some(m) => m.released_labels(),
            None => None,
        },
{
    registry.released_region_labels(key)
}

/// Notes a home turn's arrival; the result is the delays to command.
#[must_use]
pub fn ingest_arrival_phase(registry: &mut DecisionMakers, key: &SessionKey, slot: SlotId, seq: u64, received_at: Instant) -> (r:
    Vec<(SlotId, u32)>)
    ensures
        match old(registry)@.maker(key@) {
            Some(m) => {
                &&& r@ == if m.started {
                    m.phase.note_arrival(slot, seq, received_at).issued(received_at)
                } else {
                    Seq::empty()
                }
                &&& final(registry)@ == old(registry)@.with_maker(key@, m.ingest_arrival_phase(slot, seq, received_at))
            },
            None => r@.len() == 0 && final(registry)@ == old(registry)@,
        },
{
    registry.ingest_arrival_phase(key, slot, seq, received_at)
}

/// The delay `slot` was last commanded.
pub fn commanded_phase_delay(registry: &DecisionMakers, key: &SessionKey, slot: SlotId) -> (r: Option<u32>)
    ensures
        r == match registry@.maker(key@) {
            Some(m) => if m.phase.commanded.contains_key(slot) { Some(m.phase.commanded[slot]) } else { None },
            None => None,
        },
{
    registry.commanded_phase_delay(key, slot)
}

/// Takes `slot`'s acknowledgement of a commanded delay in.
pub fn note_phase_applied(registry: &mut DecisionMakers, key: &SessionKey, slot: SlotId, delay_us: u32, now: Instant)
    ensures
        final(registry)@ == match old(registry)@.maker(key@) {
            Some(m) => old(registry)@.with_maker(
                key@,
                MakerView { phase: m.phase.note_applied(slot, delay_us, now), ..m },
            ),
            None => old(registry)@,
        },
{
    registry.note_phase_applied(key, slot, delay_us, now);
}

/// Adopts another relay's start, at the depth it started with.
pub fn adopt_session_start(
    registry: &mut DecisionMakers,
    key: &SessionKey,
    initial_buffer_turns: Option<u32>,
    now: Instant,
    now_ms: u64,
)
    ensures
        final(registry)@ == match old(registry)@.maker(key@) {
            Some(m) => old(registry)@.with_maker(key@, m.adopt_session_start(initial_buffer_turns, now, now_ms)),
            None => old(registry)@,
        },
{
    if let Some(maker) = registry.makers.get_mut(key) {
        maker.adopt_session_start(initial_buffer_turns, now, now_ms);
    }
}

} // verus!
