//! Every session's decision-maker, and what the coordinator is to hear of them.
use crate::ids::SessionKey;
use crate::ids::SessionKeyView;
use crate::ids::SlotId;
use crate::maker::DecisionMaker;
use crate::maker::MakerView;
use crate::notice::copy_text;
use crate::notice::DepartureNoticeView;
use crate::notice::DesyncNoticeView;
use crate::notice::EventView;
use crate::notice::FlightEvent;
use crate::notice::NoticeView;
use crate::notice::RelayNotice;
use crate::notice::ResultNoticeView;
use crate::notice::SessionStartedView;
use crate::notice::SlotConnectedView;
use crate::notice::SlotStartedView;
use crate::ordmap::OrdMap;
use crate::session_map::SessionMap;
use crate::sync::tracker::DivergenceView;
use crate::sync::tracker::SyncDivergence;
use crate::time::Duration;
use crate::wire::copy_echo;
use crate::wire::DepartureKind;
use crate::wire::DepartureNotice;
use crate::wire::DesyncNotice;
use crate::wire::DivergedSlot;
use crate::wire::EchoView;
use crate::wire::LeaveDirective;
use crate::wire::ResultEcho;
use crate::wire::ResultNotice;
use crate::wire::SessionStartedNotice;
use crate::wire::SlotConnectedNotice;
use crate::wire::SlotStartedNotice;
use crate::wire::LEAVE_REASON_DROPPED;
use crate::wire::REGION_LABEL_RELEASE_DELAY;
use vstd::prelude::*;

pub mod departure;
pub mod homing;
pub mod leave;
pub mod phase;
pub mod sync_coverage;

verus! {

/// The names a session and its slots go by outside.
pub struct SessionExternalRefs {
    pub(crate) external_id: Option<String>,
    pub(crate) slots: OrdMap<SlotId, String>,
}

/// What a [`SessionExternalRefs`] says.
#[verifier::ext_equal]
pub struct RefsView {
    pub external_id: Option<Seq<char>>,
    pub slots: Map<SlotId, Seq<char>>,
}

impl View for SessionExternalRefs {
    type V = RefsView;

    open(crate) spec fn view(&self) -> RefsView {
        RefsView { external_id: crate::notice::text(self.external_id), slots: self.slots@ }
    }
}

/// What a [`DecisionMakers`] holds.
#[verifier::ext_equal]
pub struct RegistryView {
    pub makers: Map<SessionKeyView, MakerView>,
    pub refs: Map<SessionKeyView, RefsView>,
    /// What the coordinator is still to hear, in order.
    pub notices: Seq<NoticeView>,
    /// What the flight records are still to hold, in order.
    pub events: Seq<(SessionKeyView, EventView)>,
    pub region_release_delay: Duration,
}

impl RegistryView {
    pub open spec fn fresh(region_release_delay: Duration) -> RegistryView {
        RegistryView {
            makers: Map::empty(),
            refs: Map::empty(),
            notices: Seq::empty(),
            events: Seq::empty(),
            region_release_delay,
        }
    }

    pub open spec fn maker(self, key: SessionKeyView) -> Option<MakerView> {
        if self.makers.contains_key(key) { Some(self.makers[key]) } else { None }
    }

    pub open spec fn with_maker(self, key: SessionKeyView, maker: MakerView) -> RegistryView {
        RegistryView { makers: self.makers.insert(key, maker), ..self }
    }

    pub open spec fn noticing(self, notice: NoticeView) -> RegistryView {
        RegistryView { notices: self.notices.push(notice), ..self }
    }

    pub open spec fn recording(self, key: SessionKeyView, event: EventView) -> RegistryView {
        RegistryView { events: self.events.push((key, event)), ..self }
    }

    /// What the session is called outside.
    pub open spec fn external_id(self, key: SessionKeyView) -> Option<Seq<char>> {
        if self.refs.contains_key(key) { self.refs[key].external_id } else { None }
    }

    /// What the slot's player is called outside.
    pub open spec fn external_ref(self, key: SessionKeyView, slot: SlotId) -> Option<Seq<char>> {
        if self.refs.contains_key(key) && self.refs[key].slots.contains_key(slot) {
            Some(self.refs[key].slots[slot])
        } else {
            None
        }
    }

    /// The result recorded with the slot's departure.
    pub open spec fn departure_result(self, key: SessionKeyView, slot: SlotId) -> Option<EchoView> {
        if self.makers.contains_key(key) && self.makers[key].departures.contains_key(slot) {
            self.makers[key].departures[slot].result
        } else {
            None
        }
    }

    pub open spec fn departure_notice(self, key: SessionKeyView, leave: LeaveDirective) -> DepartureNoticeView {
        let slot = SlotId(leave.slot as u8);
        DepartureNoticeView {
            finalized: leave.finalized,
            tenant: key.tenant,
            session: key.session,
            slot,
            kind: if leave.reason == LEAVE_REASON_DROPPED { DepartureKind::Dropped } else { DepartureKind::Left },
            reason: leave.reason,
            leave_seq: leave.leave_seq,
            external_id: self.external_id(key),
            external_ref: self.external_ref(key, slot),
            result: self.departure_result(key, slot),
            final_turn_count: leave.final_turn_count,
        }
    }

    pub open spec fn desync_notice(self, key: SessionKeyView, divergence: DivergenceView, now_ms: u64) -> DesyncNoticeView {
        DesyncNoticeView {
            tenant: key.tenant,
            session: key.session,
            sync_ordinal: divergence.sync_ordinal,
            game_frame: divergence.game_frame,
            detected_at_ms: now_ms,
            no_majority: divergence.no_majority,
            diverged: divergence.diverged.map_values(|s: SlotId| (s, self.external_ref(key, s))),
            external_id: self.external_id(key),
        }
    }

    pub open spec fn result_notice(self, key: SessionKeyView, slot: SlotId, echo: EchoView) -> ResultNoticeView {
        ResultNoticeView {
            tenant: key.tenant,
            session: key.session,
            slot,
            external_id: self.external_id(key),
            external_ref: self.external_ref(key, slot),
            echo,
        }
    }

    pub open spec fn slot_connected_notice(self, key: SessionKeyView, slot: SlotId, resumed: bool, now_ms: u64) -> SlotConnectedView {
        SlotConnectedView {
            tenant: key.tenant,
            session: key.session,
            slot,
            external_id: self.external_id(key),
            external_ref: self.external_ref(key, slot),
            resumed,
            connected_at_ms: now_ms,
        }
    }

    pub open spec fn session_started_notice(self, key: SessionKeyView, initial_buffer_turns: Option<u32>, now_ms: u64) -> SessionStartedView {
        SessionStartedView {
            tenant: key.tenant,
            session: key.session,
            external_id: self.external_id(key),
            started_at_ms: now_ms,
            initial_buffer_turns,
        }
    }

    pub open spec fn slot_started_notice(self, key: SessionKeyView, slot: SlotId, now_ms: u64) -> SlotStartedView {
        SlotStartedView {
            tenant: key.tenant,
            session: key.session,
            slot,
            external_id: self.external_id(key),
            external_ref: self.external_ref(key, slot),
            arrival_ms: now_ms,
            session_frame: match self.maker(key) {
                Some(m) => m.session_frame_count(),
                None => None,
            },
            slot_frame: match self.maker(key) {
                Some(m) => frame_count(m.slot_frame(slot)),
                None => None,
            },
        }
    }

    /// One decided leave reported and recorded.
    pub open spec fn announcing(self, key: SessionKeyView, leave: LeaveDirective) -> RegistryView {
        self.recording(key, EventView::LeaveDecided { leave }).noticing(
            NoticeView::Departure(self.departure_notice(key, leave)),
        )
    }

    /// The first `n` of `leaves` reported and recorded, in order.
    pub open spec fn announcing_all(self, key: SessionKeyView, leaves: Seq<LeaveDirective>, n: int) -> RegistryView
        decreases n,
    {
        if n <= 0 {
            self
        } else {
            self.announcing_all(key, leaves, n - 1).announcing(key, leaves[n - 1])
        }
    }
}

pub open spec fn frame_count(frame: Option<crate::ids::GameFrameCount>) -> Option<u32> {
    match frame {
        Some(f) => Some(f.0),
        None => None,
    }
}

/// What a list of notices says.
pub open spec fn notice_views(notices: Seq<RelayNotice>) -> Seq<NoticeView> {
    notices.map_values(|n: RelayNotice| n@)
}

/// What a list of flight-record entries says.
pub open spec fn event_views(events: Seq<(SessionKey, FlightEvent)>) -> Seq<(SessionKeyView, EventView)> {
    events.map_values(|e: (SessionKey, FlightEvent)| (e.0@, e.1@))
}

/// Every session's decision-maker. Notices and flight-record entries queue up here until
/// they are taken.
pub struct DecisionMakers {
    pub(crate) makers: SessionMap<DecisionMaker>,
    pub(crate) refs: SessionMap<SessionExternalRefs>,
    pub(crate) notices: Vec<RelayNotice>,
    pub(crate) events: Vec<(SessionKey, FlightEvent)>,
    pub(crate) region_release_delay: Duration,
}

impl View for DecisionMakers {
    type V = RegistryView;

    open(crate) spec fn view(&self) -> RegistryView {
        RegistryView {
            makers: self.makers@,
            refs: self.refs@,
            notices: notice_views(self.notices@),
            events: event_views(self.events@),
            region_release_delay: self.region_release_delay,
        }
    }
}

/// A registry with no session, holding region labels back as long as usual.
pub fn new_decision_makers() -> (r: DecisionMakers)
    ensures
        r@ == RegistryView::fresh(Duration { nanos: REGION_LABEL_RELEASE_DELAY }),
{
    new_decision_makers_with_region_delay(Duration { nanos: REGION_LABEL_RELEASE_DELAY })
}

/// A registry with no session, holding region labels back for `region_release_delay`.
pub fn new_decision_makers_with_region_delay(region_release_delay: Duration) -> (r: DecisionMakers)
    ensures
        r@ == RegistryView::fresh(region_release_delay),
{
    let r = DecisionMakers {
        makers: SessionMap::new(),
        refs: SessionMap::new(),
        notices: Vec::new(),
        events: Vec::new(),
        region_release_delay,
    };
    assert(r@ =~= RegistryView::fresh(region_release_delay));
    r
}

impl DecisionMakers {
    /// Hands out what the coordinator is still to hear, in order.
    pub fn take_notices(&mut self) -> (r: Vec<RelayNotice>)
        ensures
            notice_views(r@) == old(self)@.notices,
            final(self)@ == (RegistryView { notices: Seq::empty(), ..old(self)@ }),
    {
        let mut out: Vec<RelayNotice> = Vec::new();
        std::mem::swap(&mut out, &mut self.notices);
        assert(notice_views(self.notices@) =~= Seq::empty());
        out
    }

    /// Hands out what the flight records are still to hold, in order. A
    /// [`FlightEvent::SessionClosed`] is to be held only by a record that already exists.
    pub fn take_events(&mut self) -> (r: Vec<(SessionKey, FlightEvent)>)
        ensures
            event_views(r@) == old(self)@.events,
            final(self)@ == (RegistryView { events: Seq::empty(), ..old(self)@ }),
    {
        let mut out: Vec<(SessionKey, FlightEvent)> = Vec::new();
        std::mem::swap(&mut out, &mut self.events);
        assert(event_views(self.events@) =~= Seq::empty());
        out
    }

    /// Queues a notice for the coordinator.
    pub(crate) fn emit_notice(&mut self, notice: RelayNotice)
        ensures
            final(self)@ == old(self)@.noticing(notice@),
    {
        self.notices.push(notice);
        assert(notice_views(self.notices@) =~= notice_views(old(self).notices@).push(notice@));
    }

    /// Queues an entry of a session's flight record.
    pub(crate) fn record_event(&mut self, key: &SessionKey, event: FlightEvent)
        ensures
            final(self)@ == old(self)@.recording(key@, event@),
    {
        let key = key.duplicate();
        self.events.push((key, event));
        assert(event_views(self.events@) =~= event_views(old(self).events@).push((key@, event@)));
    }

    /// Sets what a session and its slots are called outside.
    pub fn set_session_refs(&mut self, key: &SessionKey, external_id: Option<String>, slots: OrdMap<SlotId, String>)
        ensures
            final(self)@ == (RegistryView {
                refs: old(self)@.refs.insert(
                    key@,
                    RefsView { external_id: crate::notice::text(external_id), slots: slots@ },
                ),
                ..old(self)@
            }),
    {
        self.refs.insert(key.duplicate(), SessionExternalRefs { external_id, slots });
    }

    /// Forgets what a session and its slots are called outside.
    pub(crate) fn forget_session_refs(&mut self, key: &SessionKey)
        ensures
            final(self)@ == (RegistryView { refs: old(self)@.refs.remove(key@), ..old(self)@ }),
    {
        let _gone = self.refs.remove(key);
    }

    /// How long region labels are held back after the start.
    pub fn region_release_delay(&self) -> (r: Duration)
        ensures
            r == self@.region_release_delay,
    {
        self.region_release_delay
    }

    fn external_id(&self, key: &SessionKey) -> (r: Option<String>)
        ensures
            crate::notice::text(r) == self@.external_id(key@),
    {
        match self.refs.get(key) {
            Some(refs) => copy_text(&refs.external_id),
            None => None,
        }
    }

    fn external_ref(&self, key: &SessionKey, slot: SlotId) -> (r: Option<String>)
        ensures
            crate::notice::text(r) == self@.external_ref(key@, slot),
    {
        match self.refs.get(key) {
            Some(refs) => match refs.slots.get(slot) {
                Some(name) => Some(name.clone()),
                None => None,
            },
            None => None,
        }
    }

    /// The result recorded with the slot's departure.
    pub(crate) fn departure_result(&self, key: &SessionKey, slot: SlotId) -> (r: Option<ResultEcho>)
        ensures
            crate::wire::echo_view(r) == self@.departure_result(key@, slot),
    {
        match self.makers.get(key) {
            Some(maker) => match maker.departures.get(slot) {
                Some(d) => copy_echo(&d.result),
                None => None,
            },
            None => None,
        }
    }

    /// A leave as it is reported to the coordinator.
    pub(crate) fn departure_notice(&self, key: &SessionKey, leave: &LeaveDirective) -> (r: DepartureNotice)
        ensures
            r@ == self@.departure_notice(key@, *leave),
    {
        let slot = SlotId(#[verifier::truncate] (leave.slot as u8));
        DepartureNotice {
            finalized: leave.finalized,
            tenant: key.tenant.duplicate(),
            session: key.session,
            slot,
            kind: if leave.reason == LEAVE_REASON_DROPPED { DepartureKind::Dropped } else { DepartureKind::Left },
            reason: leave.reason,
            leave_seq: leave.leave_seq,
            external_id: self.external_id(key),
            external_ref: self.external_ref(key, slot),
            result: self.departure_result(key, slot),
            final_turn_count: leave.final_turn_count,
        }
    }

    /// A checksum disagreement as it is reported to the coordinator.
    pub(crate) fn desync_notice(&self, key: &SessionKey, divergence: &SyncDivergence, now_ms: u64) -> (r: DesyncNotice)
        ensures
            r@ == self@.desync_notice(key@, divergence@, now_ms),
    {
        let mut diverged: Vec<DivergedSlot> = Vec::new();
        let mut i: usize = 0;
        while i < divergence.diverged.len()
            invariant
                i <= divergence.diverged@.len(),
                diverged@.len() == i,
                forall|j: int|
                    0 <= j < i ==> (#[trigger] diverged@[j]).slot == divergence.diverged@[j] && crate::notice::text(
                        diverged@[j].external_ref,
                    ) == self@.external_ref(key@, divergence.diverged@[j]),
            decreases divergence.diverged@.len() - i,
        {
            let slot = divergence.diverged[i];
            diverged.push(DivergedSlot { slot, external_ref: self.external_ref(key, slot) });
            i += 1;
        }
        let r = DesyncNotice {
            tenant: key.tenant.duplicate(),
            session: key.session,
            sync_ordinal: divergence.sync_ordinal,
            game_frame: divergence.game_frame,
            detected_at_ms: now_ms,
            no_majority: divergence.no_majority,
            diverged,
            external_id: self.external_id(key),
        };
        assert(r@.diverged =~= self@.desync_notice(key@, divergence@, now_ms).diverged);
        r
    }

    /// A result as it is reported to the coordinator.
    pub(crate) fn result_notice(&self, key: &SessionKey, slot: SlotId, echo: ResultEcho) -> (r: ResultNotice)
        ensures
            r@ == self@.result_notice(key@, slot, echo@),
    {
        ResultNotice {
            tenant: key.tenant.duplicate(),
            session: key.session,
            slot,
            external_id: self.external_id(key),
            external_ref: self.external_ref(key, slot),
            payload: echo.payload,
            arrival_ms: echo.arrival_ms,
            session_frame: echo.session_frame,
            slot_frame: echo.slot_frame,
        }
    }

    /// A slot's connection as it is reported to the coordinator.
    pub(crate) fn slot_connected_notice(&self, key: &SessionKey, slot: SlotId, resumed: bool, now_ms: u64) -> (r:
        SlotConnectedNotice)
        ensures
            r@ == self@.slot_connected_notice(key@, slot, resumed, now_ms),
    {
        SlotConnectedNotice {
            tenant: key.tenant.duplicate(),
            session: key.session,
            slot,
            external_id: self.external_id(key),
            external_ref: self.external_ref(key, slot),
            resumed,
            connected_at_ms: now_ms,
        }
    }

    /// A session's start as it is reported to the coordinator.
    pub(crate) fn session_started_notice(&self, key: &SessionKey, initial_buffer_turns: Option<u32>, now_ms: u64) -> (r:
        SessionStartedNotice)
        ensures
            r@ == self@.session_started_notice(key@, initial_buffer_turns, now_ms),
    {
        SessionStartedNotice {
            tenant: key.tenant.duplicate(),
            session: key.session,
            external_id: self.external_id(key),
            started_at_ms: now_ms,
            initial_buffer_turns,
        }
    }

    /// A slot's game start as it is reported to the coordinator.
    pub(crate) fn slot_started_notice(&self, key: &SessionKey, slot: SlotId, now_ms: u64) -> (r: SlotStartedNotice)
        ensures
            r@ == self@.slot_started_notice(key@, slot, now_ms),
    {
        let (session_frame, slot_frame) = match self.makers.get(key) {
            Some(maker) => (
                match maker.session_frame() {
                    Some(f) => Some(f.0),
                    None => None,
                },
                match maker.slot_frame(slot) {
                    Some(f) => Some(f.0),
                    None => None,
                },
            ),
            None => (None, None),
        };
        SlotStartedNotice {
            tenant: key.tenant.duplicate(),
            session: key.session,
            slot,
            external_id: self.external_id(key),
            external_ref: self.external_ref(key, slot),
            arrival_ms: now_ms,
            session_frame,
            slot_frame,
        }
    }

    /// Reports and records a decided leave.
    pub(crate) fn announce(&mut self, key: &SessionKey, leave: &LeaveDirective)
        ensures
            final(self)@ == old(self)@.announcing(key@, *leave),
    {
        let notice = self.departure_notice(key, leave);
        self.record_event(key, FlightEvent::LeaveDecided { leave: *leave });
        self.emit_notice(RelayNotice::Departure(notice));
    }

    /// Reports and records decided leaves, in order.
    pub(crate) fn announce_all(&mut self, key: &SessionKey, leaves: &Vec<LeaveDirective>)
        ensures
            final(self)@ == old(self)@.announcing_all(key@, leaves@, leaves@.len() as int),
    {
        let mut i: usize = 0;
        while i < leaves.len()
            invariant
                i <= leaves@.len(),
                self@ == old(self)@.announcing_all(key@, leaves@, i as int),
            decreases leaves@.len() - i,
        {
            self.announce(key, &leaves[i]);
            i += 1;
        }
    }
}

} // verus!
