//! What the library tells the outside: notices for the coordinator, events for the
//! session's flight record.
use crate::ids::SessionId;
use crate::ids::SlotId;
use crate::ids::TenantId;
use crate::sync::turns::SyncOrderingFailure;
use crate::wire::BufferDecisionInputs;
use crate::wire::DepartureKind;
use crate::wire::DepartureNotice;
use crate::wire::DesyncNotice;
use crate::wire::DivergedSlot;
use crate::wire::EchoView;
use crate::wire::InputsView;
use crate::wire::LeaveDirective;
use crate::wire::ResultNotice;
use crate::wire::SessionStartedNotice;
use crate::wire::SlotConnectedNotice;
use crate::wire::SlotStartedNotice;
use vstd::prelude::*;

verus! {

/// What an optional text says.
pub open spec fn text(s: Option<String>) -> Option<Seq<char>> {
    match s {
        Some(t) => Some(t@),
        None => None,
    }
}

/// A copy of an optional text.
pub(crate) fn copy_text(s: &Option<String>) -> (r: Option<String>)
    ensures
        text(r) == text(*s),
{
    match s {
        Some(t) => Some(t.clone()),
        None => None,
    }
}

/// What a [`DepartureNotice`] says.
#[verifier::ext_equal]
pub struct DepartureNoticeView {
    pub finalized: bool,
    pub tenant: Seq<char>,
    pub session: SessionId,
    pub slot: SlotId,
    pub kind: DepartureKind,
    pub reason: u32,
    pub leave_seq: u32,
    pub external_id: Option<Seq<char>>,
    pub external_ref: Option<Seq<char>>,
    pub result: Option<EchoView>,
    pub final_turn_count: Option<u64>,
}

impl View for DepartureNotice {
    type V = DepartureNoticeView;

    open spec fn view(&self) -> DepartureNoticeView {
        DepartureNoticeView {
            finalized: self.finalized,
            tenant: self.tenant.0@,
            session: self.session,
            slot: self.slot,
            kind: self.kind,
            reason: self.reason,
            leave_seq: self.leave_seq,
            external_id: text(self.external_id),
            external_ref: text(self.external_ref),
            result: crate::wire::echo_view(self.result),
            final_turn_count: self.final_turn_count,
        }
    }
}

/// What a [`DesyncNotice`] says.
#[verifier::ext_equal]
pub struct DesyncNoticeView {
    pub tenant: Seq<char>,
    pub session: SessionId,
    pub sync_ordinal: u64,
    pub game_frame: Option<u32>,
    pub detected_at_ms: u64,
    pub no_majority: bool,
    pub diverged: Seq<(SlotId, Option<Seq<char>>)>,
    pub external_id: Option<Seq<char>>,
}

impl View for DesyncNotice {
    type V = DesyncNoticeView;

    open spec fn view(&self) -> DesyncNoticeView {
        DesyncNoticeView {
            tenant: self.tenant.0@,
            session: self.session,
            sync_ordinal: self.sync_ordinal,
            game_frame: self.game_frame,
            detected_at_ms: self.detected_at_ms,
            no_majority: self.no_majority,
            diverged: self.diverged@.map_values(|d: DivergedSlot| (d.slot, text(d.external_ref))),
            external_id: text(self.external_id),
        }
    }
}

/// What a [`ResultNotice`] says.
#[verifier::ext_equal]
pub struct ResultNoticeView {
    pub tenant: Seq<char>,
    pub session: SessionId,
    pub slot: SlotId,
    pub external_id: Option<Seq<char>>,
    pub external_ref: Option<Seq<char>>,
    pub echo: EchoView,
}

impl View for ResultNotice {
    type V = ResultNoticeView;

    open spec fn view(&self) -> ResultNoticeView {
        ResultNoticeView {
            tenant: self.tenant.0@,
            session: self.session,
            slot: self.slot,
            external_id: text(self.external_id),
            external_ref: text(self.external_ref),
            echo: EchoView {
                payload: self.payload@,
                arrival_ms: self.arrival_ms,
                session_frame: self.session_frame,
                slot_frame: self.slot_frame,
            },
        }
    }
}

/// What a [`SlotConnectedNotice`] says.
#[verifier::ext_equal]
pub struct SlotConnectedView {
    pub tenant: Seq<char>,
    pub session: SessionId,
    pub slot: SlotId,
    pub external_id: Option<Seq<char>>,
    pub external_ref: Option<Seq<char>>,
    pub resumed: bool,
    pub connected_at_ms: u64,
}

impl View for SlotConnectedNotice {
    type V = SlotConnectedView;

    open spec fn view(&self) -> SlotConnectedView {
        SlotConnectedView {
            tenant: self.tenant.0@,
            session: self.session,
            slot: self.slot,
            external_id: text(self.external_id),
            external_ref: text(self.external_ref),
            resumed: self.resumed,
            connected_at_ms: self.connected_at_ms,
        }
    }
}

/// What a [`SessionStartedNotice`] says.
#[verifier::ext_equal]
pub struct SessionStartedView {
    pub tenant: Seq<char>,
    pub session: SessionId,
    pub external_id: Option<Seq<char>>,
    pub started_at_ms: u64,
    pub initial_buffer_turns: Option<u32>,
}

impl View for SessionStartedNotice {
    type V = SessionStartedView;

    open spec fn view(&self) -> SessionStartedView {
        SessionStartedView {
            tenant: self.tenant.0@,
            session: self.session,
            external_id: text(self.external_id),
            started_at_ms: self.started_at_ms,
            initial_buffer_turns: self.initial_buffer_turns,
        }
    }
}

/// What a [`SlotStartedNotice`] says.
#[verifier::ext_equal]
pub struct SlotStartedView {
    pub tenant: Seq<char>,
    pub session: SessionId,
    pub slot: SlotId,
    pub external_id: Option<Seq<char>>,
    pub external_ref: Option<Seq<char>>,
    pub arrival_ms: u64,
    pub session_frame: Option<u32>,
    pub slot_frame: Option<u32>,
}

impl View for SlotStartedNotice {
    type V = SlotStartedView;

    open spec fn view(&self) -> SlotStartedView {
        SlotStartedView {
            tenant: self.tenant.0@,
            session: self.session,
            slot: self.slot,
            external_id: text(self.external_id),
            external_ref: text(self.external_ref),
            arrival_ms: self.arrival_ms,
            session_frame: self.session_frame,
            slot_frame: self.slot_frame,
        }
    }
}

/// Something the coordinator is to hear of.
#[derive(Clone, Debug, PartialEq, Eq)]
pub enum RelayNotice {
    Departure(DepartureNotice),
    Desync(DesyncNotice),
    Result(ResultNotice),
    SlotConnected(SlotConnectedNotice),
    SessionStarted(SessionStartedNotice),
    SlotStarted(SlotStartedNotice),
    SessionClosed { tenant: TenantId, session: SessionId },
}

/// What a [`RelayNotice`] says.
pub enum NoticeView {
    Departure(DepartureNoticeView),
    Desync(DesyncNoticeView),
    Result(ResultNoticeView),
    SlotConnected(SlotConnectedView),
    SessionStarted(SessionStartedView),
    SlotStarted(SlotStartedView),
    SessionClosed { tenant: Seq<char>, session: SessionId },
}

impl View for RelayNotice {
    type V = NoticeView;

    open spec fn view(&self) -> NoticeView {
        match *self {
            RelayNotice::Departure(n) => NoticeView::Departure(n@),
            RelayNotice::Desync(n) => NoticeView::Desync(n@),
            RelayNotice::Result(n) => NoticeView::Result(n@),
            RelayNotice::SlotConnected(n) => NoticeView::SlotConnected(n@),
            RelayNotice::SessionStarted(n) => NoticeView::SessionStarted(n@),
            RelayNotice::SlotStarted(n) => NoticeView::SlotStarted(n@),
            RelayNotice::SessionClosed { tenant, session } => NoticeView::SessionClosed { tenant: tenant.0@, session },
        }
    }
}

/// An entry of a session's flight record.
#[derive(Clone, Debug, PartialEq, Eq)]
pub enum FlightEvent {
    BufferDirective {
        buffer_turns: u32,
        apply_frame: u32,
        decision_seq: u32,
        inputs: Option<BufferDecisionInputs>,
    },
    SyncOrderingUnavailable { slot: u8, failure: SyncOrderingFailure },
    DesyncDetected { sync_ordinal: u64, diverged: Vec<SlotId>, no_majority: bool },
    SessionStart { initial_buffer_turns: Option<u32> },
    FrameStampRegressed { slot: u8, seq: u64, frame: u32, prior_frame: u32 },
    OverCeilingDirectiveForwarded { buffer_turns: u32, decision_seq: u32 },
    LeaveDecided { leave: LeaveDirective },
    /// The session's end; `sealed` where the session was still known. It goes only into a
    /// record that already exists: where nothing is recorded of the session, or its record
    /// was flushed, nothing is to be stored.
    SessionClosed { sealed: bool },
}

/// What a [`FlightEvent`] says.
pub enum EventView {
    BufferDirective { buffer_turns: u32, apply_frame: u32, decision_seq: u32, inputs: Option<InputsView> },
    SyncOrderingUnavailable { slot: u8, failure: SyncOrderingFailure },
    DesyncDetected { sync_ordinal: u64, diverged: Seq<SlotId>, no_majority: bool },
    SessionStart { initial_buffer_turns: Option<u32> },
    FrameStampRegressed { slot: u8, seq: u64, frame: u32, prior_frame: u32 },
    OverCeilingDirectiveForwarded { buffer_turns: u32, decision_seq: u32 },
    LeaveDecided { leave: LeaveDirective },
    /// The end of a record that already exists; it begins none.
    SessionClosed { sealed: bool },
}

impl View for FlightEvent {
    type V = EventView;

    open spec fn view(&self) -> EventView {
        match *self {
            FlightEvent::BufferDirective { buffer_turns, apply_frame, decision_seq, inputs } => EventView::BufferDirective {
                buffer_turns,
                apply_frame,
                decision_seq,
                inputs: crate::wire::inputs_view(inputs),
            },
            FlightEvent::SyncOrderingUnavailable { slot, failure } => EventView::SyncOrderingUnavailable { slot, failure },
            FlightEvent::DesyncDetected { sync_ordinal, diverged, no_majority } => EventView::DesyncDetected {
                sync_ordinal,
                diverged: diverged@,
                no_majority,
            },
            FlightEvent::SessionStart { initial_buffer_turns } => EventView::SessionStart { initial_buffer_turns },
            FlightEvent::FrameStampRegressed { slot, seq, frame, prior_frame } => EventView::FrameStampRegressed {
                slot,
                seq,
                frame,
                prior_frame,
            },
            FlightEvent::OverCeilingDirectiveForwarded { buffer_turns, decision_seq } => {
                EventView::OverCeilingDirectiveForwarded { buffer_turns, decision_seq }
            },
            FlightEvent::LeaveDecided { leave } => EventView::LeaveDecided { leave },
            FlightEvent::SessionClosed { sealed } => EventView::SessionClosed { sealed },
        }
    }
}

} // verus!
