//! The values relays exchange with each other, with clients and with the coordinator.
use crate::ids::GameFrameCount;
use crate::ids::SessionId;
use crate::ids::SlotId;
use crate::ids::TenantId;
use vstd::prelude::*;

verus! {

/// The leave reason of a player whose connection was lost.
pub const LEAVE_REASON_DROPPED: u32 = 0x4000_0006;

/// The leave reason of a player who left.
pub const LEAVE_REASON_LEFT: u32 = 3;

/// Cap on an end-of-game result payload, in bytes.
pub const MAX_GAME_RESULT_PAYLOAD_LEN: usize = 4096;

/// How long after the session starts its region labels are held back, in nanoseconds.
pub const REGION_LABEL_RELEASE_DELAY: u64 = 10_000_000_000;

/// The buffer depths a session's policy admits, in turns.
#[derive(Clone, Copy, Debug, PartialEq, Eq, Structural)]
pub struct BufferBounds {
    pub min: u32,
    pub max: u32,
}

impl BufferBounds {
    pub open spec fn spec_clamp(self, depth: u32) -> u32 {
        let raised = if depth >= self.min { depth } else { self.min };
        if raised <= self.max { raised } else { self.max }
    }

    /// The admitted depth nearest to `depth`.
    pub fn clamp(&self, depth: u32) -> (r: u32)
        ensures
            r == self.spec_clamp(depth),
    {
        let raised: u32 = if depth >= self.min { depth } else { self.min };
        if raised <= self.max { raised } else { self.max }
    }
}

/// A latency buffer's depth, in turns.
#[derive(Clone, Copy, Debug, PartialEq, Eq, PartialOrd, Ord, Structural)]
pub struct BufferSize(pub u32);

/// Who decides the session's buffer: this relay or another.
#[derive(Clone, Copy, Debug, PartialEq, Eq, Structural)]
pub enum Authority {
    SelfRelay,
    Peer,
}

/// The buffer a session is to use from a frame on.
#[derive(Clone, Copy, Debug, PartialEq, Eq, Structural)]
pub struct BufferDirective {
    pub buffer_turns: u32,
    pub apply_at_frame: u32,
    pub decision_seq: u32,
    /// The relay that decided, breaking ties between equal sequence numbers.
    pub authority_relay_id: Option<u64>,
}

/// A player's departure, applied by every client at the same frame.
#[derive(Clone, Copy, Debug, PartialEq, Eq, Structural)]
pub struct LeaveDirective {
    /// Whether `final_turn_count` is the complete count of a finalized drop.
    pub finalized: bool,
    pub slot: u32,
    pub reason: u32,
    pub apply_at_frame: u32,
    pub leave_seq: u32,
    pub final_turn_count: Option<u64>,
}

impl View for LeaveDirective {
    type V = LeaveDirective;

    open spec fn view(&self) -> LeaveDirective {
        *self
    }
}

/// One slot's link conditions as its home relay measured them.
#[derive(Clone, Copy, Debug, PartialEq, Eq, Structural)]
pub struct SlotConditions {
    pub slot: u32,
    pub rtt_us: u32,
    pub lost_packets: u64,
    pub sent_packets: u64,
    pub connection_epoch: Option<u64>,
}

/// Link conditions of several slots.
#[derive(Clone, Debug)]
pub struct LinkConditions {
    pub slots: Vec<SlotConditions>,
}

/// The region a relay of the session is in, shown to players.
#[derive(Clone, Debug, PartialEq, Eq)]
pub struct RegionLabel {
    pub relay_id: u64,
    pub label: String,
}

/// What a [`RegionLabel`] says.
#[verifier::ext_equal]
pub struct LabelView {
    pub relay_id: u64,
    pub label: Seq<char>,
}

impl View for RegionLabel {
    type V = LabelView;

    open spec fn view(&self) -> LabelView {
        LabelView { relay_id: self.relay_id, label: self.label@ }
    }
}

/// What a list of labels says.
pub open spec fn label_views(labels: Seq<RegionLabel>) -> Seq<LabelView> {
    labels.map_values(|l: RegionLabel| l@)
}

/// What an optional list of labels says.
pub open spec fn optional_label_views(labels: Option<Vec<RegionLabel>>) -> Option<Seq<LabelView>> {
    match labels {
        Some(l) => Some(label_views(l@)),
        None => None,
    }
}

/// A copy of `labels`.
pub fn copy_labels(labels: &Vec<RegionLabel>) -> (r: Vec<RegionLabel>)
    ensures
        label_views(r@) == label_views(labels@),
{
    let mut out: Vec<RegionLabel> = Vec::new();
    let mut i: usize = 0;
    while i < labels.len()
        invariant
            i <= labels@.len(),
            out@.len() == i,
            forall|j: int| 0 <= j < i ==> (#[trigger] out@[j])@ == labels@[j]@,
        decreases labels@.len() - i,
    {
        out.push(RegionLabel { relay_id: labels[i].relay_id, label: labels[i].label.clone() });
        i += 1;
    }
    assert(label_views(out@) =~= label_views(labels@));
    out
}

/// Whether both lists say the same.
pub fn same_labels(a: &Vec<RegionLabel>, b: &Vec<RegionLabel>) -> (r: bool)
    ensures
        r == (label_views(a@) == label_views(b@)),
{
    if a.len() != b.len() {
        assert(label_views(a@).len() != label_views(b@).len());
        return false;
    }
    let mut i: usize = 0;
    while i < a.len()
        invariant
            i <= a@.len(),
            a@.len() == b@.len(),
            forall|j: int| 0 <= j < i ==> (#[trigger] a@[j])@ == b@[j]@,
        decreases a@.len() - i,
    {
        if a[i].relay_id != b[i].relay_id || !(a[i].label == b[i].label) {
            assert(label_views(a@)[i as int] != label_views(b@)[i as int]);
            return false;
        }
        assert(a@[i as int]@ =~= b@[i as int]@);
        i += 1;
    }
    assert(label_views(a@) =~= label_views(b@));
    true
}

/// Why a player is gone.
#[derive(Clone, Copy, Debug, PartialEq, Eq, Structural)]
pub enum DepartureKind {
    Dropped,
    Left,
}

/// A player known to be gone when a session is resumed.
#[derive(Clone, Copy, Debug, PartialEq, Eq, Structural)]
pub struct DepartedSlot {
    pub slot: SlotId,
    pub kind: DepartureKind,
    pub final_turn_count: Option<u64>,
    pub finalized: bool,
}

/// A player's end-of-game result, and where the session stood when it arrived.
#[derive(Clone, Debug, PartialEq, Eq)]
pub struct ResultEcho {
    pub payload: Vec<u8>,
    pub arrival_ms: u64,
    pub session_frame: Option<u32>,
    pub slot_frame: Option<u32>,
}

/// What a [`ResultEcho`] says.
#[verifier::ext_equal]
pub struct EchoView {
    pub payload: Seq<u8>,
    pub arrival_ms: u64,
    pub session_frame: Option<u32>,
    pub slot_frame: Option<u32>,
}

impl View for ResultEcho {
    type V = EchoView;

    open spec fn view(&self) -> EchoView {
        EchoView {
            payload: self.payload@,
            arrival_ms: self.arrival_ms,
            session_frame: self.session_frame,
            slot_frame: self.slot_frame,
        }
    }
}

pub open spec fn echo_view(echo: Option<ResultEcho>) -> Option<EchoView> {
    match echo {
        Some(e) => Some(e@),
        None => None,
    }
}

impl ResultEcho {
    /// A copy of the echo.
    pub fn duplicate(&self) -> (r: ResultEcho)
        ensures
            r@ == self@,
    {
        let payload = self.payload.clone();
        assert(payload@ =~= self.payload@);
        ResultEcho {
            payload,
            arrival_ms: self.arrival_ms,
            session_frame: self.session_frame,
            slot_frame: self.slot_frame,
        }
    }
}

/// A copy of an optional echo.
pub fn copy_echo(echo: &Option<ResultEcho>) -> (r: Option<ResultEcho>)
    ensures
        echo_view(r) == echo_view(*echo),
{
    match echo {
        Some(e) => Some(e.duplicate()),
        None => None,
    }
}

/// Whether a result payload may be kept.
pub open spec fn valid_payload(payload: Seq<u8>) -> bool {
    0 < payload.len() <= MAX_GAME_RESULT_PAYLOAD_LEN
}

/// Whether a result payload may be kept: neither empty nor past the cap.
pub fn result_payload_is_valid(payload: &Vec<u8>) -> (r: bool)
    ensures
        r == valid_payload(payload@),
{
    payload.len() > 0 && payload.len() <= MAX_GAME_RESULT_PAYLOAD_LEN
}

/// A session as the coordinator describes it to a relay.
#[derive(Clone, Debug)]
pub struct SessionDescriptor {
    pub bounds: BufferBounds,
    pub observer_slots: Vec<SlotId>,
    pub expected_slots: Vec<SlotId>,
    pub homed_slots: Vec<SlotId>,
    pub resumed: bool,
    pub departed_slots: Vec<DepartedSlot>,
    pub finalized_drops: bool,
}

/// A leave as it is reported to the coordinator.
#[derive(Clone, Debug, PartialEq, Eq)]
pub struct DepartureNotice {
    pub finalized: bool,
    pub tenant: TenantId,
    pub session: SessionId,
    pub slot: SlotId,
    pub kind: DepartureKind,
    pub reason: u32,
    pub leave_seq: u32,
    pub external_id: Option<String>,
    pub external_ref: Option<String>,
    pub result: Option<ResultEcho>,
    pub final_turn_count: Option<u64>,
}

/// A slot outside a checksum majority, as it is reported to the coordinator.
#[derive(Clone, Debug, PartialEq, Eq)]
pub struct DivergedSlot {
    pub slot: SlotId,
    pub external_ref: Option<String>,
}

/// A checksum disagreement as it is reported to the coordinator.
#[derive(Clone, Debug, PartialEq, Eq)]
pub struct DesyncNotice {
    pub tenant: TenantId,
    pub session: SessionId,
    pub sync_ordinal: u64,
    pub game_frame: Option<u32>,
    pub detected_at_ms: u64,
    pub no_majority: bool,
    pub diverged: Vec<DivergedSlot>,
    pub external_id: Option<String>,
}

/// A result as it is reported to the coordinator.
#[derive(Clone, Debug, PartialEq, Eq)]
pub struct ResultNotice {
    pub tenant: TenantId,
    pub session: SessionId,
    pub slot: SlotId,
    pub external_id: Option<String>,
    pub external_ref: Option<String>,
    pub payload: Vec<u8>,
    pub arrival_ms: u64,
    pub session_frame: Option<u32>,
    pub slot_frame: Option<u32>,
}

/// A slot's connection as it is reported to the coordinator.
#[derive(Clone, Debug, PartialEq, Eq)]
pub struct SlotConnectedNotice {
    pub tenant: TenantId,
    pub session: SessionId,
    pub slot: SlotId,
    pub external_id: Option<String>,
    pub external_ref: Option<String>,
    pub resumed: bool,
    pub connected_at_ms: u64,
}

/// A session's start as it is reported to the coordinator.
#[derive(Clone, Debug, PartialEq, Eq)]
pub struct SessionStartedNotice {
    pub tenant: TenantId,
    pub session: SessionId,
    pub external_id: Option<String>,
    pub started_at_ms: u64,
    pub initial_buffer_turns: Option<u32>,
}

/// A slot's game start as it is reported to the coordinator.
#[derive(Clone, Debug, PartialEq, Eq)]
pub struct SlotStartedNotice {
    pub tenant: TenantId,
    pub session: SessionId,
    pub slot: SlotId,
    pub external_id: Option<String>,
    pub external_ref: Option<String>,
    pub arrival_ms: u64,
    pub session_frame: Option<u32>,
    pub slot_frame: Option<u32>,
}

/// One decision of the control law.
#[derive(Clone, Copy, Debug, PartialEq, Eq, Structural)]
pub struct Decision {
    pub buffer: BufferSize,
    pub applied_frame: GameFrameCount,
}

/// One slot's effective RTT, as recorded beside a decision.
#[derive(Clone, Copy, Debug, PartialEq, Eq, Structural)]
pub struct SlotEffRtt {
    pub slot: u8,
    pub eff_rtt_us: u32,
}

/// Why a decision came out as it did.
#[derive(Clone, Debug, PartialEq, Eq)]
pub struct BufferDecisionInputs {
    pub law_target: u32,
    pub target: u32,
    pub shrink_target: u32,
    pub path_us: u32,
    pub loss_risk_us: u32,
    pub burst_turns: u32,
    pub cushion_turns: u32,
    pub stretch_turns: u32,
    pub shrink_floor: u32,
    pub edge_burned: bool,
    /// In ascending slot order.
    pub eff_rtts: Vec<SlotEffRtt>,
}

/// What a [`BufferDecisionInputs`] says.
#[verifier::ext_equal]
pub struct InputsView {
    pub law_target: u32,
    pub target: u32,
    pub shrink_target: u32,
    pub path_us: u32,
    pub loss_risk_us: u32,
    pub burst_turns: u32,
    pub cushion_turns: u32,
    pub stretch_turns: u32,
    pub shrink_floor: u32,
    pub edge_burned: bool,
    pub eff_rtts: Seq<SlotEffRtt>,
}

impl View for BufferDecisionInputs {
    type V = InputsView;

    open spec fn view(&self) -> InputsView {
        InputsView {
            law_target: self.law_target,
            target: self.target,
            shrink_target: self.shrink_target,
            path_us: self.path_us,
            loss_risk_us: self.loss_risk_us,
            burst_turns: self.burst_turns,
            cushion_turns: self.cushion_turns,
            stretch_turns: self.stretch_turns,
            shrink_floor: self.shrink_floor,
            edge_burned: self.edge_burned,
            eff_rtts: self.eff_rtts@,
        }
    }
}

pub open spec fn inputs_view(inputs: Option<BufferDecisionInputs>) -> Option<InputsView> {
    match inputs {
        Some(i) => Some(i@),
        None => None,
    }
}

/// How far the desync comparator covers a session's players.
#[derive(Clone, Copy, Debug, PartialEq, Eq, Structural)]
pub struct SyncCoverage {
    pub expected_players: u32,
    pub authority: bool,
    pub dormant: bool,
    pub unavailable_slots: u32,
    pub ordered_slots: u32,
    pub comparable_slots: u32,
    pub waiting_slots: u32,
}

} // verus!
