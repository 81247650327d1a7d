//! Sessions taken on and handed over, and what their turns teach.
use crate::ids::GameFrameCount;
use crate::ids::SessionKey;
use crate::ids::SessionKeyView;
use crate::ids::SlotId;
use crate::law::ControlLaw;
use crate::maker::DecisionMaker;
use crate::maker::MakerView;
use crate::notice::EventView;
use crate::notice::FlightEvent;
use crate::notice::NoticeView;
use crate::notice::RelayNotice;
use crate::ordmap::OrdSet;
use crate::registry::DecisionMakers;
use crate::registry::RegistryView;
use crate::sync::turns::SyncTurn;
use crate::time::Instant;
use crate::wire::Authority;
use crate::wire::BufferBounds;
use crate::wire::DepartedSlot;
use crate::wire::LeaveDirective;
use crate::wire::SessionDescriptor;
use vstd::prelude::*;

verus! {

/// What a descriptor, and the relay's place in the session, say of a session.
pub struct MakerSync<'a> {
    pub bounds: BufferBounds,
    pub authority: Authority,
    pub observers: OrdSet<SlotId>,
    pub expected_slots: OrdSet<SlotId>,
    pub homed_slots: OrdSet<SlotId>,
    pub held_slots: OrdSet<SlotId>,
    /// Where the session is resumed from elsewhere, the players already gone.
    pub resumed_departed: Option<&'a [DepartedSlot]>,
    pub finalized_drops: bool,
}

/// What a [`MakerSync`] says.
#[verifier::ext_equal]
pub struct SyncView {
    pub bounds: BufferBounds,
    pub authority: Authority,
    pub observers: Set<SlotId>,
    pub expected: Set<SlotId>,
    pub homed: Set<SlotId>,
    pub held: Set<SlotId>,
    pub resumed_departed: Option<Seq<DepartedSlot>>,
    pub finalized_drops: bool,
}

impl<'a> View for MakerSync<'a> {
    type V = SyncView;

    open spec fn view(&self) -> SyncView {
        SyncView {
            bounds: self.bounds,
            authority: self.authority,
            observers: self.observers@,
            expected: self.expected_slots@,
            homed: self.homed_slots@,
            held: self.held_slots@,
            resumed_departed: match self.resumed_departed {
                Some(d) => Some(d@),
                None => None,
            },
            finalized_drops: self.finalized_drops,
        }
    }
}

/// The set of the slots listed.
fn collect_slots(slots: &Vec<SlotId>) -> (r: OrdSet<SlotId>)
    ensures
        r@ == slots@.to_set(),
{
    let mut out: OrdSet<SlotId> = OrdSet::new();
    let mut i: usize = 0;
    while i < slots.len()
        invariant
            i <= slots@.len(),
            forall|s: SlotId| #[trigger] out@.contains(s) <==> slots@.take(i as int).contains(s),
        decreases slots@.len() - i,
    {
        out.insert(slots[i]);
        proof {
            crate::sync::tracker::lemma_take_contains(slots@, i as int);
        }
        i += 1;
    }
    assert(slots@.take(slots@.len() as int) =~= slots@);
    assert(out@ =~= slots@.to_set());
    out
}

impl<'a> MakerSync<'a> {
    /// Bounds and an authority, and nothing else known.
    pub fn new(bounds: BufferBounds, authority: Authority) -> (r: Self)
        ensures
            r@ == (SyncView {
                bounds,
                authority,
                observers: Set::empty(),
                expected: Set::empty(),
                homed: Set::empty(),
                held: Set::empty(),
                resumed_departed: None,
                finalized_drops: false,
            }),
    {
        MakerSync {
            bounds,
            authority,
            observers: OrdSet::new(),
            expected_slots: OrdSet::new(),
            homed_slots: OrdSet::new(),
            held_slots: OrdSet::new(),
            resumed_departed: None,
            finalized_drops: false,
        }
    }

    /// What a descriptor says; departed players count only where the session is resumed.
    pub fn from_descriptor(descriptor: &'a SessionDescriptor, authority: Authority, held_slots: OrdSet<SlotId>) -> (r: Self)
        ensures
            r@ == (SyncView {
                bounds: descriptor.bounds,
                authority,
                observers: descriptor.observer_slots@.to_set(),
                expected: descriptor.expected_slots@.to_set(),
                homed: descriptor.homed_slots@.to_set(),
                held: held_slots@,
                resumed_departed: if descriptor.resumed { Some(descriptor.departed_slots@) } else { None },
                finalized_drops: descriptor.finalized_drops,
            }),
    {
        MakerSync {
            bounds: descriptor.bounds,
            authority,
            observers: collect_slots(&descriptor.observer_slots),
            expected_slots: collect_slots(&descriptor.expected_slots),
            homed_slots: collect_slots(&descriptor.homed_slots),
            held_slots,
            resumed_departed: if descriptor.resumed { Some(descriptor.departed_slots.as_slice()) } else { None },
            finalized_drops: descriptor.finalized_drops,
        }
    }
}

impl MakerView {
    /// The first `n` departed players seeded, with the leaves that came of it.
    pub open spec fn seed_upto(self, departed: Seq<DepartedSlot>, n: int, now: Instant) -> (MakerView, Seq<LeaveDirective>)
        decreases n,
    {
        if n <= 0 {
            (self, Seq::empty())
        } else {
            let (before, out) = self.seed_upto(departed, n - 1, now);
            let d = departed[n - 1];
            (
                before.seed_departed(d.slot, d.kind, d.final_turn_count, d.finalized, now),
                match before.seed_directive(d.slot, d.kind, d.final_turn_count, d.finalized) {
                    Some(leave) => out.push(leave),
                    None => out,
                },
            )
        }
    }

    /// A resumed session: its departed players seeded, and started already.
    pub open spec fn resuming(self, departed: Option<Seq<DepartedSlot>>, now: Instant) -> (MakerView, Seq<LeaveDirective>) {
        match departed {
            None => (self, Seq::empty()),
            Some(d) => {
                let (seeded, leaves) = self.seed_upto(d, d.len() as int, now);
                (MakerView { resumed: true, ..seeded.latch_started(now) }, leaves)
            },
        }
    }

    /// A known session's descriptor taken in, before its authority moves. Slots gained as
    /// homes carry no turn history here.
    pub open spec fn redescribed(self, sync: SyncView) -> MakerView {
        MakerView {
            observers: sync.observers,
            sync: self.sync.remove_members(sync.observers),
            expected: sync.expected,
            rehomed_homes: self.rehomed_homes.union(sync.homed.difference(self.homed)),
            homed: sync.homed,
            ..self
        }
    }

    /// A known session's descriptor taken in, with departed players seeded.
    pub open spec fn reseeded(self, sync: SyncView, now: Instant) -> MakerView {
        self.redescribed(sync).resuming(sync.resumed_departed, now).0
    }

    pub open spec fn bounded(self, bounds: BufferBounds) -> MakerView {
        MakerView { bounds, ..self }
    }

    /// A new session as its descriptor says.
    pub open spec fn described(key: SessionKeyView, sync: SyncView) -> MakerView {
        let law = ControlLaw {
            turn_duration_us: 41_666,
            lower_step: 2,
            min_dwell_turns: 120,
            shrink_headroom_us: 5_208,
            loss_attack_samples: 24,
            loss_memory_samples: 192,
            shrink_lookback_turns: 600,
        };
        MakerView {
            expected: sync.expected,
            homed: sync.homed,
            finalized_drops_enabled: sync.finalized_drops,
            rehomed_homes: if sync.resumed_departed is Some { sync.homed } else { Set::empty() },
            ..MakerView::fresh(key, sync.bounds, law, sync.authority, sync.observers)
        }
    }
}

/// `leaves`, and those of the first `n` of `seeded` whose slot has none among them.
pub open spec fn joined_leaves(leaves: Seq<LeaveDirective>, seeded: Seq<LeaveDirective>, n: int) -> Seq<LeaveDirective>
    decreases n,
{
    if n <= 0 {
        leaves
    } else {
        let before = joined_leaves(leaves, seeded, n - 1);
        if names_slot(before, seeded[n - 1].slot) {
            before
        } else {
            before.push(seeded[n - 1])
        }
    }
}

/// Whether some leave is of `slot`.
pub open spec fn names_slot(leaves: Seq<LeaveDirective>, slot: u32) -> bool {
    exists|i: int| 0 <= i < leaves.len() && (#[trigger] leaves[i]).slot == slot
}

fn has_leave_of(leaves: &Vec<LeaveDirective>, slot: u32) -> (r: bool)
    ensures
        r == names_slot(leaves@, slot),
{
    let mut i: usize = 0;
    while i < leaves.len()
        invariant
            i <= leaves@.len(),
            forall|j: int| 0 <= j < i ==> (#[trigger] leaves@[j]).slot != slot,
        decreases leaves@.len() - i,
    {
        if leaves[i].slot == slot {
            return true;
        }
        i += 1;
    }
    false
}

impl RegistryView {
    /// A session's descriptor taken in, and the leaves to broadcast for it. Those decided
    /// just now are reported and recorded; those seeded were, elsewhere.
    pub open spec fn sync_maker(self, key: SessionKeyView, sync: SyncView, now: Instant) -> (
        RegistryView,
        Seq<LeaveDirective>,
    ) {
        match self.maker(key) {
            Some(m) => {
                let ready = m.reseeded(sync, now).bounded(sync.bounds);
                let seeded = m.redescribed(sync).resuming(sync.resumed_departed, now).1;
                let fresh = ready.fresh_leaves(sync.authority, sync.held, now);
                (
                    self.with_maker(key, ready.set_authority(sync.authority, sync.held, now)).announcing_all(
                        key,
                        fresh,
                        fresh.len() as int,
                    ),
                    joined_leaves(
                        ready.handoff_leaves(sync.authority, sync.held, now),
                        seeded,
                        seeded.len() as int,
                    ),
                )
            },
            None => {
                let (made, seeded) = MakerView::described(key, sync).resuming(sync.resumed_departed, now);
                (self.with_maker(key, made), joined_leaves(Seq::empty(), seeded, seeded.len() as int))
            },
        }
    }

    /// The authority moved, and the leaves decided by it reported and recorded.
    pub open spec fn set_authority(self, key: SessionKeyView, authority: Authority, held: Set<SlotId>, now: Instant) -> RegistryView {
        match self.maker(key) {
            Some(m) => {
                let fresh = m.fresh_leaves(authority, held, now);
                self.with_maker(key, m.set_authority(authority, held, now)).announcing_all(
                    key,
                    fresh,
                    fresh.len() as int,
                )
            },
            None => self,
        }
    }

    /// One stamped turn taken in; a slot's first regressed stamp is recorded.
    pub open spec fn observe_turn_frame(self, key: SessionKeyView, slot: SlotId, seq: u64, frame: GameFrameCount) -> RegistryView {
        match self.maker(key) {
            Some(m) => {
                let next = self.with_maker(key, m.observe_turn_frame(slot, seq, frame));
                match m.frame_regression(slot, seq, frame) {
                    Some(regression) => next.recording(
                        key,
                        EventView::FrameStampRegressed {
                            slot: slot.0,
                            seq,
                            frame: frame.0,
                            prior_frame: regression.prior_frame,
                        },
                    ),
                    None => next,
                }
            },
            None => self,
        }
    }

    /// One turn's checksums taken in: an origin that can no longer be ordered is recorded
    /// once, and a disagreement is recorded and reported.
    pub open spec fn observe_sync(self, key: SessionKeyView, slot: SlotId, seq: u64, turn: SyncTurn, now_ms: u64) -> RegistryView {
        match self.maker(key) {
            Some(m) => {
                let (next_maker, verdict) = m.observe_sync(slot, seq, turn);
                let next = self.with_maker(key, next_maker);
                let recorded = if m.origin(slot).failure is None && next_maker.origin(slot).failure is Some {
                    next.recording(
                        key,
                        EventView::SyncOrderingUnavailable {
                            slot: slot.0,
                            failure: next_maker.origin(slot).failure->0,
                        },
                    )
                } else {
                    next
                };
                match verdict {
                    Some(divergence) => recorded.recording(
                        key,
                        EventView::DesyncDetected {
                            sync_ordinal: divergence.sync_ordinal,
                            diverged: divergence.diverged,
                            no_majority: divergence.no_majority,
                        },
                    ).noticing(NoticeView::Desync(self.desync_notice(key, divergence, now_ms))),
                    None => recorded,
                }
            },
            None => self,
        }
    }
}

impl DecisionMaker {
    /// Seeds a resumed session's departed players and marks it as started.
    pub(crate) fn resume_with(&mut self, departed: Option<&[DepartedSlot]>, now: Instant) -> (r: Vec<LeaveDirective>)
        ensures
            ({
                let d = match departed {
                    Some(d) => Some(d@),
                    None => None,
                };
                r@ == old(self)@.resuming(d, now).1 && final(self)@ == old(self)@.resuming(d, now).0
            }),
    {
        let departed = match departed {
            Some(departed) => departed,
            None => {
                return Vec::new();
            },
        };
        let mut seeded: Vec<LeaveDirective> = Vec::new();
        let n: usize = departed.len();
        let mut i: usize = 0;
        while i < n
            invariant
                i <= n,
                n == departed@.len(),
                self@ == old(self)@.seed_upto(departed@, i as int, now).0,
                seeded@ == old(self)@.seed_upto(departed@, i as int, now).1,
            decreases n - i,
        {
            let d = departed[i];
            if let Some(leave) = self.seed_departed(d.slot, d.kind, d.final_turn_count, d.finalized, now) {
                seeded.push(leave);
            }
            i += 1;
        }
        self.mark_started(now);
        self.resumed = true;
        seeded
    }

    /// Takes a known session's descriptor in, before its authority moves.
    fn redescribe(&mut self, observers: OrdSet<SlotId>, expected: OrdSet<SlotId>, homed: OrdSet<SlotId>)
        ensures
            final(self)@ == (MakerView {
                observers: observers@,
                sync: old(self)@.sync.remove_members(observers@),
                expected: expected@,
                rehomed_homes: old(self)@.rehomed_homes.union(homed@.difference(old(self)@.homed)),
                homed: homed@,
                ..old(self)@
            }),
    {
        self.set_observers(observers);
        self.set_expected_slots(expected);
        let keys = homed.keys();
        let ghost before = self@;
        let mut i: usize = 0;
        while i < keys.len()
            invariant
                i <= keys@.len(),
                crate::ordmap::lists(keys@, homed@),
                self@ == (MakerView { rehomed_homes: self@.rehomed_homes, ..before }),
                forall|s: SlotId| #[trigger]
                    self@.rehomed_homes.contains(s) <==> before.rehomed_homes.contains(s) || (keys@.take(
                        i as int,
                    ).contains(s) && !before.homed.contains(s)),
            decreases keys@.len() - i,
        {
            let slot = keys[i];
            if !self.homed_slots.contains(slot) {
                self.rehomed_homes.insert(slot);
            }
            proof {
                crate::sync::tracker::lemma_take_contains(keys@, i as int);
            }
            i += 1;
        }
        assert(keys@.take(keys@.len() as int) =~= keys@);
        assert(self@.rehomed_homes =~= before.rehomed_homes.union(homed@.difference(before.homed)));
        self.set_homed_slots(homed);
    }
}

/// A copy of the set.
fn copy_slots(slots: &OrdSet<SlotId>) -> (r: OrdSet<SlotId>)
    ensures
        r@ == slots@,
{
    let keys = slots.keys();
    let r = collect_slots(&keys);
    assert(r@ =~= slots@);
    r
}

/// Takes a session's descriptor in: a new session gets its maker, a known one its new
/// bounds, slots and authority. The result is the leaves to broadcast.
#[must_use]
pub fn sync_maker(registry: &mut DecisionMakers, key: &SessionKey, sync: MakerSync<'_>, now: Instant) -> (r: Vec<
    LeaveDirective,
>)
    ensures
        r@ == old(registry)@.sync_maker(key@, sync@, now).1,
        final(registry)@ == old(registry)@.sync_maker(key@, sync@, now).0,
{
    let ghost before = registry@;
    let ghost said = sync@;
    let MakerSync {
        bounds,
        authority,
        observers,
        expected_slots,
        homed_slots,
        held_slots,
        resumed_departed,
        finalized_drops,
    } = sync;
    let known = registry.makers.contains_key(key);
    if known {
        let (leaves, fresh, seeded) = match registry.makers.get_mut(key) {
            Some(maker) => {
                maker.redescribe(observers, expected_slots, homed_slots);
                let seeded = maker.resume_with(resumed_departed, now);
                let (leaves, fresh) = maker.sync(bounds, authority, &held_slots, now);
                (leaves, fresh, seeded)
            },
            None => (Vec::new(), Vec::new(), Vec::new()),
        };
        registry.announce_all(key, &fresh);
        join_leaves(leaves, &seeded)
    } else {
        let mut maker = DecisionMaker::new(key.duplicate(), bounds, ControlLaw::default(), authority, observers);
        maker.set_expected_slots(expected_slots);
        maker.finalized_drops_enabled = finalized_drops;
        if resumed_departed.is_some() {
            maker.rehomed_homes = copy_slots(&homed_slots);
        }
        maker.set_homed_slots(homed_slots);
        assert(maker@ == MakerView::described(key@, said));
        let seeded = maker.resume_with(resumed_departed, now);
        registry.makers.insert(key.duplicate(), maker);
        join_leaves(Vec::new(), &seeded)
    }
}

/// `leaves`, and those of `seeded` whose slot has none among them.
fn join_leaves(leaves: Vec<LeaveDirective>, seeded: &Vec<LeaveDirective>) -> (r: Vec<LeaveDirective>)
    ensures
        r@ == joined_leaves(leaves@, seeded@, seeded@.len() as int),
{
    let ghost first = leaves@;
    let mut leaves = leaves;
    let mut i: usize = 0;
    while i < seeded.len()
        invariant
            i <= seeded@.len(),
            leaves@ == joined_leaves(first, seeded@, i as int),
        decreases seeded@.len() - i,
    {
        let leave = seeded[i];
        if !has_leave_of(&leaves, leave.slot) {
            leaves.push(leave);
        }
        i += 1;
    }
    leaves
}

/// Moves a session's authority. The result is the leaves to broadcast.
#[must_use]
pub fn set_authority(
    registry: &mut DecisionMakers,
    key: &SessionKey,
    authority: Authority,
    held_slots: &OrdSet<SlotId>,
    now: Instant,
) -> (r: Vec<LeaveDirective>)
    ensures
        r@ == match old(registry)@.maker(key@) {
            Some(m) => m.handoff_leaves(authority, held_slots@, now),
            None => Seq::empty(),
        },
        final(registry)@ == old(registry)@.set_authority(key@, authority, held_slots@, now),
{
    let (leaves, fresh) = match registry.makers.get_mut(key) {
        Some(maker) => maker.set_authority(authority, held_slots, now),
        None => {
            return Vec::new();
        },
    };
    registry.announce_all(key, &fresh);
    leaves
}

/// The slot's last observed frame, while it is live.
pub fn slot_frame(registry: &DecisionMakers, key: &SessionKey, slot: SlotId) -> (r: Option<GameFrameCount>)
    ensures
        r == match registry@.maker(key@) {
            Some(m) => m.slot_frame(slot),
            None => None,
        },
{
    match registry.makers.get(key) {
        Some(maker) => maker.slot_frame(slot),
        None => None,
    }
}

/// Whether this relay decides the session's buffer and leaves.
pub fn is_authority(registry: &DecisionMakers, key: &SessionKey) -> (r: bool)
    ensures
        r == match registry@.maker(key@) {
            Some(m) => m.is_authority(),
            None => false,
        },
{
    match registry.makers.get(key) {
        Some(maker) => maker.is_authority(),
        None => false,
    }
}

/// Takes a slot's frame in.
pub fn observe_frame(registry: &mut DecisionMakers, key: &SessionKey, slot: SlotId, frame: GameFrameCount)
    ensures
        final(registry)@ == match old(registry)@.maker(key@) {
            Some(m) => old(registry)@.with_maker(key@, m.observe_frame(slot, frame)),
            None => old(registry)@,
        },
{
    if let Some(maker) = registry.makers.get_mut(key) {
        maker.observe_frame(slot, frame);
    }
}

/// Takes a stamped turn in, recording the slot's first regressed stamp.
pub fn observe_turn_frame(registry: &mut DecisionMakers, key: &SessionKey, slot: SlotId, seq: u64, frame: GameFrameCount)
    ensures
        final(registry)@ == old(registry)@.observe_turn_frame(key@, slot, seq, frame),
{
    let regression = match registry.makers.get_mut(key) {
        Some(maker) => maker.observe_turn_frame(slot, seq, frame),
        None => None,
    };
    if let Some(regression) = regression {
        registry.record_event(
            key,
            FlightEvent::FrameStampRegressed {
                slot: slot.0,
                seq,
                frame: frame.0,
                prior_frame: regression.prior_frame,
            },
        );
    }
}

/// The session's worst pair lag in turns, and the most relays a turn passes.
pub fn session_e2e(registry: &DecisionMakers, key: &SessionKey) -> (r: (Option<u64>, Option<u32>))
    ensures
        r == match registry@.maker(key@) {
            Some(m) => (m.delivery.worst_lag_turns, m.delivery.max_relay_hops),
            None => (None, None),
        },
{
    match registry.makers.get(key) {
        Some(maker) => maker.delivery_view(),
        None => (None, None),
    }
}

/// Takes one turn's checksum report in, from an origin that does not tag its reports.
pub fn observe_sync(
    registry: &mut DecisionMakers,
    key: &SessionKey,
    slot: SlotId,
    seq: u64,
    game_frame: Option<u32>,
    commands: &[u8],
    lengths: &[Option<usize>],
    now_ms: u64,
)
    ensures
        final(registry)@ == old(registry)@.observe_sync(
            key@,
            slot,
            seq,
            crate::maker::sync::sync_turn(game_frame, commands@, lengths@, None),
            now_ms,
        ),
{
    observe_sync_with_generation(registry, key, slot, seq, game_frame, commands, lengths, None, now_ms);
}

/// Takes one turn's checksum report in; what it brings to light is recorded and reported.
pub fn observe_sync_with_generation(
    registry: &mut DecisionMakers,
    key: &SessionKey,
    slot: SlotId,
    seq: u64,
    game_frame: Option<u32>,
    commands: &[u8],
    lengths: &[Option<usize>],
    sync_generation: Option<u64>,
    now_ms: u64,
)
    ensures
        final(registry)@ == old(registry)@.observe_sync(
            key@,
            slot,
            seq,
            crate::maker::sync::sync_turn(game_frame, commands@, lengths@, sync_generation),
            now_ms,
        ),
{
    let (divergence, failure) = match registry.makers.get_mut(key) {
        Some(maker) => {
            let was_unavailable = maker.sync_turns.unavailable(slot);
            let divergence = maker.observe_sync_with_generation(
                slot,
                seq,
                game_frame,
                commands,
                lengths,
                sync_generation,
            );
            let failure = if was_unavailable { None } else { maker.sync_turns.failure(slot) };
            (divergence, failure)
        },
        None => (None, None),
    };
    if let Some(failure) = failure {
        registry.record_event(key, FlightEvent::SyncOrderingUnavailable { slot: slot.0, failure });
    }
    if let Some(divergence) = divergence {
        let notice = registry.desync_notice(key, &divergence, now_ms);
        assert(notice@.diverged =~= old(registry)@.desync_notice(key@, divergence@, now_ms).diverged);
        let diverged = divergence.diverged.clone();
        assert(diverged@ =~= divergence.diverged@);
        registry.record_event(
            key,
            FlightEvent::DesyncDetected {
                sync_ordinal: divergence.sync_ordinal,
                diverged,
                no_majority: divergence.no_majority,
            },
        );
        registry.emit_notice(RelayNotice::Desync(notice));
    }
}

} // verus!
