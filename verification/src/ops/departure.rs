//! Departures, connection generations and results.
use crate::ids::SessionKey;
use crate::ids::SlotId;
use crate::maker::departure::DepartureStamps;
use crate::maker::leave::FinalizeOutcome;
use crate::maker::MakerView;
use crate::registry::DecisionMakers;
use crate::slot::DepartureRecordOutcome;
use crate::slot::ReconnectAdmission;
use crate::time::Instant;
use crate::wire::LeaveDirective;
use crate::wire::ResultEcho;
use vstd::prelude::*;

verus! {

/// Records a departure without deciding a leave for it.
pub fn record_departure(registry: &mut DecisionMakers, key: &SessionKey, slot: SlotId, stamps: DepartureStamps, reason: u32)
    ensures
        final(registry)@ == match old(registry)@.maker(key@) {
            Some(m) => old(registry)@.with_maker(
                key@,
                m.note_departure(slot, stamps@, reason, None).forgetting(slot),
            ),
            None => old(registry)@,
        },
{
    registry.record_departure(key, slot, stamps, reason);
}

/// Records a departure of one connection generation; false where it is refused.
#[must_use]
pub fn record_departure_for_epoch(
    registry: &mut DecisionMakers,
    key: &SessionKey,
    slot: SlotId,
    stamps: DepartureStamps,
    reason: u32,
    connection_epoch: Option<u64>,
) -> (r: bool)
    ensures
        match old(registry)@.maker(key@) {
            Some(m) => {
                &&& r == (m.departure_outcome(slot, connection_epoch) != DepartureRecordOutcome::Rejected)
                &&& final(registry)@ == old(registry)@.with_maker(
                    key@,
                    m.record_departure_outcome(slot, stamps@, reason, connection_epoch),
                )
            },
            None => r && final(registry)@ == old(registry)@,
        },
{
    registry.record_departure_for_epoch(key, slot, stamps, reason, connection_epoch)
}

/// Records a departure of one connection generation, and says what it came to.
#[must_use]
pub fn record_departure_for_epoch_outcome(
    registry: &mut DecisionMakers,
    key: &SessionKey,
    slot: SlotId,
    stamps: DepartureStamps,
    reason: u32,
    connection_epoch: Option<u64>,
) -> (r: DepartureRecordOutcome)
    ensures
        match old(registry)@.maker(key@) {
            Some(m) => {
                &&& r == m.departure_outcome(slot, connection_epoch)
                &&& final(registry)@ == old(registry)@.with_maker(
                    key@,
                    m.record_departure_outcome(slot, stamps@, reason, connection_epoch),
                )
            },
            None => r == DepartureRecordOutcome::Pending && final(registry)@ == old(registry)@,
        },
{
    registry.record_departure_for_epoch_outcome(key, slot, stamps, reason, connection_epoch)
}

/// Brings `slot` up with generation `epoch`, where it can be.
#[must_use]
pub fn activate_connection_epoch(registry: &mut DecisionMakers, key: &SessionKey, slot: SlotId, epoch: u64, now: Instant) -> (r:
    bool)
    ensures
        match old(registry)@.maker(key@) {
            Some(m) => r == m.epoch_activates(slot, epoch) && final(registry)@ == old(registry)@.with_maker(
                key@,
                m.activate_connection_epoch(slot, epoch, now),
            ),
            None => !r && final(registry)@ == old(registry)@,
        },
{
    registry.activate_connection_epoch(key, slot, epoch, now)
}

/// Answers a reconnecting client whose drop hold, if any, is `hold_pending`: whether it is
/// let back in, and whether the hold is spent.
pub fn admit_reconnect(
    registry: &mut DecisionMakers,
    key: &SessionKey,
    slot: SlotId,
    epoch: Option<u64>,
    hold_pending: bool,
    now: Instant,
) -> (r: (ReconnectAdmission, bool))
    ensures
        match old(registry)@.maker(key@) {
            Some(m) => {
                &&& r.0 == m.reconnect_transition(slot, epoch, hold_pending).admission
                &&& r.1 == m.reconnect_transition(slot, epoch, hold_pending).consume_hold
                &&& final(registry)@ == old(registry)@.with_maker(
                    key@,
                    m.resolve_reconnect(slot, epoch, hold_pending, now),
                )
            },
            None => r.0 == (ReconnectAdmission::Admitted { reinstated: false }) && r.1 == hold_pending
                && final(registry)@ == old(registry)@,
        },
{
    admit_reconnect_with(registry, key, slot, epoch, hold_pending, || {}, now)
}

/// [`admit_reconnect`], with `after_reinstate` run where a departure was undone.
pub fn admit_reconnect_with<F: FnOnce()>(
    registry: &mut DecisionMakers,
    key: &SessionKey,
    slot: SlotId,
    epoch: Option<u64>,
    hold_pending: bool,
    after_reinstate: F,
    now: Instant,
) -> (r: (ReconnectAdmission, bool))
    requires
        after_reinstate.requires(()),
    ensures
        r.0 == (ReconnectAdmission::Admitted { reinstated: true }) ==> after_reinstate.ensures((), ()),
        match old(registry)@.maker(key@) {
            Some(m) => {
                &&& r.0 == m.reconnect_transition(slot, epoch, hold_pending).admission
                &&& r.1 == m.reconnect_transition(slot, epoch, hold_pending).consume_hold
                &&& final(registry)@ == old(registry)@.with_maker(
                    key@,
                    m.resolve_reconnect(slot, epoch, hold_pending, now),
                )
            },
            None => r.0 == (ReconnectAdmission::Admitted { reinstated: false }) && r.1 == hold_pending
                && final(registry)@ == old(registry)@,
        },
{
    let transition = registry.resolve_reconnect(key, slot, epoch, hold_pending, after_reinstate, now);
    (transition.admission, transition.consume_hold)
}

/// Notes that a connection generation is gone; an unknown session accepts any.
#[must_use]
pub fn mark_connection_down(registry: &mut DecisionMakers, key: &SessionKey, slot: SlotId, epoch: Option<u64>) -> (r: bool)
    ensures
        match old(registry)@.maker(key@) {
            Some(m) => r == m.down_accepted(slot, epoch) && final(registry)@ == old(registry)@.with_maker(
                key@,
                m.mark_connection_down(slot, epoch),
            ),
            None => r && final(registry)@ == old(registry)@,
        },
{
    registry.mark_connection_down(key, slot, epoch)
}

/// Whether `epoch` is the connection generation `slot` is known by; in an unknown session
/// any is.
pub fn connection_epoch_matches(registry: &DecisionMakers, key: &SessionKey, slot: SlotId, epoch: Option<u64>) -> (r: bool)
    ensures
        r == match registry@.maker(key@) {
            Some(m) => m.connection_epoch_matches(slot, epoch),
            None => true,
        },
{
    registry.connection_epoch_matches(key, slot, epoch)
}

/// Forgets a slot's live state and link, unless a newer connection owns them.
#[must_use]
pub fn remove_slot_for_epoch(registry: &mut DecisionMakers, key: &SessionKey, slot: SlotId, epoch: Option<u64>) -> (r: bool)
    ensures
        match old(registry)@.maker(key@) {
            Some(m) => {
                &&& r == m.connection_epoch_matches(slot, epoch)
                &&& final(registry)@ == old(registry)@.with_maker(key@, if r { m.remove_slot(slot) } else { m })
            },
            None => !r && final(registry)@ == old(registry)@,
        },
{
    registry.remove_slot_for_epoch(key, slot, epoch)
}

/// Keeps and reports the end-of-game result `slot` reported, where it is the first valid
/// one.
pub fn record_result(registry: &mut DecisionMakers, key: &SessionKey, slot: SlotId, payload: Vec<u8>, now_ms: u64)
    ensures
        final(registry)@ == old(registry)@.record_result(key@, slot, payload@, now_ms),
{
    registry.record_result(key, slot, payload, now_ms);
}

/// The result `slot` reported.
pub fn result_for(registry: &DecisionMakers, key: &SessionKey, slot: SlotId) -> (r: Option<ResultEcho>)
    ensures
        crate::wire::echo_view(r) == match registry@.maker(key@) {
            Some(m) => if m.results.contains_key(slot) { Some(m.results[slot]) } else { None },
            None => None,
        },
{
    registry.result_for(key, slot)
}

/// Finalizes a drop: seals the slot's generation against readmission and only then reads
/// its turn count through `read_cursor`.
pub fn finalize_drop<F: FnOnce() -> Option<u64>>(
    registry: &mut DecisionMakers,
    key: &SessionKey,
    slot: SlotId,
    requested_epoch: Option<u64>,
    read_cursor: F,
) -> (r: FinalizeOutcome)
    requires
        read_cursor.requires(()),
    ensures
        match old(registry)@.maker(key@) {
            Some(m) => match m.seal_refusal(slot, requested_epoch) {
                Some(outcome) => r == outcome && final(registry)@ == old(registry)@,
                None => exists|count: Option<u64>| #[trigger]
                    read_cursor.ensures((), count) && r == crate::maker::leave::finish_outcome(count) && final(registry)@
                        == old(registry)@.with_maker(
                        key@,
                        m.seal_for_finalize(slot, requested_epoch).finish_finalize(slot, count),
                    ),
            },
            None => r == FinalizeOutcome::RejectedNoCursor && final(registry)@ == old(registry)@,
        },
{
    registry.finalize_drop(key, slot, requested_epoch, read_cursor)
}

/// The connection generation that authored `slot`'s departure.
pub fn departure_epoch(registry: &DecisionMakers, key: &SessionKey, slot: SlotId) -> (r: Option<u64>)
    ensures
        r == match registry@.maker(key@) {
            Some(m) => m.departure_epoch(slot),
            None => None,
        },
{
    registry.departure_epoch(key, slot)
}

/// Whether the session is known.
pub fn maker_exists(registry: &DecisionMakers, key: &SessionKey) -> (r: bool)
    ensures
        r == registry@.makers.contains_key(key@),
{
    registry.maker_exists(key)
}

/// Claims the session's one close report; an unknown session always grants it.
pub fn claim_close_report(registry: &mut DecisionMakers, key: &SessionKey) -> (r: bool)
    ensures
        match old(registry)@.maker(key@) {
            Some(m) => r == !m.close_reported && final(registry)@ == old(registry)@.with_maker(
                key@,
                MakerView { close_reported: true, ..m },
            ),
            None => r && final(registry)@ == old(registry)@,
        },
{
    match registry.claim_close_report(key) {
        Some(first) => first,
        None => true,
    }
}

/// Makes the session's close report claimable again.
pub fn reopen_close_report(registry: &mut DecisionMakers, key: &SessionKey)
    ensures
        final(registry)@ == match old(registry)@.maker(key@) {
            Some(m) => old(registry)@.with_maker(key@, MakerView { close_reported: false, ..m }),
            None => old(registry)@,
        },
{
    registry.reopen_close_report(key);
}

/// Decides every departure left undecided, to close out a session every player has
/// abandoned, reporting and recording each.
pub fn decide_abandoned_departures(registry: &mut DecisionMakers, key: &SessionKey, now: Instant) -> (r: Vec<LeaveDirective>)
    ensures
        r@ == old(registry)@.abandoned_leaves(key@, now),
        final(registry)@ == old(registry)@.decide_abandoned_departures(key@, now),
{
    registry.decide_abandoned_departures(key, now)
}

} // verus!
