//! Departures, the leaves decided for them, connection generations and coming back.

use rally_point_consensus::ids::GameFrameCount;
use rally_point_consensus::ids::SessionId;
use rally_point_consensus::ids::SessionKey;
use rally_point_consensus::ids::SlotId;
use rally_point_consensus::ids::TenantId;
use rally_point_consensus::law::ControlLaw;
use rally_point_consensus::maker::departure::normalize_observed_leave;
use rally_point_consensus::maker::departure::DepartureStamps;
use rally_point_consensus::maker::leave::FinalizeOutcome;
use rally_point_consensus::maker::DecisionMaker;
use rally_point_consensus::notice::FlightEvent;
use rally_point_consensus::notice::RelayNotice;
use rally_point_consensus::ops::authority::observe_frame;
use rally_point_consensus::ops::authority::observe_turn_frame;
use rally_point_consensus::ops::authority::set_authority;
use rally_point_consensus::ops::authority::slot_frame;
use rally_point_consensus::ops::authority::sync_maker;
use rally_point_consensus::ops::authority::MakerSync;
use rally_point_consensus::ops::departure::activate_connection_epoch;
use rally_point_consensus::ops::departure::admit_reconnect;
use rally_point_consensus::ops::departure::admit_reconnect_with;
use rally_point_consensus::ops::departure::claim_close_report;
use rally_point_consensus::ops::departure::connection_epoch_matches;
use rally_point_consensus::ops::departure::decide_abandoned_departures;
use rally_point_consensus::ops::departure::departure_epoch;
use rally_point_consensus::ops::departure::finalize_drop;
use rally_point_consensus::ops::departure::maker_exists;
use rally_point_consensus::ops::departure::mark_connection_down;
use rally_point_consensus::ops::departure::record_departure;
use rally_point_consensus::ops::departure::record_departure_for_epoch_outcome;
use rally_point_consensus::ops::departure::record_result;
use rally_point_consensus::ops::departure::remove_slot_for_epoch;
use rally_point_consensus::ops::departure::reopen_close_report;
use rally_point_consensus::ops::departure::result_for;
use rally_point_consensus::ordmap::OrdSet;
use rally_point_consensus::registry::new_decision_makers;
use rally_point_consensus::registry::DecisionMakers;
use rally_point_consensus::slot::DepartureRecordOutcome;
use rally_point_consensus::slot::ReconnectAdmission;
use rally_point_consensus::time::Instant;
use rally_point_consensus::wire::Authority;
use rally_point_consensus::wire::BufferBounds;
use rally_point_consensus::wire::DepartedSlot;
use rally_point_consensus::wire::DepartureKind;
use rally_point_consensus::wire::LeaveDirective;
use rally_point_consensus::wire::SessionDescriptor;
use rally_point_consensus::wire::SlotConditions;
use rally_point_consensus::wire::LEAVE_REASON_DROPPED;
use rally_point_consensus::wire::LEAVE_REASON_LEFT;
use rally_point_consensus::wire::MAX_GAME_RESULT_PAYLOAD_LEN;

const BOUNDS: BufferBounds = BufferBounds { min: 1, max: 6 };

fn key() -> SessionKey {
    SessionKey { tenant: TenantId(String::from("tenant")), session: SessionId(1) }
}

fn now() -> Instant {
    Instant { nanos: 5_000_000_000 }
}

fn registry(authority: Authority) -> DecisionMakers {
    let mut registry = new_decision_makers();
    sync_maker(&mut registry, &key(), MakerSync::new(BOUNDS, authority), now());
    registry
}

fn frames(registry: &mut DecisionMakers, slots: &[(u8, u32)]) {
    for &(slot, frame) in slots {
        observe_frame(registry, &key(), SlotId(slot), GameFrameCount(frame));
    }
}

fn stamps(last_frame: Option<u32>, reachable_frame: Option<u32>) -> DepartureStamps {
    DepartureStamps {
        last_frame: last_frame.map(GameFrameCount),
        reachable_frame,
        result: None,
        final_turn_count: None,
        finalized: false,
    }
}

fn leave(slot: u32, reason: u32, leave_seq: u32, final_turn_count: Option<u64>, finalized: bool) -> LeaveDirective {
    LeaveDirective { finalized, slot, reason, apply_at_frame: 77, leave_seq, final_turn_count }
}

#[test]
fn a_leave_applies_right_behind_the_slots_last_frame() {
    let mut registry = registry(Authority::SelfRelay);
    frames(&mut registry, &[(0, 50), (1, 60)]);
    record_departure(&mut registry, &key(), SlotId(0), stamps(Some(55), None), LEAVE_REASON_LEFT);
    let decided = registry.decide_leave(&key(), SlotId(0), LEAVE_REASON_LEFT, now()).expect("decided");
    assert_eq!(
        decided,
        LeaveDirective {
            finalized: false,
            slot: 0,
            reason: LEAVE_REASON_LEFT,
            apply_at_frame: 56,
            leave_seq: 1,
            final_turn_count: None,
        }
    );
    assert!(registry.leave_decided(&key(), SlotId(0)));
    // Once decided, never again.
    assert!(registry.decide_leave(&key(), SlotId(0), LEAVE_REASON_DROPPED, now()).is_none());
    let notices = registry.take_notices();
    assert_eq!(notices.len(), 1);
    match &notices[0] {
        RelayNotice::Departure(notice) => {
            assert_eq!(notice.slot, SlotId(0));
            assert_eq!(notice.kind, DepartureKind::Left);
            assert_eq!(notice.leave_seq, 1);
        }
        other => panic!("{other:?}"),
    }
    assert!(matches!(registry.take_events()[0].1, FlightEvent::LeaveDecided { .. }));
}

#[test]
fn a_leave_never_applies_past_what_survivors_can_reach() {
    let mut registry = registry(Authority::SelfRelay);
    frames(&mut registry, &[(0, 50), (1, 60)]);
    record_departure(&mut registry, &key(), SlotId(0), stamps(Some(9_999), Some(58)), LEAVE_REASON_DROPPED);
    let decided = registry.decide_leave(&key(), SlotId(0), LEAVE_REASON_DROPPED, now()).expect("decided");
    assert_eq!(decided.apply_at_frame, 59);
}

#[test]
fn survivors_reach_what_they_have_executed() {
    let mut registry = registry(Authority::SelfRelay);
    assert_eq!(registry.reachable_frame(&key(), SlotId(0)), None);
    // Slot 1 runs ahead, slot 2 lags: turns up to the newest less the deepest buffer have
    // run everywhere.
    for seq in 0..20u64 {
        observe_turn_frame(&mut registry, &key(), SlotId(1), seq, GameFrameCount(100 + seq as u32));
        observe_turn_frame(&mut registry, &key(), SlotId(2), seq, GameFrameCount(90 + seq as u32));
    }
    // The newest turn is 19, so turn 13 has run: at frame 113 on the one, 103 on the other.
    assert_eq!(registry.reachable_frame(&key(), SlotId(0)), Some(103));
    assert_eq!(registry.reachable_frame(&key(), SlotId(2)), Some(113));
}

#[test]
fn a_leave_waits_until_it_can_be_scheduled_unless_forced() {
    let mut registry = registry(Authority::SelfRelay);
    assert!(!registry.leave_schedulable(&key(), SlotId(0)));
    assert!(registry.decide_leave(&key(), SlotId(0), LEAVE_REASON_DROPPED, now()).is_none());
    assert!(registry.has_undecided_departure(&key()));
    let forced = decide_abandoned_departures(&mut registry, &key(), now());
    assert_eq!(forced.len(), 1);
    assert_eq!(forced[0].apply_at_frame, 0);
    assert_eq!(forced[0].reason, LEAVE_REASON_DROPPED);
    assert!(!registry.has_undecided_departure(&key()));
    assert!(decide_abandoned_departures(&mut registry, &key(), now()).is_empty());
}

#[test]
fn only_the_authority_decides_leaves_and_a_promoted_one_catches_up() {
    let mut registry = registry(Authority::Peer);
    frames(&mut registry, &[(0, 10), (1, 12), (2, 12)]);
    record_departure(&mut registry, &key(), SlotId(0), stamps(None, None), LEAVE_REASON_DROPPED);
    record_departure(&mut registry, &key(), SlotId(2), stamps(None, None), LEAVE_REASON_LEFT);
    assert!(registry.decide_leave(&key(), SlotId(0), LEAVE_REASON_DROPPED, now()).is_none());
    // A held slot is left for its hold to decide.
    let mut held = OrdSet::new();
    held.insert(SlotId(0));
    let leaves = set_authority(&mut registry, &key(), Authority::SelfRelay, &held, now());
    assert_eq!(leaves.len(), 1);
    assert_eq!((leaves[0].slot, leaves[0].apply_at_frame, leaves[0].reason), (2, 13, LEAVE_REASON_LEFT));
}

#[test]
fn an_observed_leave_stands_and_raises_the_numbering() {
    let mut registry = registry(Authority::Peer);
    frames(&mut registry, &[(0, 10), (1, 12)]);
    let first = leave(0, LEAVE_REASON_LEFT, 9, Some(40), false);
    assert!(registry.observe_leave(&key(), &first, now()));
    assert!(!registry.observe_leave(&key(), &leave(0, LEAVE_REASON_DROPPED, 10, None, false), now()));
    assert_eq!(registry.leave_reconcile(&key()).1, vec![first]);
    assert_eq!(registry.take_notices().len(), 1);
    // What is decided next is numbered above everything observed.
    set_authority(&mut registry, &key(), Authority::SelfRelay, &OrdSet::new(), now());
    let next = registry.decide_leave(&key(), SlotId(1), LEAVE_REASON_LEFT, now()).expect("decided");
    assert_eq!(next.leave_seq, 11);
}

#[test]
fn an_unproven_count_of_a_dropped_player_is_dropped() {
    let unproven = leave(3, LEAVE_REASON_DROPPED, 1, Some(8), false);
    let bare = leave(3, LEAVE_REASON_DROPPED, 1, None, false);
    assert_eq!(normalize_observed_leave(&unproven, true), bare);
    let proven = leave(3, LEAVE_REASON_DROPPED, 1, Some(8), true);
    assert_eq!(normalize_observed_leave(&proven, true), proven);
    assert_eq!(normalize_observed_leave(&proven, false), bare);
    assert_eq!(normalize_observed_leave(&bare, true), bare);
    let left = leave(3, LEAVE_REASON_LEFT, 1, Some(8), false);
    assert_eq!(normalize_observed_leave(&left, false), left);
}

#[test]
fn a_departed_slot_is_not_resurrected_by_its_turns() {
    let mut registry = registry(Authority::SelfRelay);
    frames(&mut registry, &[(0, 10), (1, 12)]);
    record_departure(&mut registry, &key(), SlotId(0), stamps(None, None), LEAVE_REASON_DROPPED);
    assert_eq!(slot_frame(&registry, &key(), SlotId(0)), None);
    frames(&mut registry, &[(0, 11)]);
    assert_eq!(slot_frame(&registry, &key(), SlotId(0)), None);
    assert!(registry.has_departure(&key(), SlotId(0)));
}

#[test]
fn a_reinstated_slot_resumes_where_it_was() {
    let mut registry = registry(Authority::SelfRelay);
    frames(&mut registry, &[(0, 10), (1, 12)]);
    record_departure(&mut registry, &key(), SlotId(0), stamps(Some(11), None), LEAVE_REASON_DROPPED);
    assert!(registry.reinstate_slot(&key(), SlotId(0), now()));
    assert_eq!(slot_frame(&registry, &key(), SlotId(0)), Some(GameFrameCount(11)));
    assert!(!registry.has_departure(&key(), SlotId(0)));
    // A decided leave is final.
    assert!(registry.decide_leave(&key(), SlotId(0), LEAVE_REASON_DROPPED, now()).is_some());
    assert!(!registry.reinstate_slot(&key(), SlotId(0), now()));
}

#[test]
fn the_first_account_of_a_departure_stands() {
    let mut registry = registry(Authority::Peer);
    frames(&mut registry, &[(0, 10)]);
    record_departure(&mut registry, &key(), SlotId(0), stamps(Some(10), Some(20)), LEAVE_REASON_DROPPED);
    let mut second = stamps(Some(30), Some(99));
    second.final_turn_count = Some(31);
    record_departure(&mut registry, &key(), SlotId(0), second, LEAVE_REASON_LEFT);
    let (recorded, decided) = registry.leave_reconcile(&key());
    assert!(decided.is_empty());
    assert_eq!(recorded.len(), 1);
    let (slot, kept, reason, epoch) = &recorded[0];
    assert_eq!((*slot, *reason, *epoch), (SlotId(0), LEAVE_REASON_DROPPED, None));
    assert_eq!(kept.last_frame, Some(GameFrameCount(30)));
    assert_eq!(kept.reachable_frame, Some(20));
    assert_eq!(kept.final_turn_count, Some(31));
}

#[test]
fn a_superseded_connection_never_returns() {
    let mut registry = registry(Authority::SelfRelay);
    frames(&mut registry, &[(0, 10)]);
    assert!(activate_connection_epoch(&mut registry, &key(), SlotId(0), 1, now()));
    assert!(activate_connection_epoch(&mut registry, &key(), SlotId(0), 1, now()));
    assert!(connection_epoch_matches(&registry, &key(), SlotId(0), Some(1)));
    assert!(activate_connection_epoch(&mut registry, &key(), SlotId(0), 2, now()));
    assert!(!activate_connection_epoch(&mut registry, &key(), SlotId(0), 1, now()));
    // The old connection's end is no departure.
    let outcome = record_departure_for_epoch_outcome(
        &mut registry,
        &key(),
        SlotId(0),
        stamps(None, None),
        LEAVE_REASON_DROPPED,
        Some(1),
    );
    assert_eq!(outcome, DepartureRecordOutcome::Rejected);
    assert!(!remove_slot_for_epoch(&mut registry, &key(), SlotId(0), Some(1)));
    assert!(!mark_connection_down(&mut registry, &key(), SlotId(0), Some(1)));
    // The current one's is, and it does not come up again by itself.
    let outcome = record_departure_for_epoch_outcome(
        &mut registry,
        &key(),
        SlotId(0),
        stamps(None, None),
        LEAVE_REASON_DROPPED,
        Some(2),
    );
    assert_eq!(outcome, DepartureRecordOutcome::Pending);
    assert_eq!(departure_epoch(&registry, &key(), SlotId(0)), Some(2));
    assert!(!activate_connection_epoch(&mut registry, &key(), SlotId(0), 3, now()));
}

#[test]
fn a_reconnect_takes_a_hold_and_a_new_connection() {
    let mut registry = registry(Authority::SelfRelay);
    frames(&mut registry, &[(0, 10), (1, 10)]);
    let fresh = ReconnectAdmission::Admitted { reinstated: false };
    assert_eq!(admit_reconnect(&mut registry, &key(), SlotId(0), Some(1), false, now()), (fresh, false));
    let outcome = record_departure_for_epoch_outcome(
        &mut registry,
        &key(),
        SlotId(0),
        stamps(None, None),
        LEAVE_REASON_DROPPED,
        Some(1),
    );
    assert_eq!(outcome, DepartureRecordOutcome::Pending);
    let rejected = ReconnectAdmission::Rejected;
    // Without a hold, or on the connection that went down, nobody comes back.
    assert_eq!(admit_reconnect(&mut registry, &key(), SlotId(0), Some(2), false, now()), (rejected, false));
    assert_eq!(admit_reconnect(&mut registry, &key(), SlotId(0), Some(1), true, now()), (rejected, false));
    let back = ReconnectAdmission::Admitted { reinstated: true };
    assert_eq!(admit_reconnect(&mut registry, &key(), SlotId(0), Some(2), true, now()), (back, true));
    assert!(connection_epoch_matches(&registry, &key(), SlotId(0), Some(2)));
    assert_eq!(slot_frame(&registry, &key(), SlotId(0)), Some(GameFrameCount(10)));
    // A decided leave spends the hold and refuses.
    registry.decide_leave(&key(), SlotId(0), LEAVE_REASON_DROPPED, now()).expect("decided");
    assert_eq!(admit_reconnect(&mut registry, &key(), SlotId(0), Some(3), true, now()), (rejected, true));
    // An unknown session lets anyone in.
    let other = SessionKey { session: SessionId(2), ..key() };
    assert_eq!(admit_reconnect(&mut registry, &other, SlotId(0), Some(3), true, now()), (fresh, true));
}

#[test]
fn a_finalized_drop_carries_its_turn_count() {
    let mut registry = registry(Authority::SelfRelay);
    frames(&mut registry, &[(0, 10), (1, 10)]);
    assert!(activate_connection_epoch(&mut registry, &key(), SlotId(0), 4, now()));
    // A live slot is not finalized.
    assert_eq!(
        finalize_drop(&mut registry, &key(), SlotId(0), Some(4), || Some(1)),
        FinalizeOutcome::RejectedLive
    );
    let outcome = record_departure_for_epoch_outcome(
        &mut registry,
        &key(),
        SlotId(0),
        stamps(None, None),
        LEAVE_REASON_DROPPED,
        Some(4),
    );
    assert_eq!(outcome, DepartureRecordOutcome::Pending);
    // Nor another generation than the one that departed.
    assert_eq!(
        finalize_drop(&mut registry, &key(), SlotId(0), Some(5), || Some(1)),
        FinalizeOutcome::RejectedLive
    );
    // Without a count the slot may still come back.
    assert_eq!(
        finalize_drop(&mut registry, &key(), SlotId(0), Some(4), || None),
        FinalizeOutcome::RejectedNoCursor
    );
    assert_eq!(
        finalize_drop(&mut registry, &key(), SlotId(0), Some(4), || Some(321)),
        FinalizeOutcome::Finalized { final_turn_count: 321 }
    );
    let rejected = ReconnectAdmission::Rejected;
    assert_eq!(admit_reconnect(&mut registry, &key(), SlotId(0), Some(6), true, now()), (rejected, false));
    let decided = registry.decide_leave(&key(), SlotId(0), LEAVE_REASON_DROPPED, now()).expect("decided");
    assert!(decided.finalized);
    assert_eq!(decided.final_turn_count, Some(321));
    // Asking again gives the decided count.
    assert_eq!(
        finalize_drop(&mut registry, &key(), SlotId(0), Some(4), || Some(1)),
        FinalizeOutcome::Finalized { final_turn_count: 321 }
    );
    // An unknown session has no count to give.
    let other = SessionKey { session: SessionId(2), ..key() };
    assert_eq!(
        finalize_drop(&mut registry, &other, SlotId(0), Some(4), || Some(1)),
        FinalizeOutcome::RejectedNoCursor
    );
}

#[test]
fn a_resumed_session_seeds_its_departed_players() {
    let mut registry = new_decision_makers();
    let departed = vec![
        DepartedSlot { slot: SlotId(2), kind: DepartureKind::Dropped, final_turn_count: Some(5), finalized: false },
        DepartedSlot { slot: SlotId(3), kind: DepartureKind::Left, final_turn_count: Some(6), finalized: false },
    ];
    let mut sync = MakerSync::new(BOUNDS, Authority::SelfRelay);
    sync.resumed_departed = Some(&departed);
    let leaves = sync_maker(&mut registry, &key(), sync, now());
    assert_eq!(leaves.len(), 2);
    assert_eq!(
        (leaves[0].slot, leaves[0].reason, leaves[0].apply_at_frame, leaves[0].final_turn_count),
        (2, LEAVE_REASON_DROPPED, 1, None)
    );
    assert_eq!(
        (leaves[1].slot, leaves[1].reason, leaves[1].leave_seq, leaves[1].final_turn_count),
        (3, LEAVE_REASON_LEFT, 2, Some(6))
    );
    assert_eq!(registry.decided_slots(&key()), vec![SlotId(2), SlotId(3)]);
}

#[test]
fn the_close_report_is_claimed_once() {
    let mut registry = registry(Authority::SelfRelay);
    assert!(claim_close_report(&mut registry, &key()));
    assert!(!claim_close_report(&mut registry, &key()));
    reopen_close_report(&mut registry, &key());
    assert!(claim_close_report(&mut registry, &key()));
    let other = SessionKey { session: SessionId(2), ..key() };
    assert!(claim_close_report(&mut registry, &other));
    assert!(claim_close_report(&mut registry, &other));
}

#[test]
fn a_slots_first_valid_result_stands() {
    let mut registry = registry(Authority::SelfRelay);
    frames(&mut registry, &[(0, 10), (1, 12)]);
    record_result(&mut registry, &key(), SlotId(1), Vec::new(), 5);
    record_result(&mut registry, &key(), SlotId(1), vec![0; MAX_GAME_RESULT_PAYLOAD_LEN + 1], 5);
    assert_eq!(result_for(&registry, &key(), SlotId(1)), None);
    record_result(&mut registry, &key(), SlotId(1), vec![1, 2, 3], 6);
    record_result(&mut registry, &key(), SlotId(1), vec![4], 7);
    let kept = result_for(&registry, &key(), SlotId(1)).expect("kept");
    assert_eq!((kept.payload, kept.arrival_ms), (vec![1, 2, 3], 6));
    assert_eq!((kept.session_frame, kept.slot_frame), (Some(10), Some(12)));
    assert_eq!(registry.take_notices().len(), 1);
}

#[test]
fn a_deregistered_session_is_unknown() {
    let mut registry = registry(Authority::SelfRelay);
    assert!(maker_exists(&registry, &key()));
    registry.deregister_maker(&key());
    assert!(!maker_exists(&registry, &key()));
    frames(&mut registry, &[(0, 10)]);
    assert_eq!(slot_frame(&registry, &key(), SlotId(0)), None);
    registry.session_closed(&key());
    assert!(matches!(registry.take_notices().last(), Some(RelayNotice::SessionClosed { .. })));
}

#[test]
fn a_promoted_relay_sends_every_leave_again() {
    let mut registry = registry(Authority::Peer);
    frames(&mut registry, &[(0, 10), (1, 12)]);
    let first = leave(0, LEAVE_REASON_LEFT, 9, None, false);
    assert!(registry.observe_leave(&key(), &first, now()));
    record_departure(&mut registry, &key(), SlotId(1), stamps(None, None), LEAVE_REASON_LEFT);
    let leaves = set_authority(&mut registry, &key(), Authority::SelfRelay, &OrdSet::new(), now());
    assert_eq!(leaves.len(), 2);
    assert_eq!(leaves[0], first);
    assert_eq!((leaves[1].slot, leaves[1].apply_at_frame, leaves[1].leave_seq), (1, 13, 10));
    // Nothing changes where nothing changes.
    assert!(set_authority(&mut registry, &key(), Authority::SelfRelay, &OrdSet::new(), now()).is_empty());
}

#[test]
fn finalized_drops_are_fixed_with_the_session() {
    let mut registry = registry(Authority::SelfRelay);
    assert!(!registry.finalized_drops_enabled(&key()));
    let mut sync = MakerSync::new(BOUNDS, Authority::SelfRelay);
    sync.finalized_drops = true;
    sync_maker(&mut registry, &key(), sync, now());
    assert!(!registry.finalized_drops_enabled(&key()));
}

#[test]
fn a_descriptor_says_who_plays_where() {
    let descriptor = SessionDescriptor {
        bounds: BOUNDS,
        observer_slots: vec![SlotId(3)],
        expected_slots: vec![SlotId(0), SlotId(1), SlotId(0)],
        homed_slots: vec![SlotId(0)],
        resumed: false,
        departed_slots: vec![DepartedSlot {
            slot: SlotId(2),
            kind: DepartureKind::Left,
            final_turn_count: None,
            finalized: false,
        }],
        finalized_drops: true,
    };
    let sync = MakerSync::from_descriptor(&descriptor, Authority::SelfRelay, OrdSet::new());
    assert_eq!(sync.expected_slots.keys(), vec![SlotId(0), SlotId(1)]);
    // Departed players count only where the session is resumed.
    assert!(sync.resumed_departed.is_none());
    let mut registry = new_decision_makers();
    assert!(sync_maker(&mut registry, &key(), sync, now()).is_empty());
    assert!(registry.finalized_drops_enabled(&key()));
    assert!(registry.strictly_homes(&key(), SlotId(0)));
    assert!(!registry.admits_slot(&key(), SlotId(1)));
    let resumed = SessionDescriptor { resumed: true, ..descriptor };
    let sync = MakerSync::from_descriptor(&resumed, Authority::SelfRelay, OrdSet::new());
    assert_eq!(sync_maker(&mut registry, &key(), sync, now()).len(), 1);
}

#[test]
fn a_new_connection_starts_with_clean_conditions() {
    let bounds = BufferBounds { min: 1, max: 10 };
    let mut maker = DecisionMaker::new(key(), bounds, ControlLaw::default(), Authority::Peer, OrdSet::new());
    let report = |epoch: u64, rtt_us: u32| SlotConditions {
        slot: 0,
        rtt_us,
        lost_packets: 0,
        sent_packets: 1,
        connection_epoch: Some(epoch),
    };
    maker.ingest_local_condition(&report(1, 400_000), now());
    assert_eq!(maker.target(), Some(10));
    assert!(maker.activate_connection_epoch(SlotId(0), 2, now()));
    assert_eq!(maker.target(), None);
    // The old connection's conditions no longer count.
    maker.ingest_local_condition(&report(1, 400_000), now());
    assert_eq!(maker.target(), None);
    maker.ingest_local_condition(&report(2, 40_000), now());
    assert_eq!(maker.target(), Some(1));
}

#[test]
fn a_forgotten_slot_is_handed_to_the_delivery_readings() {
    let mut maker = DecisionMaker::new(key(), BOUNDS, ControlLaw::default(), Authority::Peer, OrdSet::new());
    maker.remove_slot(SlotId(4));
    maker.record_departure(SlotId(2), stamps(None, None), LEAVE_REASON_LEFT);
    assert_eq!(maker.delivery_mut().take_forgotten(), vec![SlotId(2), SlotId(4)]);
    assert!(maker.delivery_mut().take_forgotten().is_empty());
}

#[test]
fn a_reinstatement_is_told_once() {
    let mut registry = registry(Authority::SelfRelay);
    frames(&mut registry, &[(0, 10), (1, 10)]);
    let told = std::cell::Cell::new(0);
    let tell = || told.set(told.get() + 1);
    let fresh = ReconnectAdmission::Admitted { reinstated: false };
    assert_eq!(admit_reconnect_with(&mut registry, &key(), SlotId(0), Some(1), true, tell, now()), (fresh, true));
    assert_eq!(told.get(), 0);
    let outcome = record_departure_for_epoch_outcome(
        &mut registry,
        &key(),
        SlotId(0),
        stamps(None, None),
        LEAVE_REASON_DROPPED,
        Some(1),
    );
    assert_eq!(outcome, DepartureRecordOutcome::Pending);
    let rejected = ReconnectAdmission::Rejected;
    assert_eq!(admit_reconnect_with(&mut registry, &key(), SlotId(0), Some(2), false, tell, now()), (rejected, false));
    assert_eq!(told.get(), 0);
    let back = ReconnectAdmission::Admitted { reinstated: true };
    assert_eq!(admit_reconnect_with(&mut registry, &key(), SlotId(0), Some(2), true, tell, now()), (back, true));
    assert_eq!(told.get(), 1);
}
