//! Checksum reports, their comparison, and the rate caps beside them.

use rally_point_consensus::ids::SessionId;
use rally_point_consensus::ids::SessionKey;
use rally_point_consensus::ids::SlotId;
use rally_point_consensus::ids::TenantId;
use rally_point_consensus::maker::sync::parse_sync;
use rally_point_consensus::notice::FlightEvent;
use rally_point_consensus::notice::RelayNotice;
use rally_point_consensus::ops::authority::observe_sync;
use rally_point_consensus::ops::authority::observe_sync_with_generation;
use rally_point_consensus::ops::authority::sync_maker;
use rally_point_consensus::ops::authority::MakerSync;
use rally_point_consensus::ops::sync_coverage::sync_coverage;
use rally_point_consensus::ordmap::OrdMap;
use rally_point_consensus::ordmap::OrdSet;
use rally_point_consensus::registry::new_decision_makers;
use rally_point_consensus::registry::DecisionMakers;
use rally_point_consensus::sync::expected_kind_for_ordinal;
use rally_point_consensus::sync::rate_limit::RateLimitedCounter;
use rally_point_consensus::sync::rate_limit::TokenBucket;
use rally_point_consensus::sync::sync_eval_margin;
use rally_point_consensus::sync::to_word;
use rally_point_consensus::sync::turns::SyncCommand;
use rally_point_consensus::sync::turns::SyncTurn;
use rally_point_consensus::sync::turns::SyncTurns;
use rally_point_consensus::sync::turns::SYNC_TURN_WINDOW;
use rally_point_consensus::time::Duration;
use rally_point_consensus::time::Instant;
use rally_point_consensus::wire::Authority;
use rally_point_consensus::wire::BufferBounds;

const BOUNDS: BufferBounds = BufferBounds { min: 1, max: 6 };

fn key() -> SessionKey {
    SessionKey { tenant: TenantId(String::from("tenant")), session: SessionId(1) }
}

fn session(authority: Authority, bounds: BufferBounds, expected: u8) -> DecisionMakers {
    let mut registry = new_decision_makers();
    let mut sync = MakerSync::new(bounds, authority);
    for slot in 0..expected {
        sync.expected_slots.insert(SlotId(slot));
    }
    sync_maker(&mut registry, &key(), sync, Instant { nanos: 0 });
    registry
}

/// The commands of a turn that reports `value` for generation `ordinal`.
fn report(ordinal: u64, value: u16) -> Vec<u8> {
    let ring = (ordinal % 16) as u8;
    let kind = expected_kind_for_ordinal(ordinal);
    let [high, low] = value.to_be_bytes();
    vec![0x37, ring * 16 + kind, high, low, 0, 0, 0]
}

fn lengths() -> Vec<Option<usize>> {
    vec![Some(7), None, None, None, None, None, None]
}

/// Every player reports generations `0..count`; `value` says what each one reports.
fn play(registry: &mut DecisionMakers, players: u8, count: u64, value: fn(u8, u64) -> u16) {
    for ordinal in 0..count {
        for slot in 0..players {
            let commands = report(ordinal, value(slot, ordinal));
            observe_sync(registry, &key(), SlotId(slot), ordinal, Some(100 + ordinal as u32), &commands, &lengths(), 9);
        }
    }
}

#[test]
fn a_report_is_found_behind_whole_commands() {
    let commands = [0x01, 0xff, 0x37, 0x51, 0xab, 0xcd, 0, 0, 0];
    let lengths = [Some(2), None, Some(7), None, None, None, None, None, None];
    let found = parse_sync(&commands, &lengths).expect("a report");
    assert_eq!((found.ring, found.kind, found.value), (5, 1, [0xab, 0xcd]));
    // An unknown command, a cut one and an empty one all end the search.
    assert!(parse_sync(&commands, &[None; 9]).is_none());
    assert!(parse_sync(&commands, &[Some(10); 9]).is_none());
    assert!(parse_sync(&commands, &[Some(0); 9]).is_none());
    assert!(parse_sync(&[], &[]).is_none());
}

#[test]
fn words_kinds_and_margins() {
    assert_eq!(to_word([0x12, 0x34]), 0x1234);
    assert_eq!(expected_kind_for_ordinal(4), 1);
    assert_eq!(expected_kind_for_ordinal(5), 2);
    assert_eq!(sync_eval_margin(1), 8);
    assert_eq!(sync_eval_margin(6), 8);
    assert_eq!(sync_eval_margin(7), 9);
}

#[test]
fn agreement_is_no_divergence() {
    let mut registry = session(Authority::SelfRelay, BOUNDS, 3);
    play(&mut registry, 3, 40, |_, ordinal| ordinal as u16);
    assert!(registry.take_notices().is_empty());
    let coverage = sync_coverage(&registry, &key()).expect("known");
    assert_eq!(coverage.expected_players, 3);
    assert_eq!(coverage.comparable_slots, 3);
    assert_eq!(coverage.ordered_slots, 3);
    assert_eq!((coverage.waiting_slots, coverage.unavailable_slots), (0, 0));
    assert!(!coverage.dormant);
}

#[test]
fn the_outvoted_slot_is_named_once() {
    let mut registry = session(Authority::SelfRelay, BOUNDS, 3);
    let mut refs = OrdMap::new();
    refs.insert(SlotId(2), String::from("player"));
    registry.set_session_refs(&key(), None, refs);
    play(&mut registry, 3, 40, |slot, ordinal| if slot == 2 && ordinal >= 3 { 9 } else { 1 });
    let notices = registry.take_notices();
    assert_eq!(notices.len(), 1);
    match &notices[0] {
        RelayNotice::Desync(notice) => {
            assert_eq!(notice.sync_ordinal, 3);
            assert_eq!(notice.game_frame, Some(103));
            assert!(!notice.no_majority);
            assert_eq!(notice.detected_at_ms, 9);
            assert_eq!(notice.diverged.len(), 1);
            assert_eq!(notice.diverged[0].slot, SlotId(2));
            assert_eq!(notice.diverged[0].external_ref, Some(String::from("player")));
        }
        other => panic!("{other:?}"),
    }
    let coverage = sync_coverage(&registry, &key()).expect("known");
    assert_eq!((coverage.comparable_slots, coverage.ordered_slots), (2, 3));
}

#[test]
fn without_a_majority_nobody_is_blamed_and_comparison_ends() {
    let mut registry = session(Authority::SelfRelay, BOUNDS, 2);
    play(&mut registry, 2, 40, |slot, ordinal| if ordinal >= 2 { u16::from(slot) } else { 7 });
    let notices = registry.take_notices();
    assert_eq!(notices.len(), 1);
    match &notices[0] {
        RelayNotice::Desync(notice) => {
            assert_eq!(notice.sync_ordinal, 2);
            assert!(notice.no_majority);
            assert!(notice.diverged.is_empty());
        }
        other => panic!("{other:?}"),
    }
    assert!(sync_coverage(&registry, &key()).expect("known").dormant);
}

#[test]
fn only_the_authority_judges() {
    let mut registry = session(Authority::Peer, BOUNDS, 2);
    play(&mut registry, 2, 40, |slot, _| u16::from(slot));
    assert!(registry.take_notices().is_empty());
    let coverage = sync_coverage(&registry, &key()).expect("known");
    assert_eq!((coverage.comparable_slots, coverage.ordered_slots), (0, 2));
}

#[test]
fn an_absurd_buffer_ends_comparison() {
    let mut registry = session(Authority::SelfRelay, BufferBounds { min: 1, max: 32 }, 2);
    play(&mut registry, 2, 60, |slot, _| u16::from(slot));
    assert!(registry.take_notices().is_empty());
    assert!(sync_coverage(&registry, &key()).expect("known").dormant);
}

#[test]
fn observers_are_not_compared() {
    let mut registry = new_decision_makers();
    let mut sync = MakerSync::new(BOUNDS, Authority::SelfRelay);
    sync.observers.insert(SlotId(2));
    sync_maker(&mut registry, &key(), sync, Instant { nanos: 0 });
    play(&mut registry, 3, 40, |slot, _| u16::from(slot == 2));
    assert!(registry.take_notices().is_empty());
    assert_eq!(sync_coverage(&registry, &key()).expect("known").expected_players, 2);
}

#[test]
fn an_origin_that_cannot_be_ordered_is_recorded_once() {
    let mut registry = session(Authority::SelfRelay, BOUNDS, 2);
    // A report tagged with a generation that its ring position contradicts.
    for seq in 0..2u64 {
        let commands = report(1, 5);
        observe_sync_with_generation(
            &mut registry,
            &key(),
            SlotId(0),
            seq,
            None,
            &commands,
            &lengths(),
            Some(2),
            0,
        );
    }
    let events = registry.take_events();
    assert_eq!(events.len(), 1);
    match &events[0].1 {
        FlightEvent::SyncOrderingUnavailable { slot, failure } => {
            assert_eq!(*slot, 0);
            assert_eq!(failure.reason, "generation_initial_anchor");
            assert_eq!((failure.seq, failure.next), (0, 0));
        }
        other => panic!("{other:?}"),
    }
    let coverage = sync_coverage(&registry, &key()).expect("known");
    assert_eq!((coverage.unavailable_slots, coverage.waiting_slots), (1, 1));
}

fn tagged(ring: u8, generation: u64) -> SyncTurn {
    SyncTurn {
        frame: None,
        ordinal: None,
        command: Some(SyncCommand { ring, kind: 1, value: [0, 0] }),
        generation: Some(generation),
        skipped: None,
    }
}

#[test]
fn tagged_generations_fail_for_what_is_wrong_with_them() {
    for (ring, generation, reason) in [
        (3, 2, "generation_ring_mismatch"),
        (15, 31, "generation_jump"),
        (0, 0, "generation_regression"),
    ] {
        let mut turns = SyncTurns::default();
        turns.push(SlotId(0), 0, tagged(1, 1)).unwrap();
        assert_eq!(turns.push(SlotId(0), 1, tagged(ring, generation)).unwrap_err().reason, reason);
        assert!(turns.unavailable(SlotId(0)));
        assert_eq!(turns.failure(SlotId(0)).map(|failure| failure.reason), Some(reason));
        assert!(turns.push(SlotId(0), 2, tagged(1, 1)).unwrap().is_none());
    }
}

#[test]
fn every_doubling_is_worth_a_line() {
    let mut counter = RateLimitedCounter::default();
    let lines: Vec<u64> = (1..=20u64).filter(|_| counter.observe()).collect();
    assert_eq!(lines, vec![1, 2, 4, 8, 16]);
    assert_eq!(counter.count(), 20);
    assert!(counter == 20u64);
    assert!(counter > 19u64);
}

#[test]
fn a_bucket_empties_and_refills() {
    let start = Instant { nanos: 0 };
    let mut bucket = TokenBucket::new(2, Duration::from_millis(500), start);
    assert!(bucket.try_take(start));
    assert!(bucket.try_take(start));
    assert!(!bucket.try_take(start.plus(Duration::from_millis(499))));
    assert!(bucket.try_take(start.plus(Duration::from_millis(500))));
    assert!(!bucket.try_take(start.plus(Duration::from_millis(999))));
    // However long it waits, it holds its burst.
    let much_later = start.plus(Duration::from_secs(100));
    assert!(bucket.try_take(much_later));
    assert!(bucket.try_take(much_later));
    assert!(!bucket.try_take(much_later));
}

#[test]
fn ordered_collections_list_in_order() {
    let mut set = OrdSet::new();
    for id in [5u8, 1, 9, 1] {
        set.insert(SlotId(id));
    }
    assert_eq!(set.keys(), vec![SlotId(1), SlotId(5), SlotId(9)]);
    assert!(!set.insert(SlotId(5)));
    assert!(set.remove(SlotId(5)));
    assert!(!set.remove(SlotId(5)));
    assert_eq!((set.len(), set.contains(SlotId(9))), (2, true));
    let mut map: OrdMap<u64, u64> = OrdMap::new();
    map.insert(7, 70);
    map.insert(3, 30);
    map.insert(7, 71);
    assert_eq!(map.keys(), vec![3, 7]);
    assert_eq!(map.get(7), Some(&71));
    assert_eq!(map.remove(3), Some(30));
    assert_eq!(map.get(3), None);
}

#[test]
fn a_repeated_generation_keeps_its_first_report() {
    let mut registry = session(Authority::SelfRelay, BOUNDS, 2);
    for turn in 0..40u64 {
        for slot in 0..2u8 {
            // Every generation is reported twice; slot 1's repeats say something else.
            let ordinal = turn / 2;
            let value = if slot == 1 && turn % 2 == 1 { 99 } else { 1 };
            let commands = report(ordinal, value);
            observe_sync(&mut registry, &key(), SlotId(slot), turn, None, &commands, &lengths(), 0);
        }
    }
    assert!(registry.take_notices().is_empty());
    assert_eq!(sync_coverage(&registry, &key()).expect("known").comparable_slots, 2);
}

#[test]
fn only_whole_intervals_refill_a_bucket() {
    let start = Instant { nanos: 0 };
    let mut bucket = TokenBucket::new(1, Duration::from_micros(1_500), start);
    assert!(bucket.try_take(start));
    assert!(!bucket.try_take(start.plus(Duration::from_millis(1))));
    assert!(!bucket.try_take(start.plus(Duration::from_micros(1_499))));
    assert!(bucket.try_take(start.plus(Duration::from_micros(1_500))));
    assert!(!bucket.try_take(start.plus(Duration::from_micros(2_999))));
    assert!(bucket.try_take(start.plus(Duration::from_micros(3_000))));
}

#[test]
fn a_bucket_without_an_interval_refills_by_the_millisecond() {
    let start = Instant { nanos: 0 };
    let mut bucket = TokenBucket::new(1, Duration::from_micros(0), start);
    assert!(bucket.try_take(start));
    assert!(!bucket.try_take(start.plus(Duration::from_micros(999))));
    assert!(bucket.try_take(start.plus(Duration::from_millis(1))));
}

#[test]
fn a_kept_turn_far_past_the_gap_may_repeat() {
    let plain = SyncTurn { frame: None, ordinal: None, command: None, generation: None, skipped: None };
    let mut turns = SyncTurns::default();
    for seq in 1..SYNC_TURN_WINDOW {
        assert!(turns.push(SlotId(0), seq, plain).unwrap().is_none());
    }
    assert!(turns.push(SlotId(0), 0, plain).unwrap().is_some());
    assert!(turns.push(SlotId(0), SYNC_TURN_WINDOW + 1, plain).unwrap().is_none());
    assert!(turns.push(SlotId(0), SYNC_TURN_WINDOW + 1, plain).unwrap().is_none());
    assert!(turns.push(SlotId(0), 0, plain).unwrap().is_none());
    assert!(!turns.unavailable(SlotId(0)));
}
