//! The buffer's target, the moves it makes, and the directives that carry them.

use rally_point_consensus::ids::GameFrameCount;
use rally_point_consensus::ids::RelayId;
use rally_point_consensus::ids::SessionId;
use rally_point_consensus::ids::SessionKey;
use rally_point_consensus::ids::SlotId;
use rally_point_consensus::ids::TenantId;
use rally_point_consensus::law::BucketedMax;
use rally_point_consensus::law::ControlLaw;
use rally_point_consensus::law::RttWindow;
use rally_point_consensus::maker::DecisionMaker;
use rally_point_consensus::notice::FlightEvent;
use rally_point_consensus::ops::authority::observe_frame;
use rally_point_consensus::ops::authority::session_e2e;
use rally_point_consensus::ops::authority::set_authority;
use rally_point_consensus::ops::authority::sync_maker;
use rally_point_consensus::ops::authority::MakerSync;
use rally_point_consensus::ops::buffer::active_directive;
use rally_point_consensus::ops::buffer::ingest_local_condition;
use rally_point_consensus::ops::buffer::ingest_local_conditions;
use rally_point_consensus::ops::buffer::ingest_remote_conditions;
use rally_point_consensus::ops::buffer::observe_directive;
use rally_point_consensus::ops::buffer::set_own_relay_id;
use rally_point_consensus::ops::start::mark_session_started;
use rally_point_consensus::ops::start::session_started;
use rally_point_consensus::ordmap::OrdSet;
use rally_point_consensus::registry::new_decision_makers;
use rally_point_consensus::registry::DecisionMakers;
use rally_point_consensus::time::Instant;
use rally_point_consensus::wire::Authority;
use rally_point_consensus::wire::BufferBounds;
use rally_point_consensus::wire::BufferDirective;
use rally_point_consensus::wire::BufferSize;
use rally_point_consensus::wire::LinkConditions;
use rally_point_consensus::wire::SlotConditions;

const BOUNDS: BufferBounds = BufferBounds { min: 1, max: 10 };

fn key() -> SessionKey {
    SessionKey { tenant: TenantId(String::from("tenant")), session: SessionId(7) }
}

fn maker(authority: Authority) -> DecisionMaker {
    DecisionMaker::new(key(), BOUNDS, ControlLaw::default(), authority, OrdSet::new())
}

fn registry(authority: Authority) -> DecisionMakers {
    let mut registry = new_decision_makers();
    assert!(sync_maker(&mut registry, &key(), MakerSync::new(BOUNDS, authority), at(0)).is_empty());
    registry
}

/// The reading of the clock at turn `turn`.
fn at(turn: u64) -> Instant {
    Instant { nanos: 1_000_000_000 + turn * 41_666_000 }
}

fn conditions(slot: u32, rtt_us: u32, lost_packets: u64, sent_packets: u64) -> SlotConditions {
    SlotConditions { slot, rtt_us, lost_packets, sent_packets, connection_epoch: None }
}

fn report(maker: &mut DecisionMaker, turn: u64, slots: Vec<SlotConditions>) {
    maker.ingest_local(&LinkConditions { slots }, at(turn));
}

#[test]
fn the_target_is_the_path_in_whole_turns() {
    let mut maker = maker(Authority::Peer);
    assert_eq!(maker.target(), None);
    report(&mut maker, 0, vec![conditions(0, 150_000, 0, 1), conditions(1, 150_000, 0, 1)]);
    assert_eq!(maker.target(), Some(4));
    // The two slowest decide: half of 300 ms and 150 ms each.
    report(&mut maker, 1, vec![conditions(2, 300_000, 0, 1)]);
    assert_eq!(maker.target(), Some(6));
}

#[test]
fn any_round_trip_is_worth_a_turn() {
    let mut maker = maker(Authority::Peer);
    report(&mut maker, 0, vec![conditions(0, 1, 0, 1)]);
    assert_eq!(maker.target(), Some(1));
    // An unmeasured round trip is none.
    let mut unmeasured = self::maker(Authority::Peer);
    report(&mut unmeasured, 0, vec![conditions(0, 0, 0, 1)]);
    assert_eq!(unmeasured.target(), None);
}

#[test]
fn loss_adds_whole_turns_to_the_path() {
    let mut maker = maker(Authority::Peer);
    report(&mut maker, 0, vec![conditions(0, 150_000, 0, 0), conditions(1, 150_000, 0, 0)]);
    // One packet in ten: 15 ms of risk, a whole turn on top of the path's four.
    report(&mut maker, 1, vec![conditions(0, 150_000, 10, 100), conditions(1, 150_000, 0, 100)]);
    assert_eq!(maker.target(), Some(5));
}

#[test]
fn a_blackout_is_worth_its_length_and_no_more_than_the_cap() {
    let mut maker = maker(Authority::Peer);
    report(&mut maker, 0, vec![conditions(0, 40_000, 0, 0)]);
    assert_eq!(maker.target(), Some(1));
    for turn in 1..=3u64 {
        report(&mut maker, turn, vec![conditions(0, 40_000, turn, turn)]);
    }
    assert_eq!(maker.target(), Some(4));
    for turn in 4..=7u64 {
        report(&mut maker, turn, vec![conditions(0, 40_000, turn, turn)]);
    }
    assert_eq!(maker.target(), Some(5));
}

#[test]
fn an_outage_is_not_priced_as_loss() {
    let mut maker = maker(Authority::Peer);
    report(&mut maker, 0, vec![conditions(0, 40_000, 0, 100)]);
    // A second and more passes; everything sent meanwhile is lost.
    report(&mut maker, 25, vec![conditions(0, 40_000, 50, 150)]);
    assert_eq!(maker.target(), Some(1));
    // The same loss in flowing traffic counts.
    let mut flowing = self::maker(Authority::Peer);
    report(&mut flowing, 0, vec![conditions(0, 40_000, 0, 100)]);
    report(&mut flowing, 20, vec![conditions(0, 40_000, 50, 150)]);
    assert_eq!(flowing.target(), Some(2));
}

#[test]
fn stale_conditions_change_nothing() {
    let mut maker = maker(Authority::Peer);
    report(&mut maker, 0, vec![conditions(0, 40_000, 5, 100)]);
    report(&mut maker, 1, vec![conditions(0, 400_000, 5, 99)]);
    assert_eq!(maker.target(), Some(1));
    report(&mut maker, 2, vec![conditions(0, 400_000, 4, 101)]);
    assert_eq!(maker.target(), Some(1));
    report(&mut maker, 3, vec![conditions(0, 400_000, 5, 101)]);
    assert_eq!(maker.target(), Some(10));
}

#[test]
fn a_round_trip_is_forgotten_after_a_window_of_newer_ones() {
    let mut window = RttWindow::new();
    assert_eq!(window.max(), 0);
    window.push(900);
    window.push(0);
    for _ in 0..31 {
        window.push(100);
        assert_eq!(window.max(), 900);
    }
    window.push(100);
    assert_eq!(window.max(), 100);
}

#[test]
fn a_peak_is_remembered_for_the_lookback() {
    let mut peaks: BucketedMax<8> = BucketedMax::new();
    peaks.observe(100, 9, 10);
    peaks.observe(120, 2, 10);
    assert_eq!(peaks.max_over_last(8), 9);
    assert_eq!(peaks.max_over_last(3), 9);
    assert_eq!(peaks.max_over_last(2), 2);
    peaks.observe(170, 1, 10);
    assert_eq!(peaks.max_over_last(8), 9);
    peaks.observe(180, 1, 10);
    assert_eq!(peaks.max_over_last(8), 2);
    peaks.observe(1_000, 3, 10);
    assert_eq!(peaks.max_over_last(8), 3);
}

#[test]
fn the_session_frame_is_the_slowest_slots() {
    let mut maker = maker(Authority::SelfRelay);
    assert_eq!(maker.session_frame(), None);
    maker.observe_frame(SlotId(0), GameFrameCount(100));
    maker.observe_frame(SlotId(1), GameFrameCount(u32::MAX));
    assert_eq!(maker.session_frame(), Some(GameFrameCount(100)));
    maker.observe_frame(SlotId(0), GameFrameCount(90));
    assert_eq!(maker.session_frame(), Some(GameFrameCount(100)));
    maker.observe_frame(SlotId(0), GameFrameCount(101));
    assert_eq!(maker.session_frame(), Some(GameFrameCount(101)));
}

#[test]
fn a_frame_regression_is_reported_once() {
    let mut maker = maker(Authority::SelfRelay);
    assert!(maker.observe_turn_frame(SlotId(0), 10, GameFrameCount(50)).is_none());
    // An older turn with an older stamp is only late.
    assert!(maker.observe_turn_frame(SlotId(0), 9, GameFrameCount(49)).is_none());
    let regression = maker.observe_turn_frame(SlotId(0), 11, GameFrameCount(40)).expect("reported");
    assert_eq!(regression.prior_frame, 50);
    assert!(maker.observe_turn_frame(SlotId(0), 12, GameFrameCount(30)).is_none());
    assert_eq!(maker.slot_frame(SlotId(0)), Some(GameFrameCount(50)));
}

#[test]
fn a_raise_is_immediate_and_applies_ahead_of_the_session() {
    let mut registry = registry(Authority::SelfRelay);
    for slot in 0..2 {
        observe_frame(&mut registry, &key(), SlotId(slot), GameFrameCount(100));
    }
    set_own_relay_id(&mut registry, &key(), RelayId(3));
    let slots = vec![conditions(0, 150_000, 0, 1), conditions(1, 150_000, 0, 1)];
    let decision = ingest_local_conditions(&mut registry, &key(), &LinkConditions { slots }, at(0)).expect("a raise");
    assert_eq!(decision.buffer, BufferSize(4));
    assert_eq!(decision.applied_frame, GameFrameCount(100 + 4 + 3));
    let directive = BufferDirective {
        buffer_turns: 4,
        apply_at_frame: 107,
        decision_seq: 1,
        authority_relay_id: Some(3),
    };
    assert_eq!(active_directive(&mut registry, &key()), Some(directive));
    let events = registry.take_events();
    assert_eq!(events.len(), 1);
    match &events[0].1 {
        FlightEvent::BufferDirective { buffer_turns, apply_frame, decision_seq, inputs } => {
            assert_eq!((*buffer_turns, *apply_frame, *decision_seq), (4, 107, 1));
            let inputs = inputs.as_ref().expect("what led to it");
            assert_eq!(inputs.path_us, 150_000);
            assert_eq!(inputs.law_target, 4);
            assert_eq!(inputs.eff_rtts.len(), 2);
        }
        other => panic!("{other:?}"),
    }
    assert!(registry.take_events().is_empty());
    // The directive rides until the whole session is there.
    observe_frame(&mut registry, &key(), SlotId(0), GameFrameCount(107));
    assert_eq!(active_directive(&mut registry, &key()), Some(directive));
    observe_frame(&mut registry, &key(), SlotId(1), GameFrameCount(107));
    assert_eq!(active_directive(&mut registry, &key()), None);
    assert_eq!(active_directive(&mut registry, &key()), None);
}

#[test]
fn the_first_directive_is_sent_even_where_nothing_changes() {
    let mut registry = registry(Authority::SelfRelay);
    let first = conditions(0, 30_000, 0, 1);
    assert!(ingest_local_condition(&mut registry, &key(), &first, at(0)).is_none());
    observe_frame(&mut registry, &key(), SlotId(0), GameFrameCount(5));
    let second = conditions(0, 30_000, 0, 2);
    let decision = ingest_local_condition(&mut registry, &key(), &second, at(1)).expect("announced");
    assert_eq!(decision.buffer, BufferSize(1));
    assert_eq!(decision.applied_frame, GameFrameCount(5 + 1 + 3));
    let third = conditions(0, 30_000, 0, 3);
    assert!(ingest_local_condition(&mut registry, &key(), &third, at(2)).is_none());
}

#[test]
fn a_mesh_hop_counts_toward_a_remote_slots_round_trip() {
    let mut registry = registry(Authority::SelfRelay);
    for slot in 0..2 {
        observe_frame(&mut registry, &key(), SlotId(slot), GameFrameCount(10));
    }
    let home = vec![conditions(0, 40_000, 0, 1)];
    ingest_local_conditions(&mut registry, &key(), &LinkConditions { slots: home }, at(0));
    let remote = vec![conditions(1, 40_000, 0, 1)];
    let decision =
        ingest_remote_conditions(&mut registry, &key(), &LinkConditions { slots: remote }, 100_000, at(0)).expect("a raise");
    // (40 ms + 140 ms) / 2 is 90 ms: three turns.
    assert_eq!(decision.buffer, BufferSize(3));
}

#[test]
fn decisions_stop_at_what_the_game_takes() {
    let mut registry = new_decision_makers();
    let wide = BufferBounds { min: 1, max: 30 };
    sync_maker(&mut registry, &key(), MakerSync::new(wide, Authority::SelfRelay), at(0));
    observe_frame(&mut registry, &key(), SlotId(0), GameFrameCount(10));
    let slow = conditions(0, 9_000_000, 0, 1);
    let decision = ingest_local_condition(&mut registry, &key(), &slow, at(0)).expect("a raise");
    assert_eq!(decision.buffer, BufferSize(10));
}

#[test]
fn a_shrink_waits_for_the_lookback_and_the_dwell() {
    let mut maker = maker(Authority::SelfRelay);
    let mut sent: u64 = 0;
    let mut step = |maker: &mut DecisionMaker, frame: u32, rtt_us: u32| {
        sent += 1;
        maker.observe_frame(SlotId(0), GameFrameCount(frame));
        maker.ingest_local(&LinkConditions { slots: vec![conditions(0, rtt_us, 0, sent)] }, at(u64::from(frame)));
        maker.buffer().0
    };
    assert_eq!(step(&mut maker, 0, 400_000), 10);
    let mut shrank = None;
    for frame in 1..900u32 {
        let depth = step(&mut maker, frame, 100_000);
        if shrank.is_none() && depth < 10 {
            shrank = Some((frame, depth));
        }
    }
    // The last high target is seen at frame 31; eight buckets of 75 turns see it out, and
    // a step is two turns.
    let (frame, depth) = shrank.expect("the buffer comes down");
    assert_eq!(depth, 8);
    assert_eq!(frame, 600);
    // The next steps are a dwell apart.
    assert_eq!(maker.buffer().0, 4);
}

#[test]
fn only_the_authority_decides_and_a_demoted_one_falls_silent() {
    let mut registry = registry(Authority::Peer);
    observe_frame(&mut registry, &key(), SlotId(0), GameFrameCount(10));
    let slow = conditions(0, 200_000, 0, 1);
    assert!(ingest_local_condition(&mut registry, &key(), &slow, at(0)).is_none());
    assert!(active_directive(&mut registry, &key()).is_none());
    let none = OrdSet::new();
    assert!(set_authority(&mut registry, &key(), Authority::SelfRelay, &none, at(1)).is_empty());
    let slower = conditions(0, 200_000, 0, 2);
    assert!(ingest_local_condition(&mut registry, &key(), &slower, at(1)).is_some());
    assert!(active_directive(&mut registry, &key()).is_some());
    assert!(set_authority(&mut registry, &key(), Authority::Peer, &none, at(2)).is_empty());
    assert!(active_directive(&mut registry, &key()).is_none());
}

fn directive(decision_seq: u32, relay: Option<u64>, buffer_turns: u32) -> BufferDirective {
    BufferDirective { buffer_turns, apply_at_frame: 0, decision_seq, authority_relay_id: relay }
}

#[test]
fn directives_are_ordered_by_number_and_then_by_relay() {
    let mut maker = maker(Authority::Peer);
    maker.observe_directive(&directive(5, Some(2), 6));
    assert_eq!(maker.buffer(), BufferSize(6));
    maker.observe_directive(&directive(4, Some(9), 7));
    maker.observe_directive(&directive(5, Some(1), 7));
    maker.observe_directive(&directive(5, None, 7));
    maker.observe_directive(&directive(5, Some(2), 7));
    assert_eq!(maker.buffer(), BufferSize(6));
    maker.observe_directive(&directive(5, Some(3), 8));
    assert_eq!(maker.buffer(), BufferSize(8));
    maker.observe_directive(&directive(6, None, 2));
    assert_eq!(maker.buffer(), BufferSize(2));
    // The other way round ends the same.
    let mut other = self::maker(Authority::Peer);
    other.observe_directive(&directive(6, None, 2));
    other.observe_directive(&directive(5, Some(3), 8));
    assert_eq!(other.buffer(), BufferSize(2));
}

#[test]
fn a_promoted_relay_numbers_above_what_it_observed() {
    let mut registry = registry(Authority::Peer);
    observe_directive(&mut registry, &key(), &directive(41, Some(2), 6));
    observe_frame(&mut registry, &key(), SlotId(0), GameFrameCount(10));
    assert!(set_authority(&mut registry, &key(), Authority::SelfRelay, &OrdSet::new(), at(0)).is_empty());
    let slow = conditions(0, 300_000, 0, 1);
    assert!(ingest_local_condition(&mut registry, &key(), &slow, at(0)).is_some());
    let next = active_directive(&mut registry, &key()).expect("queued");
    assert_eq!(next.decision_seq, 42);
    assert_eq!(next.buffer_turns, 8);
}

#[test]
fn an_over_ceiling_directive_is_recorded_once() {
    let mut registry = registry(Authority::Peer);
    observe_directive(&mut registry, &key(), &directive(1, Some(2), 40));
    observe_directive(&mut registry, &key(), &directive(1, Some(2), 40));
    let events = registry.take_events();
    assert_eq!(events.len(), 1);
    assert!(matches!(
        events[0].1,
        FlightEvent::OverCeilingDirectiveForwarded { buffer_turns: 40, decision_seq: 1 }
    ));
    observe_directive(&mut registry, &key(), &directive(2, Some(2), 10));
    assert!(registry.take_events().is_empty());
}

#[test]
fn a_delivery_cushion_raises_the_target() {
    let mut maker = maker(Authority::SelfRelay);
    maker.observe_frame(SlotId(0), GameFrameCount(10));
    maker.delivery_mut().publish(2, Some(5), Some(3));
    assert_eq!(maker.delivery_view(), (Some(5), Some(3)));
    report(&mut maker, 0, vec![conditions(0, 100_000, 0, 1)]);
    assert_eq!(maker.target(), Some(3));
    assert_eq!(maker.buffer(), BufferSize(5));
}

#[test]
fn sessions_are_apart() {
    let mut registry = registry(Authority::SelfRelay);
    let other = SessionKey { session: SessionId(8), ..key() };
    sync_maker(&mut registry, &other, MakerSync::new(BOUNDS, Authority::SelfRelay), at(0));
    observe_frame(&mut registry, &key(), SlotId(0), GameFrameCount(10));
    let slow = conditions(0, 200_000, 0, 1);
    assert!(ingest_local_condition(&mut registry, &key(), &slow, at(0)).is_some());
    assert!(active_directive(&mut registry, &key()).is_some());
    assert!(active_directive(&mut registry, &other).is_none());
    let unknown = SessionKey { tenant: TenantId(String::from("stranger")), session: SessionId(7) };
    assert!(ingest_local_condition(&mut registry, &unknown, &slow, at(0)).is_none());
}

#[test]
fn losses_declared_after_an_outage_are_put_down_to_it() {
    let mut maker = maker(Authority::Peer);
    report(&mut maker, 0, vec![conditions(0, 40_000, 0, 100)]);
    // Twenty packets went out into the outage, none declared lost yet.
    report(&mut maker, 25, vec![conditions(0, 40_000, 0, 120)]);
    // They are declared as traffic resumes, and count for nothing.
    report(&mut maker, 26, vec![conditions(0, 40_000, 20, 130)]);
    assert_eq!(maker.target(), Some(1));
    // What is lost beyond them counts: eight of the eighteen sent since.
    report(&mut maker, 27, vec![conditions(0, 40_000, 28, 138)]);
    assert_eq!(maker.target(), Some(2));
}

#[test]
fn the_latch_only_tells_of_disagreement() {
    let mut maker = maker(Authority::Peer);
    assert!(!maker.reconcile_finalized_drops(false));
    maker.latch_finalized_drops(true);
    assert!(maker.reconcile_finalized_drops(false));
    assert!(!maker.reconcile_finalized_drops(true));
}

#[test]
fn delivery_readings_are_of_known_sessions() {
    let mut registry = registry(Authority::SelfRelay);
    assert_eq!(session_e2e(&registry, &key()), (None, None));
    mark_session_started(&mut registry, &key(), at(0));
    assert!(session_started(&registry, &key()));
    let unknown = SessionKey { session: SessionId(99), ..key() };
    assert_eq!(session_e2e(&registry, &unknown), (None, None));
    assert!(!session_started(&registry, &unknown));
}

#[test]
fn a_mesh_hop_alone_is_no_measurement() {
    let mut maker = maker(Authority::Peer);
    maker.ingest_remote(&LinkConditions { slots: vec![conditions(0, 0, 0, 0)] }, 50_000, at(0));
    assert_eq!(maker.target(), None);
    // Once any link is measured, the hop counts toward its slot's distance.
    report(&mut maker, 0, vec![conditions(1, 50_000, 0, 1)]);
    assert_eq!(maker.target(), Some(2));
    // And so does it where the only measured link is the remote one.
    let mut remote = self::maker(Authority::Peer);
    remote.ingest_remote(&LinkConditions { slots: vec![conditions(0, 10_000, 0, 1)] }, 50_000, at(0));
    assert_eq!(remote.target(), Some(2));
}

#[test]
fn a_mesh_hop_alone_moves_no_buffer() {
    let mut registry = registry(Authority::SelfRelay);
    observe_frame(&mut registry, &key(), SlotId(0), GameFrameCount(10));
    let unmeasured = LinkConditions { slots: vec![conditions(0, 0, 0, 0)] };
    let first = ingest_remote_conditions(&mut registry, &key(), &unmeasured, 200_000, at(0)).expect("announced");
    assert_eq!(first.buffer, BufferSize(1));
    let again = LinkConditions { slots: vec![conditions(0, 0, 0, 1)] };
    assert!(ingest_remote_conditions(&mut registry, &key(), &again, 200_000, at(1)).is_none());
}

#[test]
fn peaks_are_kept_in_any_number_of_buckets() {
    let mut one: BucketedMax<1> = BucketedMax::new();
    one.observe(0, 5, 10);
    one.observe(9, 3, 10);
    assert_eq!(one.max_over_last(4), 5);
    one.observe(10, 2, 10);
    assert_eq!(one.max_over_last(4), 2);
    let mut many: BucketedMax<5000> = BucketedMax::new();
    many.observe(0, 5, 1);
    many.observe(4_999, 1, 1);
    assert_eq!(many.max_over_last(5_000), 5);
    assert_eq!(many.max_over_last(4_999), 1);
    let none: BucketedMax<0> = BucketedMax::new();
    assert_eq!(none.max_over_last(3), 0);
}
