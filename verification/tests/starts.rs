//! The start of a session, its region labels, and the silence watch.

use rally_point_consensus::ids::GameFrameCount;
use rally_point_consensus::ids::SessionId;
use rally_point_consensus::ids::SessionKey;
use rally_point_consensus::ids::SlotId;
use rally_point_consensus::ids::TenantId;
use rally_point_consensus::notice::RelayNotice;
use rally_point_consensus::ops::authority::observe_frame;
use rally_point_consensus::ops::authority::sync_maker;
use rally_point_consensus::ops::authority::MakerSync;
use rally_point_consensus::ops::buffer::ingest_local_condition;
use rally_point_consensus::ops::buffer::ingest_remote_conditions;
use rally_point_consensus::ops::departure::activate_connection_epoch;
use rally_point_consensus::ops::departure::admit_reconnect;
use rally_point_consensus::ops::departure::remove_slot_for_epoch;
use rally_point_consensus::ops::silence::claim_silent_slots;
use rally_point_consensus::ops::silence::note_forward_advance;
use rally_point_consensus::ops::silence::retained_load_state;
use rally_point_consensus::ops::silence::retained_load_states;
use rally_point_consensus::ops::start::adopt_session_start;
use rally_point_consensus::ops::start::commanded_phase_delay;
use rally_point_consensus::ops::start::ingest_arrival_phase;
use rally_point_consensus::ops::start::maybe_release_region_labels;
use rally_point_consensus::ops::start::note_phase_applied;
use rally_point_consensus::ops::start::note_slot_present;
use rally_point_consensus::ops::start::record_peer_slot_started;
use rally_point_consensus::ops::start::record_slot_connected;
use rally_point_consensus::ops::start::record_slot_started;
use rally_point_consensus::ops::start::reevaluate_session_start;
use rally_point_consensus::ops::start::released_region_labels;
use rally_point_consensus::ops::start::session_initial_buffer_turns;
use rally_point_consensus::ops::start::session_started;
use rally_point_consensus::ops::start::set_region_labels;
use rally_point_consensus::ops::start::set_session_shape;
use rally_point_consensus::ops::start::slot_has_started;
use rally_point_consensus::ops::start::started_home_slots;
use rally_point_consensus::ops::start::started_session_slot_count;
use rally_point_consensus::ordmap::OrdSet;
use rally_point_consensus::registry::new_decision_makers;
use rally_point_consensus::registry::new_decision_makers_with_region_delay;
use rally_point_consensus::registry::DecisionMakers;
use rally_point_consensus::slot::ReconnectAdmission;
use rally_point_consensus::time::Duration;
use rally_point_consensus::time::Instant;
use rally_point_consensus::wire::Authority;
use rally_point_consensus::wire::BufferBounds;
use rally_point_consensus::wire::LinkConditions;
use rally_point_consensus::wire::RegionLabel;
use rally_point_consensus::wire::SlotConditions;
use rally_point_consensus::wire::LEAVE_REASON_LEFT;

const BOUNDS: BufferBounds = BufferBounds { min: 2, max: 8 };

fn key() -> SessionKey {
    SessionKey { tenant: TenantId(String::from("tenant")), session: SessionId(1) }
}

fn at(secs: u64) -> Instant {
    Instant { nanos: (100 + secs) * 1_000_000_000 }
}

fn slots(ids: &[u8]) -> OrdSet<SlotId> {
    let mut set = OrdSet::new();
    for &id in ids {
        set.insert(SlotId(id));
    }
    set
}

fn expecting(registry: &mut DecisionMakers, ids: &[u8], authority: Authority) {
    let mut sync = MakerSync::new(BOUNDS, authority);
    sync.expected_slots = slots(ids);
    sync.homed_slots = slots(ids);
    sync_maker(registry, &key(), sync, at(0));
}

fn session(ids: &[u8]) -> DecisionMakers {
    let mut registry = new_decision_makers();
    expecting(&mut registry, ids, Authority::SelfRelay);
    registry
}

fn measure(registry: &mut DecisionMakers, slot: u8, rtt_us: u32) {
    let conditions = SlotConditions {
        slot: u32::from(slot),
        rtt_us,
        lost_packets: 0,
        sent_packets: 1,
        connection_epoch: None,
    };
    ingest_local_condition(registry, &key(), &conditions, at(0));
}

#[test]
fn a_session_starts_once_with_everyone_there() {
    let mut registry = session(&[0, 1]);
    registry.set_session_refs(&key(), Some(String::from("game")), rally_point_consensus::ordmap::OrdMap::new());
    assert!(!note_slot_present(&mut registry, &key(), SlotId(0), at(1), 10));
    assert!(!session_started(&registry, &key()));
    assert_eq!(started_session_slot_count(&registry, &key()), None);
    assert!(note_slot_present(&mut registry, &key(), SlotId(1), at(2), 20));
    assert!(!note_slot_present(&mut registry, &key(), SlotId(1), at(3), 30));
    assert!(!reevaluate_session_start(&mut registry, &key(), at(4), 40));
    assert!(session_started(&registry, &key()));
    assert_eq!(started_session_slot_count(&registry, &key()), Some(2));
    assert_eq!(session_initial_buffer_turns(&registry, &key()), Some(2));
    let notices = registry.take_notices();
    assert_eq!(notices.len(), 1);
    match &notices[0] {
        RelayNotice::SessionStarted(notice) => {
            assert_eq!(notice.started_at_ms, 20);
            assert_eq!(notice.initial_buffer_turns, Some(2));
            assert_eq!(notice.external_id, Some(String::from("game")));
        }
        other => panic!("{other:?}"),
    }
    assert_eq!(retained_load_state(&registry, &key()).started_at_ms, Some(20));
}

#[test]
fn a_smaller_roster_may_start_the_session() {
    let mut registry = session(&[0, 1, 2]);
    assert!(!note_slot_present(&mut registry, &key(), SlotId(0), at(1), 10));
    expecting(&mut registry, &[0], Authority::SelfRelay);
    assert!(reevaluate_session_start(&mut registry, &key(), at(2), 20));
}

#[test]
fn the_initial_depth_follows_what_is_measured() {
    let mut registry = session(&[0, 1]);
    measure(&mut registry, 0, 150_000);
    measure(&mut registry, 1, 150_000);
    note_slot_present(&mut registry, &key(), SlotId(0), at(1), 10);
    assert!(note_slot_present(&mut registry, &key(), SlotId(1), at(1), 10));
    assert_eq!(session_initial_buffer_turns(&registry, &key()), Some(4));
}

#[test]
fn the_initial_depth_falls_back_on_the_hint() {
    // 200 ms are five turns; several relays add one.
    for (single_relay, depth) in [(true, 5), (false, 6)] {
        let mut registry = session(&[0]);
        set_session_shape(&mut registry, &key(), Some(200), single_relay);
        assert!(note_slot_present(&mut registry, &key(), SlotId(0), at(1), 10));
        assert_eq!(session_initial_buffer_turns(&registry, &key()), Some(depth));
    }
    // A hint past the policy is cut.
    let mut registry = session(&[0]);
    set_session_shape(&mut registry, &key(), Some(60_000), true);
    assert!(note_slot_present(&mut registry, &key(), SlotId(0), at(1), 10));
    assert_eq!(session_initial_buffer_turns(&registry, &key()), Some(8));
}

#[test]
fn a_peer_adopts_the_start() {
    let mut registry = new_decision_makers();
    expecting(&mut registry, &[0], Authority::Peer);
    assert!(!note_slot_present(&mut registry, &key(), SlotId(0), at(1), 10));
    adopt_session_start(&mut registry, &key(), Some(6), at(2), 20);
    assert!(session_started(&registry, &key()));
    assert_eq!(session_initial_buffer_turns(&registry, &key()), Some(6));
    adopt_session_start(&mut registry, &key(), None, at(3), 30);
    assert_eq!(retained_load_state(&registry, &key()).started_at_ms, Some(20));
}

#[test]
fn slots_connect_and_start() {
    let mut registry = session(&[0, 1]);
    record_slot_connected(&mut registry, &key(), SlotId(1), true, 5);
    observe_frame(&mut registry, &key(), SlotId(1), GameFrameCount(9));
    record_slot_started(&mut registry, &key(), SlotId(1), 6);
    record_peer_slot_started(&mut registry, &key(), SlotId(0));
    assert!(slot_has_started(&registry, &key(), SlotId(0)));
    assert!(slot_has_started(&registry, &key(), SlotId(1)));
    assert!(!slot_has_started(&registry, &key(), SlotId(2)));
    assert_eq!(started_home_slots(&registry, &key()), vec![SlotId(1)]);
    let notices = registry.take_notices();
    assert_eq!(notices.len(), 2);
    assert!(matches!(&notices[0], RelayNotice::SlotConnected(n) if n.resumed && n.connected_at_ms == 5));
    assert!(matches!(&notices[1], RelayNotice::SlotStarted(n) if n.slot_frame == Some(9) && n.session_frame == Some(9)));
    let states = retained_load_states(&registry);
    assert_eq!(states.len(), 1);
    assert_eq!(states[0].0, key());
    assert_eq!(states[0].1.ever_connected, vec![SlotId(1)]);
    assert_eq!(states[0].1.started, vec![SlotId(1)]);
}

fn labels(text: &str) -> Vec<RegionLabel> {
    vec![RegionLabel { relay_id: 0, label: String::from(text) }]
}

#[test]
fn region_labels_wait_out_the_delay() {
    let mut registry = new_decision_makers_with_region_delay(Duration::from_secs(10));
    expecting(&mut registry, &[0], Authority::SelfRelay);
    assert_eq!(set_region_labels(&mut registry, &key(), labels("north")), None);
    assert_eq!(maybe_release_region_labels(&mut registry, &key(), at(60)), None);
    assert!(note_slot_present(&mut registry, &key(), SlotId(0), at(60), 1));
    assert_eq!(maybe_release_region_labels(&mut registry, &key(), at(69)), None);
    assert_eq!(released_region_labels(&registry, &key()), None);
    assert_eq!(maybe_release_region_labels(&mut registry, &key(), at(70)), Some(labels("north")));
    // Once: afterwards only a change is handed out.
    assert_eq!(maybe_release_region_labels(&mut registry, &key(), at(71)), None);
    assert_eq!(set_region_labels(&mut registry, &key(), labels("north")), None);
    assert_eq!(set_region_labels(&mut registry, &key(), labels("south")), Some(labels("south")));
    assert_eq!(released_region_labels(&registry, &key()), Some(labels("south")));
}

/// A running three-player session whose turns stopped at the given seconds.
fn stalled(stops: &[(u8, u64)]) -> DecisionMakers {
    let ids: Vec<u8> = stops.iter().map(|&(slot, _)| slot).collect();
    let mut registry = session(&ids);
    for &(slot, stop) in stops {
        assert!(activate_connection_epoch(&mut registry, &key(), SlotId(slot), 1, at(0)));
        note_slot_present(&mut registry, &key(), SlotId(slot), at(1), 1);
        record_slot_started(&mut registry, &key(), SlotId(slot), 1);
        observe_frame(&mut registry, &key(), SlotId(slot), GameFrameCount(5));
        note_forward_advance(&mut registry, &key(), SlotId(slot), at(stop));
    }
    registry
}

#[test]
fn the_slot_that_stopped_first_is_claimed_once() {
    let mut registry = stalled(&[(0, 20), (1, 17), (2, 21)]);
    let window = Duration::from_secs(10);
    // Somebody still moved within the window.
    assert!(claim_silent_slots(&mut registry, at(30), window).is_empty());
    let claimed = claim_silent_slots(&mut registry, at(31), window);
    assert_eq!(claimed.len(), 1);
    assert_eq!(claimed[0].0, key());
    assert_eq!(claimed[0].1.slot, SlotId(1));
    assert_eq!(claimed[0].1.silent_for, Duration::from_secs(14));
    assert_eq!(claimed[0].1.lead, Duration::from_secs(3));
    assert!(claim_silent_slots(&mut registry, at(32), window).is_empty());
    // Whoever was evicted stays out, with or without a hold.
    let answer = admit_reconnect(&mut registry, &key(), SlotId(1), Some(2), true, at(33));
    assert_eq!(answer, (ReconnectAdmission::Rejected, false));
}

#[test]
fn a_tie_names_nobody() {
    let mut registry = stalled(&[(0, 17), (1, 17), (2, 21)]);
    assert!(claim_silent_slots(&mut registry, at(60), Duration::from_secs(10)).is_empty());
}

#[test]
fn phases_are_followed_only_once_started() {
    let mut registry = session(&[0, 1]);
    assert!(ingest_arrival_phase(&mut registry, &key(), SlotId(0), 1, at(0)).is_empty());
    note_slot_present(&mut registry, &key(), SlotId(0), at(0), 1);
    assert!(note_slot_present(&mut registry, &key(), SlotId(1), at(0), 1));
    let mut issued = Vec::new();
    for seq in 0..400u64 {
        let turn = at(1).plus(Duration::from_micros(seq * 41_666));
        issued.extend(ingest_arrival_phase(&mut registry, &key(), SlotId(0), seq, turn));
        let late = turn.plus(Duration::from_millis(20));
        issued.extend(ingest_arrival_phase(&mut registry, &key(), SlotId(1), seq, late));
    }
    assert_eq!(issued, vec![(SlotId(0), 8_000)]);
    assert_eq!(commanded_phase_delay(&registry, &key(), SlotId(0)), Some(8_000));
    assert_eq!(commanded_phase_delay(&registry, &key(), SlotId(1)), None);
    note_phase_applied(&mut registry, &key(), SlotId(0), 8_000, at(20));
}

#[test]
fn a_mesh_hop_does_not_stand_in_for_the_hint() {
    let mut registry = session(&[0]);
    set_session_shape(&mut registry, &key(), Some(100), false);
    let unmeasured = SlotConditions {
        slot: 0,
        rtt_us: 0,
        lost_packets: 0,
        sent_packets: 0,
        connection_epoch: None,
    };
    ingest_remote_conditions(&mut registry, &key(), &LinkConditions { slots: vec![unmeasured] }, 300_000, at(0));
    assert!(note_slot_present(&mut registry, &key(), SlotId(0), at(1), 10));
    // 100 ms are three turns, and several relays add one.
    assert_eq!(session_initial_buffer_turns(&registry, &key()), Some(4));
}

#[test]
fn the_load_state_is_what_was_noted() {
    let mut registry = session(&[0, 1, 2]);
    record_slot_connected(&mut registry, &key(), SlotId(2), false, 5);
    record_slot_connected(&mut registry, &key(), SlotId(0), false, 6);
    record_slot_connected(&mut registry, &key(), SlotId(2), true, 7);
    record_slot_started(&mut registry, &key(), SlotId(2), 8);
    registry.decide_leave(&key(), SlotId(2), LEAVE_REASON_LEFT, at(1));
    adopt_session_start(&mut registry, &key(), None, at(2), 20);
    adopt_session_start(&mut registry, &key(), Some(3), at(3), 30);
    let state = retained_load_state(&registry, &key());
    assert_eq!(state.ever_connected, vec![SlotId(0), SlotId(2)]);
    assert_eq!(state.started, vec![SlotId(2)]);
    assert_eq!(state.started_at_ms, Some(20));
}

#[test]
fn a_commanded_delay_outlives_the_slot() {
    let mut registry = session(&[0, 1]);
    note_slot_present(&mut registry, &key(), SlotId(0), at(0), 1);
    assert!(note_slot_present(&mut registry, &key(), SlotId(1), at(0), 1));
    let mut issued = Vec::new();
    let mut feed = |registry: &mut DecisionMakers, turns: std::ops::Range<u64>| {
        for seq in turns {
            let turn = at(1).plus(Duration::from_micros(seq * 41_666));
            issued.extend(ingest_arrival_phase(registry, &key(), SlotId(0), seq, turn));
            let late = turn.plus(Duration::from_millis(20));
            issued.extend(ingest_arrival_phase(registry, &key(), SlotId(1), seq, late));
        }
        issued.len()
    };
    assert_eq!(feed(&mut registry, 0..400), 1);
    // Neither a wrong echo nor the slot's removal releases it or changes its delay.
    note_phase_applied(&mut registry, &key(), SlotId(0), 7_999, at(20));
    assert!(remove_slot_for_epoch(&mut registry, &key(), SlotId(0), None));
    assert_eq!(feed(&mut registry, 400..600), 1);
    assert_eq!(commanded_phase_delay(&registry, &key(), SlotId(0)), Some(8_000));
    // The matching one does.
    note_phase_applied(&mut registry, &key(), SlotId(0), 8_000, at(1).plus(Duration::from_micros(600 * 41_666)));
    assert_eq!(feed(&mut registry, 600..1_000), 2);
    assert_eq!(commanded_phase_delay(&registry, &key(), SlotId(0)), Some(16_000));
}
