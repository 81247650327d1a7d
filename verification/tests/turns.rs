//! Per-origin turn ordering for the desync comparator.

use rally_point_consensus::ids::SlotId;
use rally_point_consensus::ordmap::OrdMap;
use rally_point_consensus::sync::turns::SlotTurns;
use rally_point_consensus::sync::turns::SyncCommand;
use rally_point_consensus::sync::turns::SyncGap;
use rally_point_consensus::sync::turns::SyncMode;
use rally_point_consensus::sync::turns::SyncOrderingFailure;
use rally_point_consensus::sync::turns::SyncTurn;
use rally_point_consensus::sync::turns::SyncTurns;
use rally_point_consensus::sync::turns::SYNC_TURN_WINDOW;

fn origin(turns: &SyncTurns, slot: u8) -> &SlotTurns {
    turns.slots.get(SlotId(slot)).expect("a known origin")
}

fn turn(ring: Option<u8>) -> SyncTurn {
    SyncTurn {
        frame: None,
        ordinal: None,
        command: ring.map(|ring| SyncCommand {
            ring,
            kind: 1,
            value: [0, 0],
        }),
        generation: None,
        skipped: None,
    }
}

fn enhanced_turn(ring: u8, generation: u64) -> SyncTurn {
    SyncTurn {
        frame: None,
        ordinal: None,
        command: Some(SyncCommand {
            ring,
            kind: 1,
            value: [0, 0],
        }),
        generation: Some(generation),
        skipped: None,
    }
}

#[test]
fn enhanced_generation_unwraps_the_incident_jump_and_marks_its_omission() {
    let mut turns = SyncTurns::default();
    turns.slots.insert(
        SlotId(0),
        SlotTurns {
            next: 2041,
            ordinal: Some(2034),
            mode: Some(SyncMode::Enhanced),
            ..Default::default()
        },
    );
    let turn = turns
        .push(SlotId(0), 2041, enhanced_turn(4, 2036))
        .unwrap()
        .unwrap();
    assert_eq!(turn.ordinal, Some(2036));
    assert_eq!(
        turn.skipped,
        Some(SyncGap {
            first: 2035,
            end: 2036,
        })
    );
    assert!(!turns.unavailable(SlotId(0)));
}

#[test]
fn enhanced_generation_failures_stay_with_their_origin() {
    for (generation, ring, reason) in [
        (2, 1, "generation_initial_anchor"),
        (u64::MAX, 15, "generation_overflow"),
    ] {
        let mut turns = SyncTurns::default();
        assert_eq!(
            turns
                .push(SlotId(0), 0, enhanced_turn(ring, generation))
                .unwrap_err()
                .reason,
            reason
        );
        assert!(
            turns
                .push(SlotId(1), 0, enhanced_turn(0, 0))
                .unwrap()
                .is_some()
        );
        assert!(turns.unavailable(SlotId(0)));
        assert!(!turns.unavailable(SlotId(1)));
    }

    let mut turns = SyncTurns::default();
    turns.push(SlotId(0), 0, enhanced_turn(0, 0)).unwrap();
    assert_eq!(
        turns
            .push(SlotId(0), 1, enhanced_turn(15, u64::MAX))
            .unwrap_err()
            .reason,
        "generation_overflow"
    );
}

#[test]
fn enhanced_mode_never_downgrades_or_accepts_unbound_metadata() {
    // An origin's mode is fixed by its first tagged turn, and neither
    // direction may cross it afterwards: an enhanced origin that stops
    // tagging cannot silently fall back to ring unwrapping, and a legacy
    // one that starts tagging has no anchor its generation means anything
    // against.
    let mut turns = SyncTurns::default();
    turns.push(SlotId(0), 0, enhanced_turn(0, 0)).unwrap();
    assert_eq!(
        turns.push(SlotId(0), 1, turn(Some(1))).unwrap_err().reason,
        "generation_mode_mismatch"
    );

    let mut turns = SyncTurns::default();
    turns.push(SlotId(0), 0, turn(Some(0))).unwrap();
    assert_eq!(
        turns
            .push(SlotId(0), 1, enhanced_turn(1, 1))
            .unwrap_err()
            .reason,
        "generation_mode_mismatch"
    );

    let mut turns = SyncTurns::default();
    let mut unbound = turn(None);
    unbound.generation = Some(0);
    assert_eq!(
        turns.push(SlotId(0), 0, unbound).unwrap_err().reason,
        "generation_without_sync"
    );
}

#[test]
fn the_last_sequence_in_the_window_can_recover_without_guessing_a_prefix() {
    let mut turns = SyncTurns::default();
    assert!(
        turns
            .push(SlotId(0), SYNC_TURN_WINDOW - 1, turn(None))
            .unwrap()
            .is_none()
    );
    for seq in 0..SYNC_TURN_WINDOW - 1 {
        assert!(turns.push(SlotId(0), seq, turn(None)).unwrap().is_some());
    }
    assert!(turns.pop_ready(SlotId(0)).unwrap().is_some());
    assert!(origin(&turns, 0).pending.is_empty());
    assert_eq!(origin(&turns, 0).next, SYNC_TURN_WINDOW);
}

#[test]
fn an_unrecoverable_gap_clears_only_its_origin_and_preserves_failure_context() {
    let mut turns = SyncTurns::default();
    turns.push(SlotId(1), 1, turn(Some(1))).unwrap();
    for seq in 1..SYNC_TURN_WINDOW {
        assert!(turns.push(SlotId(0), seq, turn(None)).unwrap().is_none());
    }
    let failure = turns
        .push(SlotId(0), SYNC_TURN_WINDOW, turn(Some(3)))
        .unwrap_err();
    assert_eq!(
        failure,
        SyncOrderingFailure {
            reason: "sequence_gap",
            seq: SYNC_TURN_WINDOW,
            next: 0,
            previous_ordinal: None,
            ring: Some(3),
        }
    );
    assert!(origin(&turns, 0).pending.is_empty());
    assert!(turns.unavailable(SlotId(0)));
    assert!(turns.push(SlotId(0), 0, turn(None)).unwrap().is_none());
    assert!(turns.push(SlotId(1), 0, turn(Some(0))).unwrap().is_some());
    assert_eq!(
        turns.pop_ready(SlotId(1)).unwrap().unwrap().ordinal,
        Some(1)
    );
    assert!(!turns.unavailable(SlotId(1)));
}

#[test]
fn repeated_sequences_never_reenter_ordered_comparison() {
    let mut turns = SyncTurns::default();
    turns.push(SlotId(0), 1, turn(None)).unwrap();
    turns.push(SlotId(0), 1, turn(None)).unwrap();
    assert_eq!(origin(&turns, 0).pending.len(), 1);
    turns.push(SlotId(0), 0, turn(None)).unwrap();
    assert!(turns.pop_ready(SlotId(0)).unwrap().is_some());
    assert!(turns.push(SlotId(0), 1, turn(None)).unwrap().is_none());
}

#[test]
fn ring_discontinuities_preserve_the_prior_ordinal_and_missing_sequence() {
    for ring in [3, 8, 9, 0] {
        let mut turns = SyncTurns::default();
        turns.push(SlotId(0), 0, turn(Some(1))).unwrap();
        turns.push(SlotId(0), 2, turn(Some(ring))).unwrap();
        turns.push(SlotId(0), 1, turn(Some(1))).unwrap();
        let failure = turns.pop_ready(SlotId(0)).unwrap_err();
        assert_eq!(failure.reason, "ring_discontinuity");
        assert_eq!(failure.seq, 2);
        assert_eq!(failure.next, 2);
        assert_eq!(failure.previous_ordinal, Some(1));
        assert_eq!(failure.ring, Some(ring));
    }
}

#[test]
fn a_ready_tail_is_not_a_missing_prefix_after_comparison_pauses() {
    let mut turns = SyncTurns::default();
    for seq in 1..SYNC_TURN_WINDOW {
        turns.push(SlotId(0), seq, turn(None)).unwrap();
    }
    // Sequence zero produces a verdict before the caller drains the ready
    // tail. Sequence 4097 then arrives before the actual missing 4096.
    turns.push(SlotId(0), 0, turn(None)).unwrap();
    assert!(
        turns
            .push(SlotId(0), SYNC_TURN_WINDOW + 1, turn(None))
            .unwrap()
            .is_none()
    );
    assert!(!turns.unavailable(SlotId(0)));
    for _ in 1..SYNC_TURN_WINDOW {
        assert!(turns.pop_ready(SlotId(0)).unwrap().is_some());
    }
    assert!(turns.pop_ready(SlotId(0)).unwrap().is_none());
    turns.push(SlotId(0), SYNC_TURN_WINDOW, turn(None)).unwrap();
    assert!(turns.pop_ready(SlotId(0)).unwrap().is_some());
    assert!(origin(&turns, 0).pending.is_empty());
}

#[test]
fn metadata_capacity_backstop_clears_only_the_full_origin() {
    let mut turns = SyncTurns::default();
    // Construct a full ready tail without the caller draining it. This
    // exercises the storage bound independently of the receive window.
    let mut pending = OrdMap::new();
    for seq in 1..=SYNC_TURN_WINDOW {
        pending.insert(seq, turn(None));
    }
    turns.slots.insert(
        SlotId(0),
        SlotTurns {
            next: 1,
            pending,
            ..Default::default()
        },
    );
    turns.push(SlotId(1), 1, turn(None)).unwrap();
    assert!(
        turns
            .push(SlotId(0), SYNC_TURN_WINDOW, turn(None))
            .unwrap()
            .is_none(),
        "a duplicate does not grow a full queue"
    );
    let failure = turns
        .push(SlotId(0), SYNC_TURN_WINDOW + 2, turn(None))
        .unwrap_err();
    assert_eq!(failure.reason, "metadata_capacity");
    assert_eq!(failure.next, SYNC_TURN_WINDOW + 1);
    assert!(origin(&turns, 0).pending.is_empty());
    assert!(turns.unavailable(SlotId(0)));
    assert!(!turns.unavailable(SlotId(1)));
    assert_eq!(origin(&turns, 1).pending.len(), 1);
}

#[test]
fn arithmetic_overflow_is_a_per_origin_failure() {
    for (next, ordinal, reason) in [
        (u64::MAX, Some(0), "sequence_overflow"),
        (10, Some(u64::MAX), "ordinal_overflow"),
    ] {
        let mut turns = SyncTurns::default();
        turns.slots.insert(
            SlotId(0),
            SlotTurns {
                next,
                ordinal,
                ..Default::default()
            },
        );
        assert_eq!(
            turns
                .push(SlotId(0), next, turn(Some(0)))
                .unwrap_err()
                .reason,
            reason
        );
        assert!(turns.unavailable(SlotId(0)));
        assert!(turns.push(SlotId(1), 0, turn(Some(0))).unwrap().is_some());
    }
}
