//! Phase alignment: correction mechanics, the command fence and the dwell, the health
//! gate, the give-up latch and the stretch pressure.

use rally_point_consensus::ids::SlotId;
use rally_point_consensus::phase::PhaseController;
use rally_point_consensus::phase::MAX_UNCONVERGED_ROUNDS;
use rally_point_consensus::phase::SLOT_MAX_CHANGE_US;
use rally_point_consensus::time::Duration;
use rally_point_consensus::time::Instant;
use std::collections::HashMap;
use std::ops::Range;

/// Where every timeline begins.
fn origin() -> Instant {
    Instant { nanos: 1_000_000_000 }
}

fn later(a: Instant, b: Instant) -> Instant {
    if a.nanos >= b.nanos {
        a
    } else {
        b
    }
}

const TURN_US: u32 = 41_667;

/// Turns of steady flow a test feeds between evaluations. The longest
/// dwell an evaluation can set is one capped step's slew (8 ms at
/// [`SLEW_US_PER_S`]) plus the settle time -- around twelve seconds -- and
/// this many turns at the nominal period covers it half again over.
const ROUND_TURNS: u64 = 400;

fn slot(id: u8) -> SlotId {
    SlotId(id)
}

/// Feeds `controller` one arrival per slot for every seq in `seqs`, the
/// run's first turn landing at `first_at` and each one after it a
/// `period_us` later, with each slot offset inside the cycle by its entry
/// in `offsets_us`. A period other than [`TURN_US`] is how a test says the
/// session is stall-bound or catching up. Returns the last arrival instant.
fn feed_at_cadence(
    controller: &mut PhaseController,
    first_at: Instant,
    offsets_us: &[(SlotId, i64)],
    seqs: Range<u64>,
    period_us: i64,
) -> Instant {
    let first_seq = seqs.start;
    let mut last = first_at;
    for seq in seqs {
        for &(id, offset) in offsets_us {
            let step = (seq - first_seq) as i64;
            let at = first_at.plus(Duration::from_micros((step * period_us + offset) as u64));
            controller.note_arrival(id, seq, at);
            last = later(last, at);
        }
    }
    last
}

/// The instant seq `seq` of a nominal-period run that began at `start`
/// lands on -- where a continuation of that run picks up.
fn at_turn(start: Instant, seq: u64) -> Instant {
    start.plus(Duration::from_micros(seq * u64::from(TURN_US)))
}

/// [`feed_at_cadence`] at exactly the nominal period, for `turns` turns
/// from seq `first_seq`, on the timeline that began at `start`.
fn feed_steady(
    controller: &mut PhaseController,
    start: Instant,
    offsets_us: &[(SlotId, i64)],
    first_seq: u64,
    turns: u64,
) -> Instant {
    feed_at_cadence(
        controller,
        at_turn(start, first_seq),
        offsets_us,
        first_seq..first_seq + turns,
        i64::from(TURN_US),
    )
}

/// Runs the controller past its first-evaluation delay on a steady stream
/// and returns the first evaluation's corrections.
fn corrections_for(offsets_us: &[(SlotId, i64)]) -> Vec<(SlotId, u32)> {
    let mut controller = PhaseController::new(TURN_US);
    let start = origin();
    // 300 turns ≈ 12.5 s of flow: past FIRST_EVAL_DELAY and MIN_SAMPLES.
    let last = feed_steady(&mut controller, start, offsets_us, 0, 300);
    controller.evaluate(last.plus(Duration::from_millis(1)))
}

/// Simulates obedient clients against the controller: feeds steady turns,
/// evaluates, applies each round's corrections to the modeled offsets, and
/// repeats until an evaluation issues nothing. Returns the per-round
/// correction sets. Offsets model *natural* phases; a slot's effective
/// offset is natural + its currently commanded delay.
fn run_to_convergence(
    natural_offsets: &[(SlotId, i64)],
    max_rounds: usize,
) -> Vec<Vec<(SlotId, u32)>> {
    let mut controller = PhaseController::new(TURN_US);
    let start = origin();
    let turn = i64::from(TURN_US);
    let mut commanded: HashMap<SlotId, i64> = HashMap::new();
    let mut seq = 0u64;
    let mut rounds = Vec::new();
    for _ in 0..max_rounds {
        let effective: Vec<(SlotId, i64)> = natural_offsets
            .iter()
            .map(|&(id, natural)| (id, natural + commanded.get(&id).copied().unwrap_or(0)))
            .collect();
        let clock = feed_at_cadence(
            &mut controller,
            at_turn(start, seq),
            &effective,
            seq..seq + ROUND_TURNS,
            turn,
        );
        seq += ROUND_TURNS;
        let corrections = controller.evaluate(clock.plus(Duration::from_millis(1)));
        if corrections.is_empty() {
            return rounds;
        }
        for &(id, delay) in &corrections {
            commanded.insert(id, i64::from(delay));
            // The modeled client both applies and acknowledges.
            controller.note_applied(id, delay, clock.plus(Duration::from_millis(2)));
        }
        rounds.push(corrections);
    }
    panic!("never converged: {rounds:?}");
}

#[test]
fn aligned_slots_get_no_corrections() {
    // Two slots inside the dead-band: spread 2 ms.
    let corrections = corrections_for(&[(slot(0), 0), (slot(1), 2_000)]);
    assert!(corrections.is_empty(), "got {corrections:?}");
}

#[test]
fn spread_slots_converge_in_capped_steps_onto_the_latest_phase() {
    // Three slots at 0 / 10 / 20 ms. The cluster's latest phase is 20 ms,
    // so slots 0 and 1 walk onto it — never more than the per-round cap at
    // a time — and slot 2 stays put throughout.
    let rounds = run_to_convergence(&[(slot(0), 0), (slot(1), 10_000), (slot(2), 20_000)], 8);
    assert!(!rounds.is_empty());
    let mut final_delay: HashMap<SlotId, u32> = HashMap::new();
    let mut prior: HashMap<SlotId, i64> = HashMap::new();
    for round in &rounds {
        for &(id, delay) in round {
            assert_ne!(id, slot(2), "the latest slot is never corrected");
            let before = prior.get(&id).copied().unwrap_or(0);
            assert!(
                (i64::from(delay) - before).abs() <= SLOT_MAX_CHANGE_US,
                "per-round change capped, got {before} -> {delay}"
            );
            prior.insert(id, i64::from(delay));
            final_delay.insert(id, delay);
        }
    }
    let d0 = *final_delay.get(&slot(0)).expect("slot 0 corrected");
    let d1 = *final_delay.get(&slot(1)).expect("slot 1 corrected");
    assert!(
        (17_000..=23_000).contains(&d0),
        "slot 0 ends ~20 ms, got {d0}"
    );
    assert!(
        (7_000..=13_000).contains(&d1),
        "slot 1 ends ~10 ms, got {d1}"
    );
}

#[test]
fn the_cluster_is_found_across_the_cycle_wrap() {
    // Phases at 38 ms and 1 ms sit 4.667 ms apart *across* the wrap; the
    // naive linear reading (37 ms apart) would delay the late slot by most
    // of a turn. The circular gap search must instead nudge the 38 ms slot
    // forward onto 1 ms.
    let corrections = corrections_for(&[(slot(0), 38_000), (slot(1), 1_000 + 41_667)]);
    // Slot 1's arrivals ride the next cycle (offset past one turn), which
    // is exactly the mod-T ambiguity the controller must be blind to.
    let by_slot: HashMap<SlotId, u32> = corrections.into_iter().collect();
    let d0 = *by_slot.get(&slot(0)).expect("slot 0 corrected");
    assert!(
        (3_600..=5_800).contains(&d0),
        "slot 0 walks forward across the wrap (~4.7 ms), got {d0}"
    );
    assert_eq!(by_slot.get(&slot(1)), None, "the target slot stays put");
}

#[test]
fn corrections_do_not_reissue_inside_the_dwell() {
    let mut controller = PhaseController::new(TURN_US);
    let start = origin();
    let last = feed_steady(
        &mut controller,
        start,
        &[(slot(0), 0), (slot(1), 6_000)],
        0,
        300,
    );
    let first = controller.evaluate(last.plus(Duration::from_millis(1)));
    assert!(!first.is_empty());
    // Immediately after issuing, and well inside slew+settle, nothing new
    // is issued even though the (not yet moved) estimates still disagree.
    let again = controller.evaluate(last.plus(Duration::from_secs(1)));
    assert!(again.is_empty(), "got {again:?}");
}

#[test]
fn an_unacknowledged_command_is_never_advanced_by_peer_drift() {
    // Slot 0 never acknowledges its correction. However its peers drift
    // afterwards — the exact measurement ambiguity that once let a moving
    // reference impersonate a response — the fence is explicit now, so
    // slot 0 draws no second command. A stale echo (the wrong delay)
    // must not release it either.
    let mut controller = PhaseController::new(TURN_US);
    let start = origin();
    let turn = i64::from(TURN_US);
    let offsets = [(slot(0), 0i64), (slot(1), 9_000), (slot(2), 10_000)];
    let mut clock = feed_steady(&mut controller, start, &offsets, 0, 300);
    let first = controller.evaluate(clock.plus(Duration::from_millis(1)));
    assert_eq!(
        first.iter().map(|&(s, _)| s).collect::<Vec<_>>(),
        vec![slot(0)],
        "only the early slot is corrected"
    );

    // A stale echo: acknowledging a delay that was never commanded.
    controller.note_applied(slot(0), 999, clock.plus(Duration::from_millis(2)));
    // The target peer then drifts 5 ms later while slot 0 applies
    // nothing; no measurement can reopen an explicit fence.
    let drifted = [(slot(0), 0i64), (slot(1), 9_000), (slot(2), 15_000)];
    let mut seq = 300u64;
    for _ in 0..3u32 {
        for s_ in seq..seq + 1_000 {
            for &(id, offset) in &drifted {
                let at = start.plus(Duration::from_micros((s_ as i64 * turn + offset) as u64));
                controller.note_arrival(id, s_, at);
                clock = later(clock, at);
            }
        }
        seq += 1_000;
        let corrections = controller.evaluate(clock.plus(Duration::from_millis(1)));
        assert!(
            !corrections.iter().any(|&(s, _)| s == slot(0)),
            "the unmoved slot draws no second command, got {corrections:?}"
        );
    }
    let parked = controller.commanded(slot(0)).expect("first command stands");
    assert!(
        i64::from(parked) <= SLOT_MAX_CHANGE_US,
        "the command stays parked at one cap step, got {parked}"
    );
}

#[test]
fn dead_band_crossings_do_not_reopen_the_command_fence() {
    // An ignoring slot near the dead-band boundary: jitter walks the span
    // in and out of the band. Each inward crossing resets the round
    // counter, so without a persistent fence every outward crossing would
    // add another command — a slow ratchet no latch would catch. The
    // fence must survive the crossings and keep the command parked.
    let mut controller = PhaseController::new(TURN_US);
    let start = origin();
    let turn = i64::from(TURN_US);
    let mut clock = start;
    let mut seq = 0u64;
    let feed =
        |controller: &mut PhaseController, seq: &mut u64, clock: &mut Instant, peer_offset: i64| {
            for s_ in *seq..*seq + 1_000 {
                for (id, offset) in [(slot(0), 0i64), (slot(1), peer_offset)] {
                    let at = start.plus(Duration::from_micros((s_ as i64 * turn + offset) as u64));
                    controller.note_arrival(id, s_, at);
                    *clock = later(*clock, at);
                }
            }
            *seq += 1_000;
        };
    // Out of band: the one and only command.
    feed(&mut controller, &mut seq, &mut clock, 4_000);
    let first = controller.evaluate(clock.plus(Duration::from_millis(1)));
    assert_eq!(first.len(), 1, "got {first:?}");
    let parked = first[0].1;

    for _ in 0..4u32 {
        // The peer jitters inward: span inside the band, rounds reset.
        feed(&mut controller, &mut seq, &mut clock, 2_500);
        assert!(
            controller
                .evaluate(clock.plus(Duration::from_millis(1)))
                .is_empty()
        );
        // And back out: the fence must still hold — slot 0 never moved.
        feed(&mut controller, &mut seq, &mut clock, 4_000);
        assert!(
            controller
                .evaluate(clock.plus(Duration::from_millis(1)))
                .is_empty(),
            "no re-command on an outward crossing"
        );
    }
    assert_eq!(controller.commanded(slot(0)), Some(parked));
}

#[test]
fn a_reconnect_does_not_reopen_the_command_fence() {
    // The commanded delay survives a slot's teardown for the re-push, so
    // the unacknowledged-command fence must survive with it — otherwise
    // each reconnect of a never-acknowledging client would advance its
    // command by another cap step.
    let mut controller = PhaseController::new(TURN_US);
    let start = origin();
    let turn = i64::from(TURN_US);
    let offsets = [(slot(0), 0i64), (slot(1), 8_000)];
    let mut clock = feed_steady(&mut controller, start, &offsets, 0, 300);
    let first = controller.evaluate(clock.plus(Duration::from_millis(1)));
    assert_eq!(first.len(), 1);
    let commanded = controller.commanded(slot(0)).expect("commanded");

    controller.remove_slot(slot(0));
    // The reconnected client still applies nothing; fresh estimates, same
    // unmoved phase.
    let mut seq = 300u64;
    for _ in 0..2u32 {
        for s_ in seq..seq + 1_000 {
            for &(id, offset) in &offsets {
                let at = start.plus(Duration::from_micros((s_ as i64 * turn + offset) as u64));
                controller.note_arrival(id, s_, at);
                clock = later(clock, at);
            }
        }
        seq += 1_000;
        assert!(
            controller
                .evaluate(clock.plus(Duration::from_millis(1)))
                .is_empty(),
            "no re-command across the reconnect"
        );
    }
    assert_eq!(controller.commanded(slot(0)), Some(commanded));
}

#[test]
fn an_acknowledged_command_may_be_advanced() {
    // The matching echo releases the fence: the controller may then step
    // the same slot again. (An acknowledgement without real application
    // only ever hurts the acknowledging client itself — its command keeps
    // stepping, timing it already controls outright.)
    let mut controller = PhaseController::new(TURN_US);
    let start = origin();
    let turn = i64::from(TURN_US);
    let offsets = [(slot(0), 0i64), (slot(1), 20_000)];
    let mut clock = feed_steady(&mut controller, start, &offsets, 0, 300);
    let first = controller.evaluate(clock.plus(Duration::from_millis(1)));
    assert_eq!(first, vec![(slot(0), 8_000)]);
    controller.note_applied(slot(0), 8_000, clock.plus(Duration::from_millis(2)));

    // The client acked but its phase never moved; the released fence
    // permits the next capped step.
    for s_ in 300u64..1_300 {
        for &(id, offset) in &offsets {
            let at = start.plus(Duration::from_micros((s_ as i64 * turn + offset) as u64));
            controller.note_arrival(id, s_, at);
            clock = later(clock, at);
        }
    }
    let second = controller.evaluate(clock.plus(Duration::from_millis(1)));
    assert_eq!(second, vec![(slot(0), 16_000)]);
}

#[test]
fn a_late_echo_re_arms_the_evaluation_dwell() {
    // The echo arrives long after the issue-time dwell expired (slow
    // delivery, or the fresh adoption a reconnect re-push triggers). It
    // must not release the fence straight into an evaluation of a
    // barely-adopted target: release re-arms a full-step slew-plus-settle
    // dwell from receipt, and only after that may the next step issue.
    let mut controller = PhaseController::new(TURN_US);
    let start = origin();
    let turn = i64::from(TURN_US);
    let offsets = [(slot(0), 0i64), (slot(1), 20_000)];
    let mut clock = feed_steady(&mut controller, start, &offsets, 0, 300);
    let first = controller.evaluate(clock.plus(Duration::from_millis(1)));
    assert_eq!(first, vec![(slot(0), 8_000)]);

    // Well past the issue-time dwell, still unacknowledged: fenced.
    clock = feed_steady(&mut controller, start, &offsets, 300, 1_000);
    assert!(
        controller
            .evaluate(clock.plus(Duration::from_millis(1)))
            .is_empty()
    );

    // The echo lands now, late. The fence releases — but evaluation right
    // after must still hold, because the dwell restarted from receipt.
    let ack_at = clock.plus(Duration::from_secs(1));
    controller.note_applied(slot(0), 8_000, ack_at);
    for seq in 1_300u64..1_340 {
        for &(id, offset) in &offsets {
            let at = start.plus(Duration::from_micros((seq as i64 * turn + offset) as u64));
            controller.note_arrival(id, seq, at);
            clock = later(clock, at);
        }
    }
    assert!(
        controller
            .evaluate(ack_at.plus(Duration::from_millis(500)))
            .is_empty(),
        "the re-armed dwell holds evaluation off a barely-adopted target"
    );

    // Once the re-armed dwell passes (with fresh samples), the next
    // capped step may issue.
    let mut late = ack_at.plus(Duration::from_secs(13));
    let resume_seq = 1_340u64;
    for i in 0..60u64 {
        for &(id, offset) in &offsets {
            let at = late.plus(Duration::from_micros((i as i64 * turn + offset) as u64));
            controller.note_arrival(id, resume_seq + i, at);
        }
    }
    late = late.plus(Duration::from_micros(59 * u64::from(TURN_US)));
    let second = controller.evaluate(late.plus(Duration::from_millis(1)));
    assert_eq!(second, vec![(slot(0), 16_000)]);
}

#[test]
fn a_quiet_slot_sits_out_but_keeps_its_commanded_delay() {
    let mut controller = PhaseController::new(TURN_US);
    let start = origin();
    let last = feed_steady(
        &mut controller,
        start,
        &[(slot(0), 0), (slot(1), 7_000)],
        0,
        300,
    );
    let first = controller.evaluate(last.plus(Duration::from_millis(1)));
    let commanded: HashMap<SlotId, u32> = first.into_iter().collect();
    let corrected = *commanded.keys().next().expect("one slot corrected");

    // Only the other slot keeps sending; the corrected one goes quiet past
    // SAMPLE_MAX_AGE. With one measurable slot there is nothing to align.
    controller.remove_slot(corrected);
    let quiet_until = last.plus(Duration::from_secs(60));
    let other = if corrected == slot(0) {
        slot(1)
    } else {
        slot(0)
    };
    for seq in 300u64..320 {
        let at = quiet_until.plus(Duration::from_micros((seq - 300) * u64::from(TURN_US)));
        controller.note_arrival(other, seq, at);
    }
    let corrections = controller.evaluate(quiet_until.plus(Duration::from_secs(2)));
    assert!(corrections.is_empty());
    // The departed slot's delay survives for the reconnect re-push.
    assert_eq!(
        controller.commanded(corrected),
        commanded.get(&corrected).copied()
    );
}

#[test]
fn fewer_than_two_measurable_slots_never_correct() {
    let mut controller = PhaseController::new(TURN_US);
    let start = origin();
    let last = feed_steady(&mut controller, start, &[(slot(0), 0)], 0, 300);
    assert!(
        controller
            .evaluate(last.plus(Duration::from_millis(1)))
            .is_empty()
    );
    assert_eq!(controller.commanded(slot(0)), None);
}

#[test]
fn seq_history_from_before_measurement_does_not_skew_the_phase() {
    // Two slots at identical phases whose seq counters differ by hundreds
    // (pre-game traffic consumed seqs at a different cadence): the
    // unwrapped residuals differ by whole turns, the phases must not.
    let mut controller = PhaseController::new(TURN_US);
    let start = origin();
    let turn = i64::from(TURN_US);
    for i in 0..300u64 {
        let at = start.plus(Duration::from_micros((i as i64 * turn) as u64));
        controller.note_arrival(slot(0), i, at);
        controller.note_arrival(slot(1), i + 700, at);
    }
    let last = start.plus(Duration::from_micros((299 * turn) as u64));
    let corrections = controller.evaluate(last.plus(Duration::from_millis(1)));
    assert!(corrections.is_empty(), "same phase, got {corrections:?}");
}

#[test]
fn a_stretched_turn_period_gates_evaluation_shut() {
    // Arrivals at a 55 ms cadence against a ~41.7 ms nominal turn: the
    // session is stall-bound (period inflated), phases are not
    // quasi-static, and the controller must refuse to correct however
    // spread the (meaningless) phases look.
    let mut controller = PhaseController::new(TURN_US);
    let start = origin();
    let stretched = 55_000i64;
    let mut last = start;
    for seq in 0..600u64 {
        for (id, offset) in [(slot(0), 0i64), (slot(1), 20_000)] {
            let at = start.plus(Duration::from_micros((seq as i64 * stretched + offset) as u64));
            controller.note_arrival(id, seq, at);
            last = later(last, at);
        }
    }
    let corrections = controller.evaluate(last.plus(Duration::from_millis(1)));
    assert!(corrections.is_empty(), "got {corrections:?}");
}

#[test]
fn churn_after_a_correction_closes_the_gate_until_it_clears() {
    let mut controller = PhaseController::new(TURN_US);
    let start = origin();
    let offsets = [(slot(0), 0i64), (slot(1), 16_000)];
    let last = feed_steady(&mut controller, start, &offsets, 0, 300);
    let first = controller.evaluate(last.plus(Duration::from_millis(1)));
    assert!(!first.is_empty(), "the 16 ms spread draws a correction");
    let applied: i64 = first
        .iter()
        .find(|&&(id, _)| id == slot(0))
        .map(|&(_, delay)| i64::from(delay))
        .expect("the early slot is corrected");
    for &(id, delay) in &first {
        controller.note_applied(id, delay, last.plus(Duration::from_millis(2)));
    }

    // The client applies the first (capped) correction, but the session
    // then kicks into churn: turns arrive at a stretched period. Once the
    // dwell passes, the health gate — not the dwell — must be what keeps
    // the controller silent, despite the still-open spread.
    let churn_start = last.plus(Duration::from_secs(30));
    let stretched = 50_000i64;
    let mut clock = churn_start;
    for i in 0..300u64 {
        for (id, offset) in [(slot(0), applied), (slot(1), 16_000)] {
            let at = churn_start.plus(Duration::from_micros((i as i64 * stretched + offset) as u64));
            controller.note_arrival(id, 300 + i, at);
            clock = later(clock, at);
        }
    }
    assert!(
        controller
            .evaluate(clock.plus(Duration::from_millis(1)))
            .is_empty(),
        "no corrections while the period is stretched"
    );

    // Churn clears: steady nominal-period flow resumes long enough for the
    // interval estimate to re-center, and evaluation may run again — the
    // applied first step released the response gate, so the remaining
    // spread draws the next correction.
    let resume = clock.plus(Duration::from_secs(1));
    let mut clock2 = resume;
    let turn = i64::from(TURN_US);
    for i in 0..600u64 {
        for (id, offset) in [(slot(0), applied), (slot(1), 16_000)] {
            let at = resume.plus(Duration::from_micros((i as i64 * turn + offset) as u64));
            controller.note_arrival(id, 600 + i, at);
            clock2 = later(clock2, at);
        }
    }
    // Drain the idle-reeval schedule: evaluate may need a couple of calls
    // spaced past IDLE_REEVAL before one actually runs.
    let mut corrected = false;
    for extra in 0..8u64 {
        let at = clock2.plus(Duration::from_secs(1 + extra * 6));
        if !controller.evaluate(at).is_empty() {
            corrected = true;
            break;
        }
    }
    assert!(corrected, "a healthy session is corrected again");
}

#[test]
fn a_plant_that_never_settles_trips_the_give_up_latch() {
    // Every round the population re-scrambles (natural phases jump around
    // as a churning game's would), so no evaluation ever measures inside
    // the dead-band. The controller must stop within the round budget and
    // stay stopped.
    let mut controller = PhaseController::new(TURN_US);
    let start = origin();
    let turn = i64::from(TURN_US);
    let mut seq = 0u64;
    let mut correcting_rounds = 0u32;
    for round in 0..20u64 {
        // A fresh scrambled offset pair each round, always ≥ 10 ms apart.
        let jitter = ((round * 7_919) % 20_000) as i64;
        let offsets = [(slot(0), jitter), (slot(1), jitter + 12_000)];
        let mut clock = start;
        for s in seq..seq + 1_000 {
            for &(id, offset) in &offsets {
                let at = start.plus(Duration::from_micros((s as i64 * turn + offset) as u64));
                controller.note_arrival(id, s, at);
                clock = later(clock, at);
            }
        }
        seq += 1_000;
        if !controller
            .evaluate(clock.plus(Duration::from_millis(1)))
            .is_empty()
        {
            correcting_rounds += 1;
        }
    }
    assert!(
        correcting_rounds <= MAX_UNCONVERGED_ROUNDS,
        "the latch bounds correcting rounds, got {correcting_rounds}"
    );
}

#[test]
fn stretch_presses_only_after_the_sustain_window() {
    // A session stuck at a 50 ms cadence against the ~41.7 ms turn: the
    // first sighting latches the onset but must not press; once the
    // stretch has held past the sustain window it presses one turn.
    let mut controller = PhaseController::new(TURN_US);
    let start = origin();
    let cadence = 50_000i64;
    let mut clock = start;
    for seq in 0..300u64 {
        let at = start.plus(Duration::from_micros((seq as i64 * cadence) as u64));
        controller.note_arrival(slot(0), seq, at);
        clock = later(clock, at);
    }
    assert_eq!(
        controller.stretch_turns(clock),
        0,
        "first sighting only latches"
    );
    // The stretch persists: another 300 turns (~15 s) at the same cadence.
    for seq in 300..600u64 {
        let at = start.plus(Duration::from_micros((seq as i64 * cadence) as u64));
        controller.note_arrival(slot(0), seq, at);
        clock = later(clock, at);
    }
    assert_eq!(
        controller.stretch_turns(clock),
        1,
        "sustained stretch presses"
    );
    // Recovery: the cadence returns to nominal long enough for the
    // interval estimate to re-center, and the pressure releases.
    let turn = i64::from(TURN_US);
    let resume = clock;
    for i in 0..200u64 {
        let at = resume.plus(Duration::from_micros(((i + 1) as i64 * turn) as u64));
        controller.note_arrival(slot(0), 600 + i, at);
        clock = later(clock, at);
    }
    assert_eq!(
        controller.stretch_turns(clock),
        0,
        "recovered cadence releases"
    );
}

#[test]
fn fast_arrivals_never_press() {
    // Faster-than-nominal cadence is catch-up, not distress: one-sided.
    let mut controller = PhaseController::new(TURN_US);
    let start = origin();
    let cadence = 35_000i64;
    let mut clock = start;
    for seq in 0..600u64 {
        let at = start.plus(Duration::from_micros((seq as i64 * cadence) as u64));
        controller.note_arrival(slot(0), seq, at);
        clock = later(clock, at);
    }
    assert_eq!(controller.stretch_turns(clock), 0);
    assert_eq!(
        controller.stretch_turns(clock.plus(Duration::from_millis(1))),
        0
    );
}

#[test]
fn a_single_long_gap_never_presses() {
    // One hiccup spikes the interval estimate, but the (clamped) sample
    // decays back inside tolerance well inside the sustain window, so
    // polling the pressure every turn across the episode never sees it
    // fire — including a multi-second pause that, folded unclamped, would
    // hold the estimate past tolerance for longer than the sustain.
    for gap_us in [500_000i64, 1_500_000, 4_000_000] {
        let mut controller = PhaseController::new(TURN_US);
        let start = origin();
        let turn = i64::from(TURN_US);
        let mut clock = start;
        let at_of = |seq: u64, extra_us: i64| {
            start.plus(Duration::from_micros((seq as i64 * turn + extra_us) as u64))
        };
        for seq in 0..200u64 {
            let at = at_of(seq, 0);
            controller.note_arrival(slot(0), seq, at);
            clock = later(clock, at);
            assert_eq!(controller.stretch_turns(clock), 0);
        }
        // The hiccup: turn 200 lands late, later turns shift with it (the
        // schedule slipped once, the cadence itself recovered).
        for seq in 200..500u64 {
            let at = at_of(seq, gap_us);
            controller.note_arrival(slot(0), seq, at);
            clock = later(clock, at);
            assert_eq!(
                controller.stretch_turns(clock),
                0,
                "gap {gap_us} at seq {seq}"
            );
        }
    }
}

#[test]
fn a_stale_out_of_order_delivery_is_ignored() {
    // The transport is unordered: an old turn can arrive after newer
    // ones, its timing describing the detour rather than the sender.
    // Folding it (or letting it regress the interval baseline) would
    // poison both estimators; it must change nothing at all.
    let mut controller = PhaseController::new(TURN_US);
    let start = origin();
    let offsets = [(slot(0), 0i64), (slot(1), 1_500)];
    let mut clock = feed_steady(&mut controller, start, &offsets, 0, 300);
    // A delayed re-delivery of turn 100 lands now, 200 turns late.
    controller.note_arrival(slot(0), 100, clock.plus(Duration::from_millis(5)));
    // Steady flow resumes; the phases are aligned within the dead-band,
    // so a poisoned residual (shifted by the stale fold) or a poisoned
    // interval (differenced against the regressed baseline, closing the
    // health gate or faking stretch) would show up below.
    clock = feed_steady(&mut controller, start, &offsets, 300, 300);
    assert_eq!(controller.stretch_turns(clock), 0);
    let corrections = controller.evaluate(clock.plus(Duration::from_millis(1)));
    assert!(corrections.is_empty(), "got {corrections:?}");
    assert_eq!(controller.commanded(slot(0)), None);
    assert_eq!(controller.commanded(slot(1)), None);
}

#[test]
fn a_population_that_ignores_directives_still_trips_the_latch() {
    // Two slots 20 ms apart whose clients never apply any correction: the
    // response gate parks the command after a single cap step (an
    // unresponsive slot must never be ratcheted toward a near-full-turn
    // delay it might later apply all at once), the correction-free rounds
    // still walk to the give-up latch, and the latched controller stays
    // silent for good.
    let mut controller = PhaseController::new(TURN_US);
    let start = origin();
    let turn = i64::from(TURN_US);
    let offsets = [(slot(0), 0i64), (slot(1), 20_000)];
    let mut seq = 0u64;
    let mut clock = start;
    let mut correcting_rounds = 0u32;
    let mut last_commanded = 0u32;
    for _ in 0..30u32 {
        for s_ in seq..seq + 1_000 {
            for &(id, offset) in &offsets {
                let at = start.plus(Duration::from_micros((s_ as i64 * turn + offset) as u64));
                controller.note_arrival(id, s_, at);
                clock = later(clock, at);
            }
        }
        seq += 1_000;
        let corrections = controller.evaluate(clock.plus(Duration::from_millis(1)));
        if !corrections.is_empty() {
            correcting_rounds += 1;
        }
        for &(id, delay) in &corrections {
            assert_eq!(id, slot(0), "only the early slot is corrected");
            last_commanded = delay;
        }
    }
    assert_eq!(
        correcting_rounds, 1,
        "an unresponsive slot is commanded exactly once"
    );
    assert!(
        i64::from(last_commanded) <= SLOT_MAX_CHANGE_US,
        "the command parks at one cap step, got {last_commanded}"
    );
    // The latch fired: even a later, larger misalignment draws nothing.
    let mut clock2 = clock;
    for s_ in seq..seq + 2_000 {
        let at = start.plus(Duration::from_micros((s_ as i64 * turn) as u64));
        controller.note_arrival(slot(0), s_, at);
        let at1 = start.plus(Duration::from_micros((s_ as i64 * turn + 15_000) as u64));
        controller.note_arrival(slot(1), s_, at1);
        clock2 = later(clock2, at1);
    }
    assert!(
        controller
            .evaluate(clock2.plus(Duration::from_millis(1)))
            .is_empty(),
        "the latched controller stays silent"
    );
}

#[test]
fn a_latched_controller_still_presses() {
    // The give-up latch stops corrections, never the pressure term — the
    // latched sessions are exactly the ones the escape hatch exists for.
    let mut controller = PhaseController::new(TURN_US);
    controller.force_disable();
    let start = origin();
    let cadence = 55_000i64;
    let mut clock = start;
    for seq in 0..600u64 {
        let at = start.plus(Duration::from_micros((seq as i64 * cadence) as u64));
        controller.note_arrival(slot(0), seq, at);
        clock = later(clock, at);
        if seq == 300 {
            // Latch the onset partway through so the tail sustains it.
            let _ = controller.stretch_turns(clock);
        }
    }
    assert!(
        controller
            .evaluate(clock.plus(Duration::from_millis(1)))
            .is_empty()
    );
    assert_eq!(controller.stretch_turns(clock), 1);
}

#[test]
fn slots_in_phase_have_no_span() {
    // Slots that agree exactly are aligned: however often they are measured, they count
    // as settled and never wear the give-up latch down.
    let mut controller = PhaseController::new(TURN_US);
    let start = origin();
    let offsets = [(slot(0), 5_000i64), (slot(1), 5_000), (slot(2), 5_000)];
    let mut seq = 0u64;
    for _ in 0..12u32 {
        let clock = feed_steady(&mut controller, start, &offsets, seq, ROUND_TURNS);
        seq += ROUND_TURNS;
        assert!(controller.evaluate(clock.plus(Duration::from_millis(1))).is_empty());
        assert_eq!(controller.last_span_us(), Some(0));
    }
    // So a later misalignment is still corrected.
    let apart = [(slot(0), 0i64), (slot(1), 20_000), (slot(2), 20_000)];
    let mut corrected = Vec::new();
    for _ in 0..3u32 {
        let clock = feed_steady(&mut controller, start, &apart, seq, ROUND_TURNS);
        seq += ROUND_TURNS;
        corrected.extend(controller.evaluate(clock.plus(Duration::from_millis(1))));
    }
    assert_eq!(corrected, vec![(slot(0), 8_000)]);
    assert_eq!(controller.corrections_issued(), 1);
}
