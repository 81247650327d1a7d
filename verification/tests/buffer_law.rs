//! The control law against simulated weather: stability (no flapping under sustained or
//! bursty loss), coverage (bounded underruns) and recovery (monotonic, prompt descent once
//! the weather clears).

use rally_point_consensus::ids::GameFrameCount;
use rally_point_consensus::ids::SessionId;
use rally_point_consensus::ids::SessionKey;
use rally_point_consensus::ids::SlotId;
use rally_point_consensus::ids::TenantId;
use rally_point_consensus::law::ControlLaw;
use rally_point_consensus::maker::DecisionMaker;
use rally_point_consensus::ordmap::OrdSet;
use rally_point_consensus::time::Instant;
use rally_point_consensus::wire::Authority;
use rally_point_consensus::wire::BufferBounds;
use rally_point_consensus::wire::LinkConditions;
use rally_point_consensus::wire::SlotConditions;

/// Turns in `secs` seconds, at 24 turns a second.
fn seconds(secs: u32) -> u32 {
    secs * 24
}

/// A stretch of steady network conditions. Loss strikes only inside bursts: a link enters
/// one with probability `burst_start` per turn and leaves it with `burst_end`.
#[derive(Clone, Copy, Debug)]
struct Weather {
    turns: u32,
    rtt_us: u32,
    /// RTT noise, as a fraction of the RTT either way.
    jitter: f64,
    loss: f64,
    burst_start: f64,
    burst_end: f64,
}

impl Weather {
    fn clean(turns: u32, rtt_us: u32) -> Weather {
        Weather { turns, rtt_us, jitter: 0.05, loss: 0.0, burst_start: 0.0, burst_end: 1.0 }
    }

    fn random_loss(turns: u32, rtt_us: u32, loss: f64) -> Weather {
        Weather { loss, burst_start: 1.0, burst_end: 0.0, ..Weather::clean(turns, rtt_us) }
    }

    fn bursty(turns: u32, rtt_us: u32, loss: f64) -> Weather {
        Weather { loss, burst_start: 0.02, burst_end: 0.08, ..Weather::clean(turns, rtt_us) }
    }

    fn throttled(turns: u32, rtt_us: u32) -> Weather {
        Weather { loss: 1.0, burst_start: 0.12, burst_end: 0.75, ..Weather::clean(turns, rtt_us) }
    }
}

/// A small deterministic generator.
struct Noise(u64);

impl Noise {
    /// The next draw, in `0.0..1.0`.
    fn draw(&mut self) -> f64 {
        self.0 = self.0.wrapping_add(0x9e37_79b9_7f4a_7c15);
        let mut z = self.0;
        z = (z ^ (z >> 30)).wrapping_mul(0xbf58_476d_1ce4_e5b9);
        z = (z ^ (z >> 27)).wrapping_mul(0x94d0_49bb_1331_11eb);
        z ^= z >> 31;
        (z >> 11) as f64 / (1u64 << 53) as f64
    }
}

/// One client's link to its relay.
#[derive(Clone, Copy, Default)]
struct Link {
    bursting: bool,
    rtt_us: u32,
    sent: u64,
    lost: u64,
    /// Packets lost in a row, up to now.
    run: u32,
}

impl Link {
    fn step(&mut self, weather: &Weather, noise: &mut Noise) {
        let spread = 1.0 + weather.jitter * (2.0 * noise.draw() - 1.0);
        self.rtt_us = (f64::from(weather.rtt_us) * spread) as u32;
        let roll = noise.draw();
        self.bursting = if self.bursting {
            roll >= weather.burst_end
        } else {
            roll < weather.burst_start
        };
        self.sent += 1;
        if self.bursting && noise.draw() < weather.loss {
            self.lost += 1;
            self.run += 1;
        } else {
            self.run = 0;
        }
    }
}

/// A move of the buffer.
#[derive(Clone, Copy, Debug)]
struct Change {
    turn: u32,
    buffer: u32,
}

struct RunResult {
    /// Every move after the first depth was found.
    changes: Vec<Change>,
    buffer_by_turn: Vec<u32>,
    /// Turns on which some link's delivery needed more than the buffer.
    underrun_turns: u32,
}

impl RunResult {
    fn buffer_at(&self, turn: u32) -> u32 {
        self.buffer_by_turn[turn as usize]
    }

    fn changes_between(&self, from: u32, to: u32) -> Vec<Change> {
        self.changes.iter().copied().filter(|c| from <= c.turn && c.turn < to).collect()
    }

    /// How many shrinks were taken back, to where they came from, within `window` turns.
    fn dips_within(&self, window: u32) -> usize {
        self.changes
            .iter()
            .filter(|c| {
                let before = self.buffer_at(c.turn - 1);
                c.buffer < before
                    && self
                        .changes
                        .iter()
                        .any(|d| c.turn < d.turn && d.turn <= c.turn + window && d.buffer >= before)
            })
            .count()
    }
}

/// Plays `phases` to a two-player session, one report per player and turn.
fn run(law: ControlLaw, phases: &[Weather], seed: u64) -> RunResult {
    let key = SessionKey { tenant: TenantId(String::from("weather")), session: SessionId(seed) };
    let bounds = BufferBounds { min: 1, max: 10 };
    let mut maker = DecisionMaker::new(key, bounds, law, Authority::SelfRelay, OrdSet::new());
    let mut noise = Noise(seed);
    let mut links = [Link::default(), Link::default()];
    let mut result = RunResult { changes: Vec::new(), buffer_by_turn: Vec::new(), underrun_turns: 0 };
    let mut turn: u32 = 0;
    for weather in phases {
        for _ in 0..weather.turns {
            let now = Instant { nanos: u64::from(turn) * u64::from(law.turn_duration_us) * 1_000 };
            let mut slots = Vec::new();
            for (id, link) in links.iter_mut().enumerate() {
                link.step(weather, &mut noise);
                maker.observe_frame(SlotId(id as u8), GameFrameCount(turn));
                slots.push(SlotConditions {
                    slot: id as u32,
                    rtt_us: link.rtt_us,
                    lost_packets: link.lost,
                    sent_packets: link.sent,
                    connection_epoch: None,
                });
            }
            maker.ingest_local(&LinkConditions { slots }, now);

            let buffer = maker.buffer().0;
            let path_us = (links[0].rtt_us + links[1].rtt_us) / 2;
            let path_turns = path_us.div_ceil(law.turn_duration_us);
            if links.iter().any(|link| path_turns + link.run > buffer) {
                result.underrun_turns += 1;
            }
            if let Some(&before) = result.buffer_by_turn.last() {
                if before != buffer {
                    result.changes.push(Change { turn, buffer });
                }
            }
            result.buffer_by_turn.push(buffer);
            turn += 1;
        }
    }
    result
}

/// A clean, stable network: after the initial adaptation the buffer must
/// simply sit still.
#[test]
fn clean_network_holds_one_buffer() {
    for seed in [3, 17, 4242] {
        let result = run(
            ControlLaw::default(),
            &[Weather::clean(seconds(180), 150_000)],
            seed,
        );
        assert!(
            result.changes.len() <= 2,
            "seed {seed}: a clean network churned past its adaptation: {:?}",
            result.changes,
        );
        assert_eq!(result.dips_within(seconds(20)), 0, "seed {seed}");
    }
}

/// The clumsy case that motivated the sustained-shrink rule: sustained
/// uniform packet loss. The buffer must adapt up and then *park* -- no
/// shrink-and-re-raise churn on the dwell cadence -- while still covering
/// delivery (bounded underruns).
#[test]
fn sustained_random_loss_parks_the_buffer() {
    for seed in [7, 99, 1234] {
        let phases = [
            Weather::clean(seconds(20), 150_000),
            Weather::random_loss(seconds(120), 150_000, 0.10),
        ];
        let result = run(ControlLaw::default(), &phases, seed);

        // One probe dip is the price of discovering an edge whose peaks
        // recur past the lookback; the burn it earns must keep it from
        // ever becoming a cadence.
        assert!(
            result.dips_within(seconds(20)) <= 1,
            "seed {seed}: the buffer flapped: {:?}",
            result.changes,
        );
        // Once the loss phase has been running a few seconds, the buffer
        // is adapted; from there it must be effectively parked. Allow a
        // couple of late escalations (loss keeps randomly clustering) and
        // the single probe pair, but nothing like the one-change-per-dwell
        // flap this replaces (~22 for this window).
        let settled = result.changes_between(seconds(30), seconds(140));
        assert!(
            settled.len() <= 4,
            "seed {seed}: churn while parked: {settled:?}",
        );
        // The parked buffer actually covers the weather. The proxy counts
        // a turn whenever *either* link's delivery need exceeded the
        // cushion; 2% of a 2-minute lossy stretch is a handful of brief
        // hiccups, not the recurring micro-stutter of an undersized buffer.
        let lossy_turns = seconds(120);
        assert!(
            result.underrun_turns <= lossy_turns / 50,
            "seed {seed}: {} underrun turns of {lossy_turns}",
            result.underrun_turns,
        );
    }
}

/// After the loss clears, the buffer must come back down -- monotonically,
/// within a bounded time -- rather than sticking at the high-water mark or
/// oscillating on the way down.
#[test]
fn recovery_descends_monotonically_and_promptly() {
    for seed in [11, 555, 90210] {
        let phases = [
            Weather::clean(seconds(20), 150_000),
            Weather::random_loss(seconds(60), 150_000, 0.10),
            Weather::clean(seconds(120), 150_000),
        ];
        let result = run(ControlLaw::default(), &phases, seed);

        let recovery_start = seconds(20 + 60);
        let recovery = result.changes_between(recovery_start, seconds(200));
        assert!(
            recovery
                .windows(2)
                .all(|pair| pair[1].buffer < pair[0].buffer),
            "seed {seed}: non-monotonic recovery: {recovery:?}",
        );

        // The descent is bounded: the shrink lookback (~25s) has to age the
        // loss-era peaks out, then one dwell (~5s) per step down. 65s
        // covers the ~6 steps this weather needs with margin. The endpoint
        // is the clean steady state the first phase found.
        let clean_buffer = result.buffer_at(seconds(19));
        let recovered = result.buffer_at(recovery_start + seconds(65));
        assert!(
            recovered <= clean_buffer + 1,
            "seed {seed}: stuck high after recovery: {recovered} vs clean {clean_buffer}",
        );
        assert!(result.dips_within(seconds(20)) <= 1, "seed {seed}");
    }
}

/// Loss arriving in short bursts every couple of seconds -- the bad-wifi
/// shape. The gaps between bursts are exactly what an instantaneous
/// estimator mistakes for recovery; the law must ride through them.
#[test]
fn bursty_loss_does_not_flap() {
    for seed in [23, 808, 31337] {
        let phases = [
            Weather::clean(seconds(20), 150_000),
            Weather::bursty(seconds(150), 150_000, 0.35),
        ];
        let result = run(ControlLaw::default(), &phases, seed);

        // Probe dips are capped by the burn budget; past that the edge is
        // parked for good.
        assert!(
            result.dips_within(seconds(20)) <= 2,
            "seed {seed}: flapped between bursts: {:?}",
            result.changes,
        );
        // Bursty weather is genuinely non-stationary at the target level
        // -- burst clusters of different depths keep re-pricing it -- so
        // raises tracking it are correct, not churn. Bound the total well
        // below the dwell cadence's worst case (a change every ~5s would
        // be ~22 for this window).
        let settled = result.changes_between(seconds(60), seconds(170));
        assert!(
            settled.len() <= 8,
            "seed {seed}: churn while settled: {settled:?}",
        );
    }
}

/// The clumsy shape that motivated the burst term: short full blackouts
/// recurring several times a second. The mean loss rate alone
/// under-provisions this weather; with the burst term the parked buffer
/// must actually cover it (rare underruns), and stay parked.
#[test]
fn throttle_blackouts_are_covered_and_parked() {
    for seed in [5, 42, 777] {
        let phases = [
            Weather::clean(seconds(20), 150_000),
            Weather::throttled(seconds(120), 150_000),
        ];
        let result = run(ControlLaw::default(), &phases, seed);

        assert!(
            result.dips_within(seconds(20)) <= 2,
            "seed {seed}: flapped: {:?}",
            result.changes,
        );
        let settled = result.changes_between(seconds(45), seconds(140));
        assert!(settled.len() <= 6, "seed {seed}: churn: {settled:?}");
        // Blackouts here run ~1-2 turns; a buffer sized by the burst term
        // rides out nearly all of them. 1% of the lossy stretch is a
        // couple of brief hiccups, not recurring micro-stutter.
        let lossy_turns = seconds(120);
        assert!(
            result.underrun_turns <= lossy_turns / 100,
            "seed {seed}: {} underrun turns of {lossy_turns}",
            result.underrun_turns,
        );
    }
}

/// Peaks recurring just *past* the base lookback -- the exact bait for an
/// edge dip (shrink at lookback expiry, disproven by the next peak).
/// Probation limits the law to at most one dip per episode.
#[test]
fn peaks_just_past_the_lookback_dip_at_most_once() {
    for seed in [9, 314, 2718] {
        // A 1s 260ms RTT spike every 30s riding on a 200ms base: the
        // target peaks 1 turn above its resting level, with the peaks
        // spaced wider than the base shrink lookback.
        let mut phases = vec![Weather::clean(seconds(5), 200_000)];
        for _ in 0..7 {
            phases.push(Weather::clean(seconds(1), 260_000));
            phases.push(Weather::clean(seconds(29), 200_000));
        }
        let result = run(ControlLaw::default(), &phases, seed);

        // The one allowed probe: shrink at lookback expiry, disproven by
        // the next spike, burned -- and then parked for the remaining
        // cycles.
        assert!(result.dips_within(seconds(20)) <= 1, "seed {seed}");
        let settled = result.changes_between(seconds(40), seconds(215));
        assert!(settled.len() <= 2, "seed {seed}: edge churn: {settled:?}");
    }
}

/// RTT riding a few milliseconds under a whole-turn boundary, with brief
/// few-ms excursions across it -- the boundary-hover shape that used to
/// flip the buffer between adjacent sizes on sub-ms RTT noise. The shrink
/// headroom refuses those shrinks outright, so the buffer parks at the
/// covering size with zero dips (not even probation's one-per-episode).
#[test]
fn a_boundary_hovering_rtt_parks_the_buffer_with_no_dips() {
    for seed in [13, 606, 5150] {
        // Base path a hair under the 4-turn boundary (166,664us): raw
        // target 4, margined path pinned at 5. Excursions to ~170ms every
        // 30s price the 5 the headroom then refuses to give back.
        let hover = Weather {
            turns: seconds(29),
            rtt_us: 163_000,
            jitter: 0.01,
            loss: 0.0,
            burst_start: 0.0,
            burst_end: 1.0,
        };
        let spike = Weather {
            turns: seconds(1),
            rtt_us: 170_000,
            ..hover
        };
        let mut phases = vec![Weather {
            turns: seconds(5),
            ..hover
        }];
        for _ in 0..7 {
            phases.push(spike);
            phases.push(hover);
        }
        let result = run(ControlLaw::default(), &phases, seed);

        assert_eq!(
            result.dips_within(seconds(20)),
            0,
            "seed {seed}: dipped on the boundary: {:?}",
            result.changes,
        );
        // After the first excursion prices the covering size, the buffer
        // must simply sit still for the rest of the session.
        let settled = result.changes_between(seconds(10), seconds(215));
        assert!(
            settled.is_empty(),
            "seed {seed}: boundary churn: {settled:?}"
        );
    }
}
