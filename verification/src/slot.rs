//! One slot's condition history, and the states of its connection.
use crate::ids::max_frame;
use crate::ids::GameFrameCount;
use crate::law::BucketedMax;
use crate::law::BucketsView;
use crate::law::RttWindow;
use crate::law::BLACKOUT_RUN_BUCKETS;
use crate::law::BURST_TURNS_CAP;
use crate::law::LOSS_SNAPSHOT_COUNT;
use crate::law::MIN_LOSS_WINDOW_SENT;
use crate::law::OUTAGE_GAP_MIN_NANOS;
use crate::law::OUTAGE_LOSS_RESOLUTION_MAX_AGE_NANOS;
use crate::law::OUTAGE_LOSS_RESOLUTION_SAMPLES;
use crate::time::Duration;
use crate::time::Instant;
use std::collections::VecDeque;
use vstd::prelude::*;

verus! {

/// One accepted cumulative-counter endpoint, retained so a later sample can be
/// differenced against it for a loss rate over the intervening packets.
#[derive(Clone, Copy, Debug, PartialEq, Eq, Structural)]
pub struct LossSnapshot {
    /// Cumulative lost packets at the time of the snapshot.
    pub lost: u64,
    /// Cumulative sent packets at the time of the snapshot.
    pub sent: u64,
    /// The slot's count of advancing samples when the snapshot was taken.
    pub at_sample: u32,
}

/// One outage gap's banked absorption credit: how many of that gap's sends were not
/// yet declared lost when the gap closed, and the two deadlines past which the credit
/// absorbs nothing. A zero credit is an empty pool.
#[derive(Clone, Copy, Debug, PartialEq, Eq, Structural)]
pub struct OutagePool {
    pub credit: u64,
    /// The advancing-sample count at which the credit expires.
    pub deadline: u32,
    /// The wall-clock reading at which the credit expires; banking always stamps one.
    pub expires_at: Option<Instant>,
}

/// How one cumulative-counter sample was taken in.
#[derive(Clone, Copy, Debug, PartialEq, Eq, Structural)]
pub enum CounterUpdate {
    /// The first sample: it only establishes where the counters stand.
    Baseline,
    /// More packets were sent, in flowing weather.
    Advanced,
    /// More packets were sent, across a receive gap long enough to be an outage.
    OutageRebaselined,
    /// No more packets were sent, but more were declared lost.
    LossAdvanced,
    /// Nothing moved.
    NonAdvancing,
    /// A counter went backwards.
    Stale,
}

/// An exact loss rate: `lost` of `sent` packets, with `lost <= sent`.
#[derive(Clone, Copy, Debug, PartialEq, Eq, Structural)]
pub struct LossRate {
    pub lost: u64,
    pub sent: u64,
}

impl LossRate {
    /// Whether this rate is at least `other`, as fractions.
    pub open spec fn at_least(self, other: LossRate) -> bool {
        self.lost * other.sent >= other.lost * self.sent
    }
}

impl OutagePool {
    pub open spec fn empty() -> OutagePool {
        OutagePool { credit: 0, deadline: 0, expires_at: None }
    }

    /// Whether the wall clock has passed the pool's deadline.
    pub open spec fn wall_expired(self, now: Instant) -> bool {
        match self.expires_at {
            None => true,
            Some(at) => now.nanos >= at.nanos,
        }
    }

    /// How much the pool can still absorb at sample `at`; with no wall reading the
    /// wall-clock deadline is not enforced.
    pub open spec fn live_credit(self, at: u32, wall: Option<Instant>) -> u64 {
        if at >= self.deadline || (wall is Some && self.wall_expired(wall->0)) {
            0
        } else {
            self.credit
        }
    }

    /// The pool after absorbing `take` at sample `at`.
    pub open spec fn drained(self, at: u32, wall: Option<Instant>, take: u64) -> OutagePool {
        OutagePool { credit: (self.live_credit(at, wall) - take) as u64, ..self }
    }

    /// The pool with credit past its wall-clock deadline dropped.
    pub open spec fn swept(self, now: Instant) -> OutagePool {
        if self.wall_expired(now) {
            OutagePool { credit: 0, ..self }
        } else {
            self
        }
    }

    fn is_wall_expired(&self, now: Instant) -> (r: bool)
        ensures
            r == self.wall_expired(now),
    {
        match self.expires_at {
            None => true,
            Some(at) => now.nanos >= at.nanos,
        }
    }

    /// Absorbs what it can of `remaining` declared losses.
    fn drain(&mut self, at: u32, wall: Option<Instant>, remaining: u64) -> (take: u64)
        ensures
            take == min_u64(remaining, old(self).live_credit(at, wall)),
            *final(self) == old(self).drained(at, wall, take),
    {
        let expired = match wall {
            Some(now) => self.is_wall_expired(now),
            None => false,
        };
        if at >= self.deadline || expired {
            self.credit = 0;
            return 0;
        }
        let take: u64 = if remaining <= self.credit { remaining } else { self.credit };
        self.credit = self.credit - take;
        take
    }

    fn sweep(&mut self, now: Instant)
        ensures
            *final(self) == old(self).swept(now),
    {
        if self.is_wall_expired(now) {
            self.credit = 0;
        }
    }
}

pub open spec fn min_u64(a: u64, b: u64) -> u64 {
    if a <= b { a } else { b }
}

/// What a slot's history says, as mathematical values.
#[verifier::ext_equal]
pub struct SlotView {
    /// The recent RTT samples, oldest first.
    pub rtts: Seq<u32>,
    pub mesh_rtt_us: u32,
    pub frame: Option<GameFrameCount>,
    pub frame_history: Seq<(u64, u32)>,
    pub newest_framed_seq: Option<u64>,
    pub last_forward_advance_at: Option<Instant>,
    pub connection_up_at: Option<Instant>,
    pub frame_regression_reported: bool,
    pub curr_lost: u64,
    pub curr_sent: u64,
    /// The retained counter endpoints, oldest first.
    pub snapshots: Seq<LossSnapshot>,
    pub advancing_samples: u32,
    pub blackout_run: u32,
    pub blackout_runs: BucketsView,
    pub seen: bool,
    pub last_sender_rtt_us: Option<u32>,
    pub last_sample_at: Option<Instant>,
    /// The pools of the last two outages.
    pub older_pool: OutagePool,
    pub newer_pool: OutagePool,
}

impl SlotView {
    /// A slot nothing is known of.
    pub open spec fn fresh() -> SlotView {
        SlotView {
            rtts: Seq::empty(),
            mesh_rtt_us: 0,
            frame: None,
            frame_history: Seq::empty(),
            newest_framed_seq: None,
            last_forward_advance_at: None,
            connection_up_at: None,
            frame_regression_reported: false,
            curr_lost: 0,
            curr_sent: 0,
            snapshots: Seq::empty(),
            advancing_samples: 0,
            blackout_run: 0,
            blackout_runs: BucketsView::fresh(BLACKOUT_RUN_BUCKETS as nat),
            seen: false,
            last_sender_rtt_us: None,
            last_sample_at: None,
            older_pool: OutagePool::empty(),
            newer_pool: OutagePool::empty(),
        }
    }

    /// Everything the link taught is forgotten; what the game taught stays.
    pub open spec fn reset_link_conditions(self) -> SlotView {
        SlotView {
            frame: self.frame,
            frame_history: self.frame_history,
            newest_framed_seq: self.newest_framed_seq,
            last_forward_advance_at: self.last_forward_advance_at,
            connection_up_at: self.connection_up_at,
            frame_regression_reported: self.frame_regression_reported,
            ..SlotView::fresh()
        }
    }

    /// Whether a stamp is below the newest frame at a higher sequence number, for the
    /// first time.
    pub open spec fn regresses(self, seq: u64, frame: GameFrameCount) -> bool {
        self.newest_framed_seq is Some && self.frame is Some && seq > self.newest_framed_seq->0 && frame.0
            < (self.frame->0).0 && !self.frame_regression_reported
    }

    /// One stamped turn taken in; the last `cap` stamps are kept.
    pub open spec fn note_turn(self, seq: u64, frame: GameFrameCount, cap: int) -> SlotView {
        SlotView {
            frame_regression_reported: self.frame_regression_reported || self.regresses(seq, frame),
            newest_framed_seq: Some(
                match self.newest_framed_seq {
                    Some(newest) => if seq > newest { seq } else { newest },
                    None => seq,
                },
            ),
            frame: crate::ids::later_frame(self.frame, Some(frame)),
            frame_history: last_entries(self.frame_history.push((seq, frame.0)), cap),
            ..self
        }
    }

    pub open spec fn rtt(self) -> u32 {
        crate::law::max_of(self.rtts)
    }

    /// The recent worst RTT with the mesh hop on top.
    pub open spec fn eff_rtt(self) -> u32 {
        self.rtt().saturating_add(self.mesh_rtt_us)
    }

    pub open spec fn burst_turns(self) -> u32 {
        let worst = self.blackout_runs.max_over_last(BLACKOUT_RUN_BUCKETS as int);
        if worst <= BURST_TURNS_CAP { worst } else { BURST_TURNS_CAP }
    }

    /// The current endpoint joins the retained ones, the oldest leaving a full ring.
    pub open spec fn push_loss_snapshot(self) -> SlotView {
        let kept = if self.snapshots.len() < LOSS_SNAPSHOT_COUNT { self.snapshots } else { self.snapshots.skip(1) };
        SlotView {
            snapshots: kept.push(LossSnapshot {
                lost: self.curr_lost,
                sent: self.curr_sent,
                at_sample: self.advancing_samples,
            }),
            ..self
        }
    }

    /// How many of `declared` losses the pools absorb.
    pub open spec fn absorbable(self, declared: u64, wall: Option<Instant>) -> u64 {
        let first = min_u64(declared, self.older_pool.live_credit(self.advancing_samples, wall));
        let second = min_u64(
            (declared - first) as u64,
            self.newer_pool.live_credit(self.advancing_samples, wall),
        );
        (first + second) as u64
    }

    /// The older pool absorbs first, then the newer one; expired credit is dropped.
    pub open spec fn drain_pools(self, declared: u64, wall: Option<Instant>) -> SlotView {
        let at = self.advancing_samples;
        let first = min_u64(declared, self.older_pool.live_credit(at, wall));
        let second = min_u64((declared - first) as u64, self.newer_pool.live_credit(at, wall));
        SlotView {
            older_pool: self.older_pool.drained(at, wall, first),
            newer_pool: self.newer_pool.drained(at, wall, second),
            ..self
        }
    }

    /// Retained endpoints moved up by `absorbed` losses, so that differences against
    /// them do not count what an outage explains.
    pub open spec fn lift_snapshots(self, absorbed: u64) -> SlotView {
        SlotView {
            snapshots: self.snapshots.map_values(
                |s: LossSnapshot| LossSnapshot { lost: s.lost.saturating_add(absorbed), ..s },
            ),
            ..self
        }
    }

    /// Whether the time since the last sample is an outage.
    pub open spec fn gap_is_outage(self, now: Instant) -> bool {
        match self.last_sample_at {
            None => false,
            Some(at) => now.spec_since(at).nanos >= OUTAGE_GAP_MIN_NANOS,
        }
    }

    /// What a sample does to the counters.
    pub open spec fn counter_update(self, lost: u64, sent: u64, now: Instant) -> CounterUpdate {
        if !self.seen {
            CounterUpdate::Baseline
        } else if sent < self.curr_sent || lost < self.curr_lost {
            CounterUpdate::Stale
        } else if sent == self.curr_sent {
            if lost > self.curr_lost {
                CounterUpdate::LossAdvanced
            } else {
                CounterUpdate::NonAdvancing
            }
        } else if self.gap_is_outage(now) {
            CounterUpdate::OutageRebaselined
        } else {
            CounterUpdate::Advanced
        }
    }

    /// The first sample.
    pub open spec fn baselined(self, lost: u64, sent: u64, now: Instant) -> SlotView {
        SlotView {
            curr_lost: lost,
            curr_sent: sent,
            seen: true,
            last_sample_at: Some(now),
            ..self
        }.push_loss_snapshot()
    }

    /// More losses declared at the same sent-packet endpoint: the endpoint is refined,
    /// and older endpoints are lifted by what the outage pools absorb.
    pub open spec fn loss_refined(self, lost: u64, now: Instant) -> SlotView {
        let declared = (lost - self.curr_lost) as u64;
        let absorbed = self.absorbable(declared, Some(now));
        let sent = self.curr_sent;
        SlotView {
            last_sample_at: Some(now),
            curr_lost: lost,
            snapshots: self.snapshots.map_values(
                |s: LossSnapshot|
                    if s.sent == sent {
                        LossSnapshot { lost: lost, ..s }
                    } else {
                        LossSnapshot { lost: s.lost.saturating_add(absorbed), ..s }
                    },
            ),
            ..self.drain_pools(declared, Some(now))
        }
    }

    /// An interval of flowing weather: losses an outage explains are absorbed, the rest
    /// prolong or end the blackout run.
    pub open spec fn advanced(self, lost: u64, sent: u64, interval: u32, span: u32, now: Instant) -> SlotView {
        let declared = (lost - self.curr_lost) as u64;
        let absorbed = self.absorbable(declared, Some(now));
        let run = if declared - absorbed >= sent - self.curr_sent {
            self.blackout_run.saturating_add(1)
        } else {
            0
        };
        let samples = self.advancing_samples.saturating_add(1);
        let next = SlotView {
            last_sample_at: Some(now),
            curr_lost: lost,
            curr_sent: sent,
            advancing_samples: samples,
            blackout_run: run,
            blackout_runs: self.blackout_runs.observe(samples, run, span),
            ..self.drain_pools(declared, Some(now)).lift_snapshots(absorbed)
        };
        if samples.is_multiple_of(interval) {
            next.push_loss_snapshot()
        } else {
            next
        }
    }

    /// An outage interval: the windows restart from its end, and what it sent without
    /// a verdict is banked as credit for late declarations.
    pub open spec fn rebaselined(self, lost: u64, sent: u64, span: u32, now: Instant) -> SlotView {
        let declared = (lost - self.curr_lost) as u64;
        let residual = (declared - self.absorbable(declared, None)) as u64;
        let fresh = ((sent - self.curr_sent) as u64).saturating_sub(residual);
        let drained = self.drain_pools(declared, None);
        let older = drained.older_pool.swept(now);
        let newer = drained.newer_pool.swept(now);
        let samples = self.advancing_samples.saturating_add(1);
        let next = SlotView {
            last_sample_at: Some(now),
            curr_lost: lost,
            curr_sent: sent,
            advancing_samples: samples,
            blackout_run: 0,
            blackout_runs: self.blackout_runs.observe(samples, 0, span),
            snapshots: Seq::empty(),
            older_pool: if fresh > 0 && newer.credit > 0 { newer } else { older },
            newer_pool: if fresh > 0 {
                OutagePool {
                    credit: fresh,
                    deadline: samples.saturating_add(OUTAGE_LOSS_RESOLUTION_SAMPLES),
                    expires_at: Some(
                        now.spec_plus(Duration { nanos: OUTAGE_LOSS_RESOLUTION_MAX_AGE_NANOS }),
                    ),
                }
            } else {
                newer
            },
            ..self
        };
        next.push_loss_snapshot()
    }

    pub open spec fn update_counters(self, lost: u64, sent: u64, interval: u32, span: u32, now: Instant) -> SlotView {
        match self.counter_update(lost, sent, now) {
            CounterUpdate::Baseline => self.baselined(lost, sent, now),
            CounterUpdate::Advanced => self.advanced(lost, sent, interval, span, now),
            CounterUpdate::OutageRebaselined => self.rebaselined(lost, sent, span, now),
            CounterUpdate::LossAdvanced => self.loss_refined(lost, now),
            CounterUpdate::NonAdvancing | CounterUpdate::Stale => self,
        }
    }

    /// The loss rate since `snapshot`, where enough was sent to report one.
    pub open spec fn loss_rate_since(self, snapshot: LossSnapshot) -> Option<LossRate> {
        let sent = self.curr_sent.saturating_sub(snapshot.sent);
        let lost = self.curr_lost.saturating_sub(snapshot.lost);
        if sent < MIN_LOSS_WINDOW_SENT {
            None
        } else {
            Some(LossRate { lost: min_u64(lost, sent), sent })
        }
    }

    /// The newest of the first `n` endpoints that is `attack` samples old, or the
    /// oldest one where none is.
    pub open spec fn attack_anchor(self, n: int, attack: u32) -> LossSnapshot
        decreases n,
    {
        if n <= 0 {
            self.snapshots[0]
        } else if self.advancing_samples.saturating_sub(self.snapshots[n - 1].at_sample) >= attack {
            self.snapshots[n - 1]
        } else {
            self.attack_anchor(n - 1, attack)
        }
    }

    /// The worse of the loss rates over the short window and over the long one.
    pub open spec fn windowed_loss_rate(self, attack: u32) -> Option<LossRate> {
        if self.snapshots.len() == 0 {
            None
        } else {
            let short = self.loss_rate_since(self.attack_anchor(self.snapshots.len() as int, attack));
            let long = self.loss_rate_since(self.snapshots[0]);
            match (short, long) {
                (Some(a), Some(m)) => if a.at_least(m) { Some(a) } else { Some(m) },
                (Some(a), None) => Some(a),
                (None, m) => m,
            }
        }
    }
}

/// The last `cap` of `s`.
pub open spec fn last_entries<T>(s: Seq<T>, cap: int) -> Seq<T> {
    if s.len() <= cap { s } else { s.skip(s.len() - cap) }
}

/// One slot's condition history: RTT samples for jitter-aware sizing, and cumulative
/// loss counters differenced against decimated snapshots over a short window that
/// reacts to a fresh burst and a long one that remembers it.
///
/// `mesh_rtt_us` is the mesh hop from the authority relay to the slot's home relay, 0
/// for a slot homed here.
pub struct SlotState {
    pub(crate) rtt_window: RttWindow,
    pub(crate) mesh_rtt_us: u32,
    pub(crate) frame: Option<GameFrameCount>,
    /// Recent turns' sequence numbers and frame stamps, oldest first.
    pub(crate) frame_history: VecDeque<(u64, u32)>,
    pub(crate) newest_framed_seq: Option<u64>,
    pub(crate) last_forward_advance_at: Option<Instant>,
    pub(crate) connection_up_at: Option<Instant>,
    pub(crate) frame_regression_reported: bool,
    pub(crate) curr_lost: u64,
    pub(crate) curr_sent: u64,
    pub(crate) loss_snapshots: Vec<LossSnapshot>,
    pub(crate) advancing_samples: u32,
    pub(crate) blackout_run: u32,
    pub(crate) blackout_runs: BucketedMax<8>,
    pub(crate) seen: bool,
    pub(crate) last_sender_rtt_us: Option<u32>,
    pub(crate) last_sample_at: Option<Instant>,
    pub(crate) older_pool: OutagePool,
    pub(crate) newer_pool: OutagePool,
}

impl View for SlotState {
    type V = SlotView;

    open(crate) spec fn view(&self) -> SlotView {
        SlotView {
            rtts: self.rtt_window@,
            mesh_rtt_us: self.mesh_rtt_us,
            frame: self.frame,
            frame_history: self.frame_history@,
            newest_framed_seq: self.newest_framed_seq,
            last_forward_advance_at: self.last_forward_advance_at,
            connection_up_at: self.connection_up_at,
            frame_regression_reported: self.frame_regression_reported,
            curr_lost: self.curr_lost,
            curr_sent: self.curr_sent,
            snapshots: self.loss_snapshots@,
            advancing_samples: self.advancing_samples,
            blackout_run: self.blackout_run,
            blackout_runs: self.blackout_runs@,
            seen: self.seen,
            last_sender_rtt_us: self.last_sender_rtt_us,
            last_sample_at: self.last_sample_at,
            older_pool: self.older_pool,
            newer_pool: self.newer_pool,
        }
    }
}

fn empty_pool() -> (r: OutagePool)
    ensures
        r == OutagePool::empty(),
{
    OutagePool { credit: 0, deadline: 0, expires_at: None }
}

impl SlotState {
    /// A slot nothing is known of.
    pub fn new() -> (r: SlotState)
        ensures
            r@ == SlotView::fresh(),
    {
        SlotState {
            rtt_window: RttWindow::new(),
            mesh_rtt_us: 0,
            frame: None,
            frame_history: VecDeque::new(),
            newest_framed_seq: None,
            last_forward_advance_at: None,
            connection_up_at: None,
            frame_regression_reported: false,
            curr_lost: 0,
            curr_sent: 0,
            loss_snapshots: Vec::new(),
            advancing_samples: 0,
            blackout_run: 0,
            blackout_runs: BucketedMax::new(),
            seen: false,
            last_sender_rtt_us: None,
            last_sample_at: None,
            older_pool: empty_pool(),
            newer_pool: empty_pool(),
        }
    }

    /// Forgets what a superseded link taught.
    pub(crate) fn reset_link_conditions(&mut self)
        ensures
            final(self)@ == old(self)@.reset_link_conditions(),
    {
        self.rtt_window = RttWindow::new();
        self.mesh_rtt_us = 0;
        self.curr_lost = 0;
        self.curr_sent = 0;
        self.loss_snapshots = Vec::new();
        self.advancing_samples = 0;
        self.blackout_run = 0;
        self.blackout_runs = BucketedMax::new();
        self.seen = false;
        self.last_sender_rtt_us = None;
        self.last_sample_at = None;
        self.older_pool = empty_pool();
        self.newer_pool = empty_pool();
    }

    /// Takes a stamped turn in; where its stamp regresses for the first time, the frame it
    /// regresses from.
    pub(crate) fn note_turn(&mut self, seq: u64, frame: GameFrameCount, cap: u64) -> (r: Option<GameFrameCount>)
        ensures
            r == if old(self)@.regresses(seq, frame) { old(self)@.frame } else { None },
            final(self)@ == old(self)@.note_turn(seq, frame, cap as int),
    {
        let regressed = match (self.newest_framed_seq, self.frame) {
            (Some(newest), Some(prior)) => {
                if seq > newest && frame.0 < prior.0 && !self.frame_regression_reported {
                    self.frame_regression_reported = true;
                    Some(prior)
                } else {
                    None
                }
            },
            _ => None,
        };
        let newer = match self.newest_framed_seq {
            Some(newest) => seq > newest,
            None => true,
        };
        if newer {
            self.newest_framed_seq = Some(seq);
        }
        self.frame = max_frame(self.frame, Some(frame));
        self.frame_history.push_back((seq, frame.0));
        let ghost full = self.frame_history@;
        let ghost mid = self@;
        while self.frame_history.len() as u64 > cap
            invariant
                full.len() > 0,
                self@ == (SlotView { frame_history: self.frame_history@, ..mid }),
                self.frame_history@.len() <= full.len(),
                self.frame_history@ == full.skip(full.len() - self.frame_history@.len()),
                self.frame_history@.len() < full.len() ==> self.frame_history@.len() >= cap,
            decreases self.frame_history@.len(),
        {
            let _oldest = self.frame_history.pop_front();
            assert(self.frame_history@ =~= full.skip(full.len() - self.frame_history@.len()));
        }
        assert(self.frame_history@ =~= last_entries(full, cap as int));
        regressed
    }

    /// The recent worst RTT, 0 while unmeasured.
    pub(crate) fn rtt(&self) -> (r: u32)
        ensures
            r == self@.rtt(),
    {
        self.rtt_window.max()
    }

    /// The recent worst RTT with the mesh hop on top.
    pub(crate) fn eff_rtt(&self) -> (r: u32)
        ensures
            r == self@.eff_rtt(),
    {
        self.rtt().saturating_add(self.mesh_rtt_us)
    }

    /// Takes one sample of the cumulative counters in.
    pub(crate) fn update_counters(
        &mut self,
        lost_packets: u64,
        sent_packets: u64,
        snapshot_interval: u32,
        run_bucket_span: u32,
        now: Instant,
    ) -> (r: CounterUpdate)
        ensures
            r == old(self)@.counter_update(lost_packets, sent_packets, now),
            final(self)@ == old(self)@.update_counters(
                lost_packets,
                sent_packets,
                snapshot_interval,
                run_bucket_span,
                now,
            ),
    {
        if !self.seen {
            self.curr_lost = lost_packets;
            self.curr_sent = sent_packets;
            self.seen = true;
            self.last_sample_at = Some(now);
            self.push_loss_snapshot();
            return CounterUpdate::Baseline;
        }
        if sent_packets < self.curr_sent || lost_packets < self.curr_lost {
            return CounterUpdate::Stale;
        }
        if sent_packets == self.curr_sent {
            if lost_packets > self.curr_lost {
                self.last_sample_at = Some(now);
                let absorbed: u64 = self.absorb_outage_losses(lost_packets - self.curr_lost, now);
                self.curr_lost = lost_packets;
                self.refine_snapshots(lost_packets, absorbed);
                return CounterUpdate::LossAdvanced;
            }
            return CounterUpdate::NonAdvancing;
        }
        let delta_sent: u64 = sent_packets - self.curr_sent;
        let delta_lost: u64 = lost_packets - self.curr_lost;
        let outage = match self.last_sample_at {
            None => false,
            Some(at) => now.since(at).nanos >= OUTAGE_GAP_MIN_NANOS,
        };
        self.last_sample_at = Some(now);
        if outage {
            self.rebaseline_after_outage(lost_packets, sent_packets, run_bucket_span, now);
            return CounterUpdate::OutageRebaselined;
        }
        let absorbed: u64 = self.absorb_outage_losses(delta_lost, now);
        let weather_lost: u64 = delta_lost - absorbed;
        self.lift_snapshots(absorbed);
        if weather_lost >= delta_sent {
            self.blackout_run = self.blackout_run.saturating_add(1);
        } else {
            self.blackout_run = 0;
        }
        self.curr_lost = lost_packets;
        self.curr_sent = sent_packets;
        self.advancing_samples = self.advancing_samples.saturating_add(1);
        self.blackout_runs.observe(self.advancing_samples, self.blackout_run, run_bucket_span);
        if self.advancing_samples.is_multiple_of(snapshot_interval) {
            self.push_loss_snapshot();
        }
        CounterUpdate::Advanced
    }

    /// Excludes an outage interval from the loss windows and banks its unresolved
    /// sends as absorption credit.
    fn rebaseline_after_outage(&mut self, lost_packets: u64, sent_packets: u64, run_bucket_span: u32, now: Instant)
        requires
            lost_packets >= old(self)@.curr_lost,
            sent_packets > old(self)@.curr_sent,
        ensures
            final(self)@ == old(self)@.rebaselined(lost_packets, sent_packets, run_bucket_span, now),
    {
        let delta_sent: u64 = sent_packets - self.curr_sent;
        let delta_lost: u64 = lost_packets - self.curr_lost;
        let consumed: u64 = self.drain_pools(delta_lost, None);
        let residual_declared: u64 = delta_lost - consumed;
        let fresh_undeclared: u64 = delta_sent.saturating_sub(residual_declared);
        self.older_pool.sweep(now);
        self.newer_pool.sweep(now);
        self.last_sample_at = Some(now);
        self.curr_lost = lost_packets;
        self.curr_sent = sent_packets;
        self.advancing_samples = self.advancing_samples.saturating_add(1);
        self.blackout_run = 0;
        self.blackout_runs.observe(self.advancing_samples, 0, run_bucket_span);
        self.loss_snapshots = Vec::new();
        self.push_loss_snapshot();
        if fresh_undeclared > 0 {
            if self.newer_pool.credit > 0 {
                self.older_pool = self.newer_pool;
            }
            self.newer_pool = OutagePool {
                credit: fresh_undeclared,
                deadline: self.advancing_samples.saturating_add(OUTAGE_LOSS_RESOLUTION_SAMPLES),
                expires_at: Some(now.plus(Duration { nanos: OUTAGE_LOSS_RESOLUTION_MAX_AGE_NANOS })),
            };
        }
    }

    /// Absorbs declared losses into live outage credit, with both deadlines enforced.
    fn absorb_outage_losses(&mut self, declared: u64, now: Instant) -> (absorbed: u64)
        ensures
            absorbed == old(self)@.absorbable(declared, Some(now)),
            absorbed <= declared,
            final(self)@ == old(self)@.drain_pools(declared, Some(now)),
    {
        self.drain_pools(declared, Some(now))
    }

    /// Absorbs declared losses into outage credit, oldest outage first.
    fn drain_pools(&mut self, declared: u64, wall: Option<Instant>) -> (absorbed: u64)
        ensures
            absorbed == old(self)@.absorbable(declared, wall),
            absorbed <= declared,
            final(self)@ == old(self)@.drain_pools(declared, wall),
    {
        let at: u32 = self.advancing_samples;
        let first: u64 = self.older_pool.drain(at, wall, declared);
        let second: u64 = self.newer_pool.drain(at, wall, declared - first);
        first + second
    }

    /// Retains the current counter endpoint.
    fn push_loss_snapshot(&mut self)
        ensures
            final(self)@ == old(self)@.push_loss_snapshot(),
    {
        if self.loss_snapshots.len() >= 16 {
            self.loss_snapshots.remove(0);
            assert(self.loss_snapshots@ =~= old(self).loss_snapshots@.skip(1));
        }
        self.loss_snapshots.push(
            LossSnapshot { lost: self.curr_lost, sent: self.curr_sent, at_sample: self.advancing_samples },
        );
    }

    fn lift_snapshots(&mut self, absorbed: u64)
        ensures
            final(self)@ == old(self)@.lift_snapshots(absorbed),
    {
        let mut i: usize = 0;
        while i < self.loss_snapshots.len()
            invariant
                i <= self.loss_snapshots@.len(),
                self.loss_snapshots@.len() == old(self).loss_snapshots@.len(),
                self@ == (SlotView { snapshots: self.loss_snapshots@, ..old(self)@ }),
                forall|j: int|
                    0 <= j < i ==> #[trigger] self.loss_snapshots@[j] == (LossSnapshot {
                        lost: old(self).loss_snapshots@[j].lost.saturating_add(absorbed),
                        ..old(self).loss_snapshots@[j]
                    }),
                forall|j: int|
                    i <= j < self.loss_snapshots@.len() ==> #[trigger] self.loss_snapshots@[j] == old(
                        self,
                    ).loss_snapshots@[j],
            decreases self.loss_snapshots@.len() - i,
        {
            let s = self.loss_snapshots[i];
            self.loss_snapshots.set(i, LossSnapshot { lost: s.lost.saturating_add(absorbed), ..s });
            i += 1;
        }
        assert(self@.snapshots =~= old(self)@.lift_snapshots(absorbed).snapshots);
    }

    fn refine_snapshots(&mut self, lost: u64, absorbed: u64)
        ensures
            final(self)@ == (SlotView {
                snapshots: old(self)@.snapshots.map_values(
                    |s: LossSnapshot|
                        if s.sent == old(self)@.curr_sent {
                            LossSnapshot { lost: lost, ..s }
                        } else {
                            LossSnapshot { lost: s.lost.saturating_add(absorbed), ..s }
                        },
                ),
                ..old(self)@
            }),
    {
        let ghost refine = |s: LossSnapshot|
            if s.sent == old(self)@.curr_sent {
                LossSnapshot { lost: lost, ..s }
            } else {
                LossSnapshot { lost: s.lost.saturating_add(absorbed), ..s }
            };
        let mut i: usize = 0;
        while i < self.loss_snapshots.len()
            invariant
                i <= self.loss_snapshots@.len(),
                self.loss_snapshots@.len() == old(self).loss_snapshots@.len(),
                self@ == (SlotView { snapshots: self.loss_snapshots@, ..old(self)@ }),
                forall|s: LossSnapshot| #[trigger] refine(s) == if s.sent == old(self)@.curr_sent {
                    LossSnapshot { lost: lost, ..s }
                } else {
                    LossSnapshot { lost: s.lost.saturating_add(absorbed), ..s }
                },
                forall|j: int|
                    0 <= j < i ==> #[trigger] self.loss_snapshots@[j] == refine(old(self).loss_snapshots@[j]),
                forall|j: int|
                    i <= j < self.loss_snapshots@.len() ==> #[trigger] self.loss_snapshots@[j] == old(
                        self,
                    ).loss_snapshots@[j],
            decreases self.loss_snapshots@.len() - i,
        {
            let s = self.loss_snapshots[i];
            if s.sent == self.curr_sent {
                self.loss_snapshots.set(i, LossSnapshot { lost: lost, ..s });
            } else {
                self.loss_snapshots.set(i, LossSnapshot { lost: s.lost.saturating_add(absorbed), ..s });
            }
            i += 1;
        }
        assert(self@.snapshots =~= old(self)@.snapshots.map_values(refine));
    }

    /// The loss rate since `snapshot`, where enough was sent to report one.
    fn loss_rate_since(&self, snapshot: &LossSnapshot) -> (r: Option<LossRate>)
        ensures
            r == self@.loss_rate_since(*snapshot),
    {
        let sent: u64 = self.curr_sent.saturating_sub(snapshot.sent);
        if sent < MIN_LOSS_WINDOW_SENT {
            return None;
        }
        let lost: u64 = self.curr_lost.saturating_sub(snapshot.lost);
        Some(LossRate { lost: if lost <= sent { lost } else { sent }, sent })
    }

    /// The worse of the loss rates over the short window and over the long one.
    pub(crate) fn windowed_loss_rate(&self, attack_samples: u32) -> (r: Option<LossRate>)
        ensures
            r == self@.windowed_loss_rate(attack_samples),
            r is Some ==> r->0.lost <= r->0.sent && r->0.sent > 0,
    {
        if self.loss_snapshots.len() == 0 {
            return None;
        }
        let mut n: usize = self.loss_snapshots.len();
        let mut anchor: LossSnapshot = self.loss_snapshots[0];
        while n > 0
            invariant_except_break
                anchor == self@.snapshots[0],
            invariant
                self@.snapshots.len() > 0,
                n <= self@.snapshots.len(),
                self.loss_snapshots@ == self@.snapshots,
                self@.attack_anchor(self@.snapshots.len() as int, attack_samples) == self@.attack_anchor(
                    n as int,
                    attack_samples,
                ),
            ensures
                anchor == self@.attack_anchor(self@.snapshots.len() as int, attack_samples),
            decreases n,
        {
            let s = self.loss_snapshots[n - 1];
            if self.advancing_samples.saturating_sub(s.at_sample) >= attack_samples {
                anchor = s;
                break;
            }
            n -= 1;
        }
        let attack = self.loss_rate_since(&anchor);
        let memory = self.loss_rate_since(&self.loss_snapshots[0]);
        match (attack, memory) {
            (Some(a), Some(m)) => {
                proof {
                    lemma_wide_product(a.lost, m.sent);
                    lemma_wide_product(m.lost, a.sent);
                }
                if a.lost as u128 * m.sent as u128 >= m.lost as u128 * a.sent as u128 { Some(a) } else { Some(m) }
            },
            (Some(a), None) => Some(a),
            (None, m) => m,
        }
    }

    /// The worst recent blackout run, capped.
    pub(crate) fn burst_turns(&self) -> (r: u32)
        ensures
            r == self@.burst_turns(),
    {
        let worst: u32 = self.blackout_runs.max_over_last(8);
        if worst <= BURST_TURNS_CAP { worst } else { BURST_TURNS_CAP }
    }
}

proof fn lemma_wide_product(a: u64, b: u64)
    ensures
        0 <= a * b <= 0xffff_ffff_ffff_ffff * 0xffff_ffff_ffff_ffff,
{
    assert(0 <= a * b <= 0xffff_ffff_ffff_ffff * 0xffff_ffff_ffff_ffff) by (nonlinear_arith)
        requires
            0 <= a <= 0xffff_ffff_ffff_ffff,
            0 <= b <= 0xffff_ffff_ffff_ffff,
    ;
}

/// The connection generation a slot is known by: up, or torn down for good.
#[derive(Clone, Copy, Debug, PartialEq, Eq, Structural)]
pub enum ConnectionState {
    Up(u64),
    Down(u64),
}

impl View for ConnectionState {
    type V = ConnectionState;

    open spec fn view(&self) -> ConnectionState {
        *self
    }
}

impl ConnectionState {
    pub open spec fn spec_epoch(self) -> u64 {
        match self {
            ConnectionState::Up(epoch) => epoch,
            ConnectionState::Down(epoch) => epoch,
        }
    }

    /// The generation's epoch, up or down.
    pub fn epoch(self) -> (r: u64)
        ensures
            r == self.spec_epoch(),
    {
        match self {
            ConnectionState::Up(epoch) => epoch,
            ConnectionState::Down(epoch) => epoch,
        }
    }
}

/// What a connection-up report of some generation would do.
#[derive(Clone, Copy, Debug, PartialEq, Eq, Structural)]
pub enum ConnectionActivation {
    /// The generation is already the slot's own.
    Current,
    /// It would replace what the slot is known by.
    Replacement,
    /// It is no longer admissible.
    Rejected,
}

/// The answer to a reconnecting client.
#[derive(Clone, Copy, Debug, PartialEq, Eq, Structural)]
pub enum ReconnectAdmission {
    Admitted { reinstated: bool },
    Rejected,
}

/// The answer to a reconnecting client, and whether its drop hold is spent.
#[derive(Clone, Copy, Debug, PartialEq, Eq, Structural)]
pub struct ReconnectTransition {
    pub admission: ReconnectAdmission,
    pub consume_hold: bool,
}

/// What recording a departure came to.
#[derive(Clone, Copy, Debug, PartialEq, Eq, Structural)]
pub enum DepartureRecordOutcome {
    /// The departing generation is not the slot's own.
    Rejected,
    /// The departure is recorded and may still be undone.
    Pending,
    /// The departure is recorded and already decided.
    Terminal,
}

} // verus!
