//! The buffer control law's tunables and the raw signal windows it reads.
//!
//! These are the state-free pieces of the target formula: the tuning knobs and the
//! small per-slot accumulators (recent-RTT ring, loss-window snapshots, outage
//! absorption pool) that turn raw counters into the formula's terms.

use vstd::prelude::*;

verus! {

/// The fixed margin of the apply horizon, in turns, added on top of the buffer span.
/// The buffer span covers observation lag and client spread, which both scale with
/// the cushion; this margin covers the delivery of the stamped turn itself.
pub const APPLY_HORIZON: u32 = 3;

/// How many recent RTT samples are kept per slot for jitter-aware sizing.
pub const RTT_WINDOW_SIZE: usize = 32;

/// How many decimated loss-counter snapshots each slot retains.
pub const LOSS_SNAPSHOT_COUNT: usize = 16;

/// Minimum sent-packet delta a loss window needs before it reports a rate. A window
/// over fewer packets quantizes brutally, so it reports no estimate instead.
pub const MIN_LOSS_WINDOW_SENT: u64 = 8;

/// A receive gap at or past this marks the enclosing counter interval as an outage,
/// not flowing weather.
pub const OUTAGE_GAP_MIN_NANOS: u64 = 1_000_000_000;

/// How many advancing samples after its gap an outage pool's banked credit may still
/// absorb late loss declarations.
pub const OUTAGE_LOSS_RESOLUTION_SAMPLES: u32 = 24;

/// The wall-clock companion to [`OUTAGE_LOSS_RESOLUTION_SAMPLES`]: banked credit
/// expires when either bound passes.
pub const OUTAGE_LOSS_RESOLUTION_MAX_AGE_NANOS: u64 = 2_000_000_000;

/// Ceiling on any single ingested RTT sample, in microseconds. RTTs arrive as claims,
/// and no playable link approaches this.
pub const MAX_INGEST_RTT_US: u32 = 10_000_000;

/// How many buckets the target-peak tracker holds: four times the base lookback.
pub const TARGET_FLOOR_BUCKETS: usize = 32;

/// How many trailing buckets make up the base shrink floor.
pub const TARGET_FLOOR_BASE_BUCKETS: usize = 8;

/// How many buckets the per-slot blackout-run tracker holds.
pub const BLACKOUT_RUN_BUCKETS: usize = 8;

/// Ceiling on the burst term, in turns.
pub const BURST_TURNS_CAP: u32 = 4;

/// The evidence window a burned edge shrink must clear, as trailing target-peak
/// buckets: the tracker's whole span.
pub const EDGE_PROBATION_BUCKETS: usize = 32;

/// Tuning for the control law.
#[derive(Clone, Copy, Debug, PartialEq, Eq, Structural)]
pub struct ControlLaw {
    /// The duration of one game turn in microseconds.
    pub turn_duration_us: u32,
    /// How many turns to decrement per lower decision.
    pub lower_step: u32,
    /// Minimum number of turns between lower decisions, and the span for which the
    /// target must have stayed strictly below the buffer before a lower fires.
    pub min_dwell_turns: u32,
    /// Margin added to the pairwise path before the shrink gate rounds it up.
    pub shrink_headroom_us: u32,
    /// The short loss window, in conditions samples.
    pub loss_attack_samples: u32,
    /// The long loss window, in conditions samples.
    pub loss_memory_samples: u32,
    /// How many turns of session-frame progress the shrink floor looks back over.
    pub shrink_lookback_turns: u32,
}

impl Default for ControlLaw {
    fn default() -> (r: Self)
        ensures
            r == (ControlLaw {
                turn_duration_us: 41_666,
                lower_step: 2,
                min_dwell_turns: 120,
                shrink_headroom_us: 5_208,
                loss_attack_samples: 24,
                loss_memory_samples: 192,
                shrink_lookback_turns: 600,
            }),
    {
        ControlLaw {
            turn_duration_us: 1_000_000 / 24,
            lower_step: 2,
            min_dwell_turns: 120,
            shrink_headroom_us: 5_208,
            loss_attack_samples: 24,
            loss_memory_samples: 192,
            shrink_lookback_turns: 600,
        }
    }
}

/// `n / parts`, but at least one.
pub open spec fn share(n: u32, parts: int) -> u32 {
    if n as int / parts >= 1 {
        (n as int / parts) as u32
    } else {
        1
    }
}

impl ControlLaw {
    pub open spec fn spec_loss_snapshot_interval(self) -> u32 {
        share(self.loss_memory_samples, LOSS_SNAPSHOT_COUNT as int)
    }

    pub open spec fn spec_target_floor_bucket_span(self) -> u32 {
        share(self.shrink_lookback_turns, TARGET_FLOOR_BASE_BUCKETS as int)
    }

    pub open spec fn spec_blackout_run_bucket_span(self) -> u32 {
        share(self.loss_memory_samples, BLACKOUT_RUN_BUCKETS as int)
    }

    /// How many conditions samples elapse between loss-counter snapshots: the memory
    /// window spread across the fixed snapshot ring.
    pub fn loss_snapshot_interval(&self) -> (r: u32)
        ensures
            r == self.spec_loss_snapshot_interval(),
            r >= 1,
    {
        let n: u32 = self.loss_memory_samples / 16;
        if n >= 1 { n } else { 1 }
    }

    /// The width of one target-peak bucket in frames: the base shrink lookback spread
    /// across its bucket slice.
    pub fn target_floor_bucket_span(&self) -> (r: u32)
        ensures
            r == self.spec_target_floor_bucket_span(),
            r >= 1,
    {
        let n: u32 = self.shrink_lookback_turns / 8;
        if n >= 1 { n } else { 1 }
    }

    /// The width of one blackout-run bucket in conditions samples: the loss-memory
    /// horizon spread across the run tracker.
    pub fn blackout_run_bucket_span(&self) -> (r: u32)
        ensures
            r == self.spec_blackout_run_bucket_span(),
            r >= 1,
    {
        let n: u32 = self.loss_memory_samples / 8;
        if n >= 1 { n } else { 1 }
    }
}

pub open spec fn max_u32(a: u32, b: u32) -> u32 {
    if a >= b { a } else { b }
}

/// The greatest element of `s`, 0 where there is none.
pub open spec fn max_of(s: Seq<u32>) -> u32
    decreases s.len(),
{
    if s.len() == 0 {
        0
    } else {
        max_u32(max_of(s.drop_last()), s.last())
    }
}

/// `max_of` bounds every element, and is one of them unless it is 0.
pub proof fn lemma_max_of(s: Seq<u32>)
    ensures
        forall|i: int| 0 <= i < s.len() ==> #[trigger] s[i] <= max_of(s),
        max_of(s) == 0 || s.contains(max_of(s)),
    decreases s.len(),
{
    if s.len() > 0 {
        let p = s.drop_last();
        lemma_max_of(p);
        assert forall|i: int| 0 <= i < s.len() implies #[trigger] s[i] <= max_of(s) by {
            if i < p.len() {
                assert(s[i] == p[i]);
            }
        }
        if p.contains(max_of(p)) {
            let i = choose|i: int| 0 <= i < p.len() && p[i] == max_of(p);
            assert(s[i] == max_of(p));
        }
        assert(s[s.len() - 1] == s.last());
    }
}

/// A value that bounds every element and is one of them is the maximum.
pub proof fn lemma_max_of_is(s: Seq<u32>, m: u32)
    requires
        forall|i: int| 0 <= i < s.len() ==> #[trigger] s[i] <= m,
        s.contains(m),
    ensures
        max_of(s) == m,
{
    lemma_max_of(s);
    let i = choose|i: int| 0 <= i < s.len() && s[i] == m;
    assert(s[i] <= max_of(s));
    if s.contains(max_of(s)) {
        let j = choose|j: int| 0 <= j < s.len() && s[j] == max_of(s);
        assert(s[j] <= m);
    }
}

/// What a [`BucketedMax`] remembers: its buckets, newest first, and the coordinate at
/// which the newest one began.
#[verifier::ext_equal]
pub struct BucketsView {
    pub recent: Seq<u32>,
    pub head_start: Option<u32>,
}

impl BucketsView {
    /// No observation yet, in `n` buckets.
    pub open spec fn fresh(n: nat) -> Self {
        BucketsView { recent: Seq::new(n, |i: int| 0u32), head_start: None }
    }

    /// How many buckets the window slides by to reach coordinate `at`.
    pub open spec fn advance(self, at: u32, span: u32) -> int {
        match self.head_start {
            None => 0,
            Some(start) => if at > start { (at - start) / (span as int) } else { 0 },
        }
    }

    /// The window slid so that its newest bucket holds coordinate `at`.
    pub open spec fn slid(self, at: u32, span: u32) -> Self {
        let n = self.recent.len();
        let advance = self.advance(at, span);
        match self.head_start {
            None => BucketsView { head_start: Some(at), ..self },
            Some(start) => if advance >= n {
                BucketsView { recent: Seq::new(n, |i: int| 0u32), head_start: Some(at) }
            } else {
                BucketsView {
                    recent: Seq::new(n, |i: int| if i < advance { 0u32 } else { self.recent[i - advance] }),
                    head_start: Some((start + advance * span) as u32),
                }
            },
        }
    }

    /// One observation folded in at coordinate `at`.
    pub open spec fn observe(self, at: u32, value: u32, bucket_span: u32) -> Self {
        let s = self.slid(at, max_u32(bucket_span, 1));
        BucketsView { recent: s.recent.update(0, max_u32(s.recent[0], value)), ..s }
    }

    /// The maximum over the trailing `n` buckets.
    pub open spec fn max_over_last(self, n: int) -> u32 {
        max_of(self.recent.take(if n <= self.recent.len() { n } else { self.recent.len() as int }))
    }
}

/// A trailing maximum over a sliding coordinate window, kept as per-bucket maxima so
/// old peaks age out in bucket-sized steps. Reads are slices of trailing buckets, so
/// one tracker serves nested windows.
pub struct BucketedMax<const N: usize> {
    buckets: Vec<u32>,
    /// Index of the bucket currently accumulating.
    head: usize,
    head_start: Option<u32>,
}

impl<const N: usize> View for BucketedMax<N> {
    type V = BucketsView;

    closed spec fn view(&self) -> BucketsView {
        BucketsView {
            recent: Seq::new(N as nat, |age: int| self.buckets@[Self::slot_of(self.head as int, age)]),
            head_start: self.head_start,
        }
    }
}

impl<const N: usize> BucketedMax<N> {
    #[verifier::type_invariant]
    spec fn wf(self) -> bool {
        &&& self.buckets@.len() == N
        &&& N > 0 ==> self.head < N
    }

    /// The ring index of the bucket `age` steps older than the one at `head`.
    spec fn slot_of(head: int, age: int) -> int {
        if head >= age { head - age } else { head + N - age }
    }

    /// A tracker with no observation.
    pub fn new() -> (r: Self)
        ensures
            r@ == BucketsView::fresh(N as nat),
    {
        let buckets: Vec<u32> = vec![0; N];
        let r = BucketedMax { buckets, head: 0, head_start: None };
        assert(r@ =~= BucketsView::fresh(N as nat));
        r
    }

    /// Folds one observation at coordinate `at` into the window. `bucket_span` is the
    /// width of one bucket in coordinate units.
    pub fn observe(&mut self, at: u32, value: u32, bucket_span: u32)
        requires
            N > 0,
        ensures
            final(self)@ == old(self)@.observe(at, value, bucket_span),
    {
        proof {
            use_type_invariant(&*self);
        }
        let ghost before = self@;
        let span: u32 = if bucket_span >= 1 { bucket_span } else { 1 };
        let mut taken = BucketedMax { buckets: vec![0; N], head: 0, head_start: None };
        std::mem::swap(&mut taken, self);
        let BucketedMax { mut buckets, mut head, mut head_start } = taken;
        match head_start {
            None => {
                head_start = Some(at);
            },
            Some(start) => {
                let elapsed: u32 = at.saturating_sub(start);
                let advance: u32 = elapsed / span;
                assert(advance * span <= elapsed) by (nonlinear_arith)
                    requires
                        advance == elapsed / span,
                        span >= 1,
                ;
                assert(advance == before.advance(at, span)) by (nonlinear_arith)
                    requires
                        advance == elapsed / span,
                        elapsed == if at > start { (at - start) as u32 } else { 0 },
                        before.advance(at, span) == if at > start { (at - start) / (span as int) } else { 0 },
                        span >= 1,
                ;
                if advance as usize >= N {
                    // The whole window slid past every bucket: nothing survives.
                    buckets = vec![0; N];
                    head_start = Some(at);
                } else {
                    let mut i: u32 = 0;
                    while i < advance
                        invariant
                            i <= advance < N,
                            N > 0,
                            head < N,
                            buckets@.len() == N,
                            before.recent.len() == N,
                            forall|age: int|
                                0 <= age < N ==> #[trigger] buckets@[Self::slot_of(head as int, age)] == (if age < i {
                                    0u32
                                } else {
                                    before.recent[age - i]
                                }),
                        decreases advance - i,
                    {
                        let ghost old_head = head as int;
                        let ghost old_buckets = buckets@;
                        head = if head + 1 == N { 0 } else { head + 1 };
                        buckets.set(head, 0);
                        assert forall|age: int| 0 <= age < N implies #[trigger] buckets@[Self::slot_of(
                            head as int,
                            age,
                        )] == (if age < i + 1 { 0u32 } else { before.recent[age - (i + 1)] }) by {
                            if age > 0 {
                                assert(Self::slot_of(head as int, age) == Self::slot_of(old_head, age - 1));
                                assert(old_buckets[Self::slot_of(old_head, age - 1)] == (if age - 1 < i {
                                    0u32
                                } else {
                                    before.recent[age - 1 - i]
                                }));
                            }
                        }
                        i += 1;
                    }
                    head_start = Some(start + advance * span);
                }
            },
        }
        let ghost slid = before.slid(at, span);
        assert forall|age: int| 0 <= age < N implies #[trigger] buckets@[Self::slot_of(head as int, age)]
            == slid.recent[age] by {}
        let ghost mid = buckets@;
        let top: u32 = buckets[head];
        assert(top == mid[Self::slot_of(head as int, 0)]);
        buckets.set(head, if top >= value { top } else { value });
        let after = BucketedMax { buckets, head, head_start };
        assert forall|age: int| 0 <= age < N implies #[trigger] after@.recent[age] == before.observe(
            at,
            value,
            bucket_span,
        ).recent[age] by {
            assert(mid[Self::slot_of(head as int, age)] == slid.recent[age]);
        }
        assert(after@ =~= before.observe(at, value, bucket_span));
        *self = after;
    }

    /// The maximum over the trailing `n_buckets` buckets (clamped to the tracker's
    /// size), including the currently accumulating one.
    pub fn max_over_last(&self, n_buckets: usize) -> (r: u32)
        ensures
            r == self@.max_over_last(n_buckets as int),
            self@.recent.len() == N,
    {
        proof {
            use_type_invariant(self);
        }
        let n: usize = if n_buckets <= N { n_buckets } else { N };
        let mut best: u32 = 0;
        let mut age: usize = 0;
        while age < n
            invariant
                self.wf(),
                age <= n <= N,
                best == max_of(self@.recent.take(age as int)),
            decreases n - age,
        {
            let index: usize = if self.head >= age { self.head - age } else { N - (age - self.head) };
            let v: u32 = self.buckets[index];
            assert(v == self@.recent[age as int]);
            if v > best {
                best = v;
            }
            assert(self@.recent.take(age + 1).drop_last() =~= self@.recent.take(age as int));
            age += 1;
        }
        best
    }
}

/// The most recent samples once `rtt` is pushed onto `recent`: a 0 is no measurement
/// and is skipped, and the oldest sample leaves a full window.
pub open spec fn rtt_push(recent: Seq<u32>, rtt: u32) -> Seq<u32> {
    if rtt == 0 {
        recent
    } else if recent.len() < RTT_WINDOW_SIZE {
        recent.push(rtt)
    } else {
        recent.skip(1).push(rtt)
    }
}

/// A fixed-size ring of recent RTT samples for one slot. The maximum of the recent
/// samples is a crude high-percentile estimator: in lockstep a single late turn stalls
/// every player, so the buffer must cover latency spikes, not the smoothed mean.
///
/// Its view lists the samples, oldest first.
pub struct RttWindow {
    samples: Vec<u32>,
    head: usize,
    len: usize,
    /// Sample indices in arrival order with strictly decreasing RTTs. The front is
    /// always the current maximum; dominated samples are removed from the back as a
    /// new sample arrives, so updates are amortized O(1).
    max_indices: Vec<u8>,
    max_head: usize,
    max_len: usize,
}

impl View for RttWindow {
    type V = Seq<u32>;

    closed spec fn view(&self) -> Seq<u32> {
        Seq::new(self.len as nat, |i: int| self.samples@[self.ring_index(i)])
    }
}

impl RttWindow {
    /// A position on the ring, from one less than two windows ahead.
    spec fn wrapped(n: int) -> int {
        if n < RTT_WINDOW_SIZE { n } else { n - RTT_WINDOW_SIZE }
    }

    /// Where the `i`-th oldest sample is stored.
    spec fn ring_index(self, i: int) -> int {
        Self::wrapped(self.head + RTT_WINDOW_SIZE - self.len + i)
    }

    /// Which sample, counted from the oldest, is stored at `index`.
    spec fn arrival(self, index: int) -> int {
        if self.len < RTT_WINDOW_SIZE {
            index
        } else {
            Self::wrapped(index + RTT_WINDOW_SIZE - self.head)
        }
    }

    /// The sample index queued at position `j` of the monotonic queue.
    spec fn queued(self, j: int) -> int {
        self.max_indices@[Self::wrapped(self.max_head + j)] as int
    }

    spec fn shape(self) -> bool {
        &&& self.samples@.len() == RTT_WINDOW_SIZE
        &&& self.max_indices@.len() == RTT_WINDOW_SIZE
        &&& self.head < RTT_WINDOW_SIZE
        &&& self.len <= RTT_WINDOW_SIZE
        &&& self.len < RTT_WINDOW_SIZE ==> self.head == self.len
        &&& self.max_head < RTT_WINDOW_SIZE
        &&& self.max_len <= self.len
    }

    /// The first `n` queued indices name held samples, later arrivals further back,
    /// with strictly decreasing RTTs.
    spec fn queue_ordered(self, n: int) -> bool {
        &&& forall|j: int| 0 <= j < n ==> 0 <= #[trigger] self.queued(j) < RTT_WINDOW_SIZE
        &&& forall|j: int| 0 <= j < n ==> self.arrival(#[trigger] self.queued(j)) < self.len
        &&& forall|i: int, j: int|
            0 <= i < j < n ==> self.arrival(#[trigger] self.queued(i)) < self.arrival(#[trigger] self.queued(j))
        &&& forall|i: int, j: int|
            0 <= i < j < n ==> self.samples@[#[trigger] self.queued(i)] > self.samples@[#[trigger] self.queued(j)]
    }

    /// The sample that covers the `i`-th oldest one: queued, no older, no smaller.
    spec fn covers(self, j: int, i: int) -> bool {
        &&& 0 <= j < self.max_len
        &&& self.arrival(self.queued(j)) >= i
        &&& self.samples@[self.queued(j)] >= self.samples@[self.ring_index(i)]
    }

    spec fn covered(self, i: int) -> bool {
        exists|j: int| self.covers(j, i)
    }

    #[verifier::type_invariant]
    spec fn wf(self) -> bool {
        &&& self.shape()
        &&& self.queue_ordered(self.max_len as int)
        &&& forall|i: int| 0 <= i < self.len ==> #[trigger] self.covered(i)
    }

    /// Queued arrivals are at least as far apart as their queue positions.
    proof fn lemma_queue_spread(self, j: int)
        requires
            self.wf(),
            0 <= j < self.max_len,
        ensures
            self.arrival(self.queued(j)) >= self.arrival(self.queued(0)) + j,
        decreases j,
    {
        if j > 0 {
            self.lemma_queue_spread(j - 1);
            assert(self.arrival(self.queued(j - 1)) < self.arrival(self.queued(j)));
        }
    }

    /// Where index `n` of the ring stands before and after the next sample arrives.
    proof fn lemma_shift(self, after: Self, n: int)
        requires
            self.shape(),
            after.head == Self::wrapped(self.head + 1),
            after.len == if self.len < 32 { self.len + 1 } else { 32 },
            0 <= n < 32,
        ensures
            n == self.head ==> after.arrival(n) == after.len - 1,
            n != self.head && self.len < 32 ==> after.arrival(n) == self.arrival(n),
            n != self.head && self.len == 32 ==> after.arrival(n) == self.arrival(n) - 1,
            n == self.head && self.len == 32 ==> self.arrival(n) == 0,
            self.ring_index(self.arrival(n)) == n,
            self.len < 32 ==> self.arrival(n) == n,
    {
    }

    proof fn lemma_push(self, after: Self, rtt: u32, skipped: int, kept: int)
        requires
            self.wf(),
            rtt != 0,
            after.samples@ == self.samples@.update(self.head as int, rtt),
            after.head == Self::wrapped(self.head + 1),
            after.len == if self.len < 32 { self.len + 1 } else { 32 },
            after.max_head == Self::wrapped(self.max_head + skipped),
            after.max_len == kept + 1,
            after.max_indices@ == self.max_indices@.update(Self::wrapped(after.max_head + kept), self.head as u8),
            0 <= skipped <= 1,
            0 <= kept,
            skipped + kept <= self.max_len,
            (skipped == 1) == (self.len == 32 && self.max_len > 0 && self.queued(0) == self.head),
            kept > 0 ==> self.samples@[self.queued(kept - 1 + skipped)] > rtt,
            forall|q: int| kept + skipped <= q < self.max_len ==> self.samples@[#[trigger] self.queued(q)] <= rtt,
        ensures
            after.wf(),
            after@ == rtt_push(self@, rtt),
    {
        assert forall|q: int| skipped <= q < kept + skipped implies #[trigger] self.queued(q) != self.head by {
            if self.queued(q) == self.head {
                self.lemma_shift(after, self.head as int);
                if self.len < 32 {
                    assert(self.arrival(self.queued(q)) < self.len);
                } else if q > 0 {
                    assert(self.arrival(self.queued(0)) < self.arrival(self.queued(q)));
                }
            }
        }
        if kept > 0 {
            self.lemma_queue_spread(kept - 1 + skipped);
            self.lemma_shift(after, self.queued(0));
            assert(self.arrival(self.queued(kept - 1 + skipped)) < self.len);
        }
        assert(after.shape());
        assert(after.queued(kept) == self.head);
        assert forall|j: int| 0 <= j < kept implies #[trigger] after.queued(j) == self.queued(j + skipped) by {
            assert(Self::wrapped(after.max_head + j) != Self::wrapped(after.max_head + kept));
            assert(Self::wrapped(after.max_head + j) == Self::wrapped(self.max_head + (j + skipped)));
        }
        assert forall|j: int| 0 <= j <= kept implies 0 <= #[trigger] after.queued(j) < RTT_WINDOW_SIZE && after.arrival(
            after.queued(j),
        ) < after.len by {
            if j < kept {
                assert(after.queued(j) == self.queued(j + skipped));
                assert(0 <= self.queued(j + skipped) < 32);
                assert(self.arrival(self.queued(j + skipped)) < self.len);
                self.lemma_shift(after, self.queued(j + skipped));
            } else {
                self.lemma_shift(after, self.head as int);
            }
        }
        assert forall|i: int, j: int| 0 <= i < j <= kept implies after.arrival(#[trigger] after.queued(i))
            < after.arrival(#[trigger] after.queued(j)) && after.samples@[after.queued(i)] > after.samples@[after.queued(
            j,
        )] by {
            assert(after.queued(i) == self.queued(i + skipped));
            assert(0 <= self.queued(i + skipped) < 32);
            assert(self.arrival(self.queued(i + skipped)) < self.len);
            self.lemma_shift(after, self.queued(i + skipped));
            self.lemma_shift(after, self.head as int);
            if j < kept {
                assert(after.queued(j) == self.queued(j + skipped));
                assert(0 <= self.queued(j + skipped) < 32);
                self.lemma_shift(after, self.queued(j + skipped));
                assert(self.arrival(self.queued(i + skipped)) < self.arrival(self.queued(j + skipped)));
                assert(self.samples@[self.queued(i + skipped)] > self.samples@[self.queued(j + skipped)]);
            } else if i < kept - 1 {
                assert(self.samples@[self.queued(i + skipped)] > self.samples@[self.queued(kept - 1 + skipped)]);
            }
        }
        let lost: int = if self.len == 32 { 1 } else { 0 };
        assert forall|i: int| 0 <= i < after.len implies #[trigger] after.covered(i) by {
            self.lemma_shift(after, self.head as int);
            if i == after.len - 1 {
                assert(after.ring_index(i) == self.head);
                assert(after.covers(kept, i));
            } else {
                let was = i + lost;
                assert(self.covered(was));
                let j = choose|j: int| self.covers(j, was);
                assert(after.ring_index(i) == self.ring_index(was));
                assert(self.ring_index(was) != self.head);
                self.lemma_shift(after, self.queued(j));
                if j - skipped >= kept {
                    assert(after.covers(kept, i));
                } else if j >= skipped {
                    assert(after.queued(j - skipped) == self.queued((j - skipped) + skipped));
                    assert(after.covers(j - skipped, i));
                }
            }
        }
        assert(after.wf());
        assert(after@ =~= rtt_push(self@, rtt)) by {
            assert forall|i: int| 0 <= i < after.len implies #[trigger] after@[i] == rtt_push(self@, rtt)[i] by {
                if i == after.len - 1 {
                    assert(after.ring_index(i) == self.head);
                } else {
                    assert(after.ring_index(i) == self.ring_index(i + lost));
                    assert(self.ring_index(i + lost) != self.head);
                }
            }
        }
    }

    /// An empty window.
    pub fn new() -> (r: Self)
        ensures
            r@ == Seq::<u32>::empty(),
    {
        let r = RttWindow {
            samples: vec![0; 32],
            head: 0,
            len: 0,
            max_indices: vec![0; 32],
            max_head: 0,
            max_len: 0,
        };
        assert(r@ =~= Seq::<u32>::empty());
        r
    }

    /// Pushes `rtt` into the ring. A `0` (no measurement) is skipped.
    #[verifier::rlimit(50)]
    #[verifier::spinoff_prover]
    pub fn push(&mut self, rtt: u32)
        ensures
            final(self)@ == rtt_push(old(self)@, rtt),
            old(self)@.len() <= RTT_WINDOW_SIZE,
    {
        proof {
            use_type_invariant(&*self);
        }
        if rtt == 0 {
            return;
        }
        let mut taken = RttWindow::new();
        std::mem::swap(&mut taken, self);
        let ghost before = taken;
        let RttWindow { mut samples, head, len, mut max_indices, mut max_head, mut max_len } = taken;
        let sample_index: usize = head;

        // When full, `head` names the sample aging out. Queued indices remain in
        // arrival order, so the expired index, when it has not already been
        // dominated, can only be at the front.
        if len == 32 && max_len > 0 && max_indices[max_head] as usize == sample_index {
            assert(before.queued(0) == sample_index);
            max_head = (max_head + 1) % 32;
            max_len = max_len - 1;
        }
        let ghost skipped: int = before.max_len - max_len;
        let ghost front_len: int = max_len as int;

        // Samples no larger than the new one can never become the maximum before it
        // expires, so retire them from the back.
        while max_len > 0
            invariant
                before.wf(),
                samples@ == before.samples@,
                max_indices@ == before.max_indices@,
                max_head < 32,
                max_head == Self::wrapped(before.max_head + skipped),
                0 <= skipped <= 1,
                skipped + front_len == before.max_len,
                max_len <= front_len <= 32,
                forall|q: int|
                    max_len + skipped <= q < before.max_len ==> before.samples@[#[trigger] before.queued(q)] <= rtt,
            ensures
                max_len > 0 ==> before.samples@[before.queued(max_len - 1 + skipped)] > rtt,
            decreases max_len,
        {
            let back: usize = (max_head + max_len - 1) % 32;
            let back_index: usize = max_indices[back] as usize;
            assert(back_index == before.queued(max_len - 1 + skipped));
            if samples[back_index] > rtt {
                break;
            }
            max_len = max_len - 1;
        }
        let ghost kept: int = max_len as int;

        samples.set(sample_index, rtt);
        let max_tail: usize = (max_head + max_len) % 32;
        max_indices.set(max_tail, sample_index as u8);
        max_len = max_len + 1;
        let new_head: usize = (head + 1) % 32;
        let new_len: usize = if len < 32 { len + 1 } else { len };
        let ghost after = RttWindow {
            samples,
            head: new_head,
            len: new_len,
            max_indices,
            max_head,
            max_len,
        };
        proof {
            before.lemma_push(after, rtt, skipped, kept);
        }
        *self = RttWindow { samples, head: new_head, len: new_len, max_indices, max_head, max_len };
    }

    /// The recent max RTT, the jitter-aware estimate; 0 when no sample has been
    /// pushed yet.
    pub fn max(&self) -> (r: u32)
        ensures
            r == max_of(self@),
    {
        proof {
            use_type_invariant(self);
        }
        if self.max_len == 0 {
            assert(self.len == 0) by {
                if self.len > 0 {
                    assert(self.covered(0));
                }
            }
            return 0;
        }
        let front: usize = self.max_indices[self.max_head] as usize;
        assert(front == self.queued(0));
        let r: u32 = self.samples[front];
        proof {
            let i = self.arrival(front as int);
            assert(self.ring_index(i) == front);
            assert(self@[i] == r);
            assert forall|n: int| 0 <= n < self@.len() implies #[trigger] self@[n] <= r by {
                assert(self.covered(n));
                let j = choose|j: int| self.covers(j, n);
                if j > 0 {
                    assert(self.samples@[self.queued(0)] > self.samples@[self.queued(j)]);
                }
            }
            lemma_max_of_is(self@, r);
        }
        r
    }
}

} // verus!
