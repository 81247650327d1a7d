//! Laws of what a slot's link conditions are made into.
use crate::ids::GameFrameCount;
use crate::law::BucketsView;
use crate::law::BLACKOUT_RUN_BUCKETS;
use crate::law::BURST_TURNS_CAP;
use crate::law::MIN_LOSS_WINDOW_SENT;
use crate::law::RTT_WINDOW_SIZE;
use crate::slot::CounterUpdate;
use crate::slot::SlotView;
use crate::time::Instant;
use crate::wire::SlotConditions;
use vstd::prelude::*;

verus! {

/// A window after every sample of `samples`, in order.
pub open spec fn rtt_push_all(recent: Seq<u32>, samples: Seq<u32>) -> Seq<u32>
    decreases samples.len(),
{
    if samples.len() == 0 {
        recent
    } else {
        crate::law::rtt_push(rtt_push_all(recent, samples.drop_last()), samples.last())
    }
}

/// A measured round trip counts at once: the slot's RTT is at least any sample still in
/// the window, the newest one always among them.
pub proof fn law_the_rtt_covers_every_recent_sample(s: SlotView, rtt: u32, i: int)
    ensures
        0 <= i < s.rtts.len() ==> s.rtts[i] <= s.rtt(),
        crate::law::max_of(crate::law::rtt_push(s.rtts, rtt)) >= rtt,
        s.rtt() <= s.eff_rtt(),
{
    crate::law::lemma_max_of(s.rtts);
    let pushed = crate::law::rtt_push(s.rtts, rtt);
    crate::law::lemma_max_of(pushed);
    if rtt > 0 {
        assert(pushed[pushed.len() - 1] == rtt);
    }
}

/// A spike is forgotten: once a whole window of newer measurements came in, only they
/// count.
pub proof fn law_old_round_trips_are_forgotten(recent: Seq<u32>, samples: Seq<u32>)
    requires
        recent.len() <= RTT_WINDOW_SIZE,
        samples.len() <= RTT_WINDOW_SIZE,
        forall|i: int| 0 <= i < samples.len() ==> #[trigger] samples[i] > 0,
    ensures
        rtt_push_all(recent, samples).len() <= RTT_WINDOW_SIZE,
        rtt_push_all(recent, samples).len() >= samples.len(),
        rtt_push_all(recent, samples).skip(rtt_push_all(recent, samples).len() - samples.len()) == samples,
        samples.len() == RTT_WINDOW_SIZE ==> rtt_push_all(recent, samples) == samples,
    decreases samples.len(),
{
    let all = rtt_push_all(recent, samples);
    if samples.len() > 0 {
        let fewer = samples.drop_last();
        assert forall|i: int| 0 <= i < fewer.len() implies #[trigger] fewer[i] > 0 by {
            assert(samples[i] > 0);
        }
        law_old_round_trips_are_forgotten(recent, fewer);
        let before = rtt_push_all(recent, fewer);
        assert(samples[samples.len() - 1] > 0);
        assert forall|i: int| 0 <= i < samples.len() implies #[trigger] all.skip(all.len() - samples.len())[i] == samples[i] by {
            if i < fewer.len() {
                assert(before.skip(before.len() - fewer.len())[i] == fewer[i]);
            }
        }
        assert(all.skip(all.len() - samples.len()) =~= samples);
    } else {
        assert(all.skip(all.len() as int) =~= samples);
    }
    if samples.len() == RTT_WINDOW_SIZE {
        assert(all.skip(0) =~= all);
    }
}

/// Looking further back never lowers the maximum.
pub proof fn law_longer_lookbacks_see_more(b: BucketsView, n: int, m: int)
    requires
        0 <= n <= m,
    ensures
        b.max_over_last(n) <= b.max_over_last(m),
{
    let len = b.recent.len() as int;
    let short = b.recent.take(if n <= len { n } else { len });
    let long = b.recent.take(if m <= len { m } else { len });
    crate::law::lemma_max_of(short);
    crate::law::lemma_max_of(long);
    if short.len() > 0 {
        let i = choose|i: int| 0 <= i < short.len() && short[i] == crate::law::max_of(short);
        assert(long[i] == short[i]);
    }
}

/// Every observation of `events`, in order.
pub open spec fn observe_all(b: BucketsView, events: Seq<(u32, u32)>, span: u32) -> BucketsView
    decreases events.len(),
{
    if events.len() == 0 {
        b
    } else {
        observe_all(b, events.drop_last(), span).observe(events.last().0, events.last().1, span)
    }
}

/// Whether bucket `age` holds at least `value`, observed at `at`, looking back from `last`.
spec fn holds_peak(b: BucketsView, at: int, value: u32, span: int, last: int, age: int) -> bool {
    &&& b.head_start is Some
    &&& 0 <= age < b.recent.len()
    &&& b.recent[age] >= value
    &&& b.head_start->0 - age * span > at - span
    &&& age == 0 || b.head_start->0 <= last
}

proof fn lemma_peak_within(b: BucketsView, at: int, value: u32, span: int, last: int, age: int, n: int)
    requires
        holds_peak(b, at, value, span, last, age),
        span >= 1,
        n >= 1,
        last - at <= (n - 1) * span,
    ensures
        age < n,
{
    if age > 0 {
        assert(age < n) by (nonlinear_arith)
            requires
                last - age * span > at - span,
                last - at <= (n - 1) * span,
                span >= 1,
        ;
    }
}

proof fn lemma_peak_step(b: BucketsView, at: int, value: u32, span: u32, last: int, age: int, n: int, reading: u32, seen: u32)
    requires
        holds_peak(b, at, value, span as int, last, age),
        span >= 1,
        1 <= n <= b.recent.len(),
        last - at <= (n - 1) * span,
        reading <= last,
    ensures
        holds_peak(
            b.observe(reading, seen, span),
            at,
            value,
            span as int,
            last,
            age + b.advance(reading, span),
        ),
        b.observe(reading, seen, span).recent.len() == b.recent.len(),
{
    let start = b.head_start->0 as int;
    let advance = b.advance(reading, span);
    if reading > start {
        vstd::arithmetic::div_mod::lemma_fundamental_div_mod(reading - start, span as int);
        vstd::arithmetic::div_mod::lemma_div_pos_is_pos(reading - start, span as int);
        assert(advance * span == span * advance) by (nonlinear_arith);
        assert(start + advance * span <= reading);
    } else {
        assert(advance * span == 0) by (nonlinear_arith)
            requires
                advance == 0,
        ;
    }
    assert((age + advance) * span == age * span + advance * span) by (nonlinear_arith);
    if advance > 0 {
        let moved = age + advance;
        let head = start + advance * span;
        assert(moved < n) by (nonlinear_arith)
            requires
                head - moved * span > at - span,
                head <= last,
                last - at <= (n - 1) * span,
                span >= 1,
        ;
    }
}

proof fn lemma_peak_kept(b: BucketsView, at: int, value: u32, span: u32, last: int, age: int, n: int, events: Seq<(u32, u32)>) -> (r:
    int)
    requires
        holds_peak(b, at, value, span as int, last, age),
        span >= 1,
        1 <= n <= b.recent.len(),
        last - at <= (n - 1) * span,
        forall|i: int| 0 <= i < events.len() ==> (#[trigger] events[i]).0 <= last,
    ensures
        holds_peak(observe_all(b, events, span), at, value, span as int, last, r),
        observe_all(b, events, span).recent.len() == b.recent.len(),
    decreases events.len(),
{
    if events.len() == 0 {
        age
    } else {
        let fewer = events.drop_last();
        assert forall|i: int| 0 <= i < fewer.len() implies (#[trigger] fewer[i]).0 <= last by {
            assert(events[i].0 <= last);
        }
        let before = lemma_peak_kept(b, at, value, span, last, age, n, fewer);
        let mid = observe_all(b, fewer, span);
        assert(events[events.len() - 1].0 <= last);
        lemma_peak_step(mid, at, value, span, last, before, n, events.last().0, events.last().1);
        before + mid.advance(events.last().0, span)
    }
}

/// A peak is remembered for the whole lookback: an observed value counts toward the
/// maximum of the last `n` buckets for as long as fewer than `n` bucket spans have passed,
/// whatever else is observed meanwhile.
pub proof fn law_a_peak_is_remembered(b: BucketsView, at: u32, value: u32, span: u32, events: Seq<(u32, u32)>, last: u32, n: int)
    requires
        span >= 1,
        1 <= n <= b.recent.len(),
        forall|i: int| 0 <= i < events.len() ==> (#[trigger] events[i]).0 <= last,
        last - at <= (n - 1) * span,
    ensures
        observe_all(b.observe(at, value, span), events, span).max_over_last(n) >= value,
{
    let first = b.observe(at, value, span);
    let advance = b.advance(at, span);
    if b.head_start is Some && at > b.head_start->0 {
        let gone = at - b.head_start->0;
        vstd::arithmetic::div_mod::lemma_fundamental_div_mod(gone, span as int);
        vstd::arithmetic::div_mod::lemma_mod_bound(gone, span as int);
        vstd::arithmetic::div_mod::lemma_div_pos_is_pos(gone, span as int);
        assert(advance * span == span * advance) by (nonlinear_arith);
    }
    assert(0 * span == 0) by (nonlinear_arith);
    assert(b.head_start is Some && at <= b.head_start->0 ==> advance * span == 0) by {
        if b.head_start is Some && at <= b.head_start->0 {
            assert(advance == 0);
            assert(advance * span == 0) by (nonlinear_arith)
                requires
                    advance == 0,
            ;
        }
    }
    assert(holds_peak(first, at as int, value, span as int, last as int, 0));
    let age = lemma_peak_kept(first, at as int, value, span, last as int, 0, n, events);
    let end = observe_all(first, events, span);
    lemma_peak_within(end, at as int, value, span as int, last as int, age, n);
    let recent = end.recent.take(n);
    assert(recent[age] == end.recent[age]);
    crate::law::lemma_max_of(recent);
}

proof fn lemma_observe_all_split(b: BucketsView, first: Seq<(u32, u32)>, second: Seq<(u32, u32)>, span: u32)
    ensures
        observe_all(b, first + second, span) == observe_all(observe_all(b, first, span), second, span),
    decreases second.len(),
{
    if second.len() == 0 {
        assert(first + second =~= first);
    } else {
        lemma_observe_all_split(b, first, second.drop_last(), span);
        assert((first + second).drop_last() =~= first + second.drop_last());
        assert((first + second).last() == second.last());
    }
}

/// Whether event `i` is one that the bucket `age` old, of a ring whose head starts at
/// `head`, has its value `value` from.
spec fn made_by(events: Seq<(u32, u32)>, i: int, head: int, age: int, span: int, value: u32) -> bool {
    events[i].1 == value && head - age * span <= events[i].0 < head - age * span + span
}

/// Whether a bucket's value is accounted for: none, one of the first `k` events' that fell
/// into it, or one from before them all.
spec fn accounted(b: BucketsView, events: Seq<(u32, u32)>, k: int, head: int, age: int, span: int, value: u32) -> bool {
    ||| value == 0
    ||| exists|i: int| 0 <= i < k && #[trigger] made_by(events, i, head, age, span, value)
    ||| b.head_start is Some && head - age * span <= b.head_start->0
}

/// Whether `now` is what the first `k` of `events` make of `b`, as far as where each value
/// comes from.
spec fn traced(b: BucketsView, events: Seq<(u32, u32)>, k: int, span: int, now: BucketsView) -> bool {
    &&& now.recent.len() == b.recent.len()
    &&& k >= 1 ==> now.head_start is Some && now.head_start->0 <= events[k - 1].0 < now.head_start->0 + span
    &&& now.head_start is None ==> forall|age: int| 0 <= age < now.recent.len() ==> #[trigger] now.recent[age] == 0
    &&& now.head_start is Some ==> (k < events.len() ==> now.head_start->0 <= events[k].0)
    &&& now.head_start is Some ==> forall|age: int|
        0 <= age < now.recent.len() ==> accounted(
            b,
            events,
            k,
            now.head_start->0 as int,
            age,
            span,
            #[trigger] now.recent[age],
        )
}

proof fn lemma_trace_step(b: BucketsView, events: Seq<(u32, u32)>, k: int, span: u32, now: BucketsView)
    requires
        span >= 1,
        b.recent.len() >= 1,
        0 <= k < events.len(),
        forall|i: int, j: int| 0 <= i < j < events.len() ==> (#[trigger] events[i]).0 <= (#[trigger] events[j]).0,
        traced(b, events, k, span as int, now),
    ensures
        traced(b, events, k + 1, span as int, now.observe(events[k].0, events[k].1, span)),
{
    let (at, value) = events[k];
    let next = now.observe(at, value, span);
    let slid = now.slid(at, span);
    let advance = now.advance(at, span);
    if k + 1 < events.len() {
        assert(events[k].0 <= events[k + 1].0);
    }
    assert(0 * span == 0) by (nonlinear_arith);
    if now.head_start is Some {
        let start = now.head_start->0 as int;
        if at > start {
            vstd::arithmetic::div_mod::lemma_fundamental_div_mod(at - start, span as int);
            vstd::arithmetic::div_mod::lemma_mod_bound(at - start, span as int);
            vstd::arithmetic::div_mod::lemma_div_pos_is_pos(at - start, span as int);
            assert(advance * span == span * advance) by (nonlinear_arith);
        } else {
            assert(advance * span == 0) by (nonlinear_arith)
                requires
                    advance == 0,
            ;
        }
    }
    let head = next.head_start->0 as int;
    assert(head <= at < head + span);
    assert(made_by(events, k, head, 0, span as int, value));
    assert forall|age: int| 0 <= age < next.recent.len() implies accounted(
        b,
        events,
        k + 1,
        head,
        age,
        span as int,
        #[trigger] next.recent[age],
    ) by {
        let held = slid.recent[age];
        assert(accounted(b, events, k + 1, head, age, span as int, held)) by {
            if held != 0 {
                let start = now.head_start->0 as int;
                let was = age - advance;
                assert(held == now.recent[was]);
                assert(accounted(b, events, k, start, was, span as int, now.recent[was]));
                assert((age - advance) * span == age * span - advance * span) by (nonlinear_arith);
                assert(start - was * span == head - age * span);
                if exists|i: int| 0 <= i < k && #[trigger] made_by(events, i, start, was, span as int, held) {
                    let i = choose|i: int| 0 <= i < k && #[trigger] made_by(events, i, start, was, span as int, held);
                    assert(made_by(events, i, head, age, span as int, held));
                }
            }
        }
    }
}

proof fn lemma_traced(b: BucketsView, events: Seq<(u32, u32)>, k: int, span: u32)
    requires
        span >= 1,
        b.recent.len() >= 1,
        0 <= k <= events.len(),
        forall|i: int, j: int| 0 <= i < j < events.len() ==> (#[trigger] events[i]).0 <= (#[trigger] events[j]).0,
        traced(b, events, 0, span as int, b),
    ensures
        traced(b, events, k, span as int, observe_all(b, events.take(k), span)),
    decreases k,
{
    if k > 0 {
        lemma_traced(b, events, k - 1, span);
        assert(events.take(k).drop_last() =~= events.take(k - 1));
        assert(events.take(k).last() == events[k - 1]);
        lemma_trace_step(b, events, k - 1, span, observe_all(b, events.take(k - 1), span));
    } else {
        assert(events.take(0) =~= Seq::empty());
    }
}

/// Only the lookback counts: after observations in order, the maximum of the last `n`
/// buckets is at least each value observed within `n - 1` bucket spans of the last one,
/// and is itself one observed less than `n` spans before it, or 0. Whatever was seen
/// before the observations is forgotten once they reach `n` spans past it.
pub proof fn law_only_the_lookback_counts(b: BucketsView, events: Seq<(u32, u32)>, span: u32, n: int)
    requires
        span >= 1,
        1 <= n <= b.recent.len(),
        events.len() > 0,
        forall|i: int, j: int| 0 <= i < j < events.len() ==> (#[trigger] events[i]).0 <= (#[trigger] events[j]).0,
        b.head_start is None ==> b == BucketsView::fresh(b.recent.len()),
        b.head_start is Some ==> b.head_start->0 <= events[0].0 && events.last().0 - b.head_start->0 >= n * span,
    ensures
        ({
            let peak = observe_all(b, events, span).max_over_last(n);
            let last = events.last().0;
            &&& forall|i: int| 0 <= i < events.len() && last - (#[trigger] events[i]).0 <= (n - 1) * span ==> events[i].1 <= peak
            &&& peak == 0 || exists|i: int|
                0 <= i < events.len() && (#[trigger] events[i]).1 == peak && last - events[i].0 < n * span
        }),
{
    let end = observe_all(b, events, span);
    let peak = end.max_over_last(n);
    let last = events.last().0;
    assert forall|age: int| 0 <= age < b.recent.len() && b.head_start is Some implies accounted(
        b,
        events,
        0,
        b.head_start->0 as int,
        age,
        span as int,
        #[trigger] b.recent[age],
    ) by {
        assert(age * span >= 0) by (nonlinear_arith)
            requires
                age >= 0,
                span >= 1,
        ;
    }
    lemma_traced(b, events, events.len() as int, span);
    assert(events.take(events.len() as int) =~= events);
    assert forall|i: int| 0 <= i < events.len() && last - (#[trigger] events[i]).0 <= (n - 1) * span implies events[i].1
        <= peak by {
        let before = events.take(i);
        let rest = events.skip(i + 1);
        assert(events =~= before.push(events[i]) + rest);
        lemma_observe_all_split(b, before.push(events[i]), rest, span);
        let mid = observe_all(b, before, span);
        assert(before.push(events[i]).drop_last() =~= before);
        assert forall|j: int| 0 <= j < rest.len() implies (#[trigger] rest[j]).0 <= last by {
            assert(rest[j] == events[i + 1 + j]);
            if i + 1 + j < events.len() - 1 {
                assert(events[i + 1 + j].0 <= events[events.len() - 1].0);
            }
        }
        lemma_traced(b, events, i, span);
        law_a_peak_is_remembered(mid, events[i].0, events[i].1, span, rest, last, n);
    }
    let counted = end.recent.take(n);
    crate::law::lemma_max_of(counted);
    if peak != 0 {
        let age = choose|age: int| 0 <= age < counted.len() && counted[age] == peak;
        assert(end.recent[age] == peak);
        let head = end.head_start->0 as int;
        assert(accounted(b, events, events.len() as int, head, age, span as int, end.recent[age]));
        assert((age + 1) * span <= n * span) by (nonlinear_arith)
            requires
                age + 1 <= n,
                span >= 1,
        ;
        assert((age + 1) * span == age * span + span) by (nonlinear_arith);
        if exists|i: int| 0 <= i < events.len() && #[trigger] made_by(events, i, head, age, span as int, peak) {
            let i = choose|i: int| 0 <= i < events.len() && #[trigger] made_by(events, i, head, age, span as int, peak);
            assert(events[i].1 == peak && last - events[i].0 < n * span);
        }
    }
}

/// A windowed loss rate is a proper fraction over enough packets to mean something.
pub proof fn law_loss_rates_are_fractions(s: SlotView, attack: u32)
    ensures
        s.windowed_loss_rate(attack) is Some ==> {
            &&& (s.windowed_loss_rate(attack)->0).lost <= (s.windowed_loss_rate(attack)->0).sent
            &&& (s.windowed_loss_rate(attack)->0).sent >= MIN_LOSS_WINDOW_SENT
        },
{
}

/// The loss rate is the worse of the short window's and the long one's.
pub proof fn law_the_loss_rate_is_the_worse_window(s: SlotView, attack: u32)
    requires
        s.snapshots.len() > 0,
    ensures
        ({
            let short = s.loss_rate_since(s.attack_anchor(s.snapshots.len() as int, attack));
            let long = s.loss_rate_since(s.snapshots[0]);
            let rate = s.windowed_loss_rate(attack);
            &&& rate == short || rate == long
            &&& short is Some ==> rate is Some && (rate->0).at_least(short->0)
            &&& long is Some ==> rate is Some && (rate->0).at_least(long->0)
        }),
{
}

/// Counters only move forward: a sample that goes back, or moves nothing, teaches nothing.
pub proof fn law_counters_only_advance(s: SlotView, lost: u64, sent: u64, interval: u32, span: u32, now: Instant)
    requires
        s.seen,
    ensures
        s.update_counters(lost, sent, interval, span, now).curr_lost >= s.curr_lost,
        s.update_counters(lost, sent, interval, span, now).curr_sent >= s.curr_sent,
        lost < s.curr_lost || sent < s.curr_sent ==> s.update_counters(lost, sent, interval, span, now) == s,
        lost == s.curr_lost && sent == s.curr_sent ==> s.update_counters(lost, sent, interval, span, now) == s,
{
}

/// A stale sample leaves the slot's round trips alone.
pub proof fn law_stale_samples_carry_no_round_trip(
    s: SlotView,
    c: SlotConditions,
    interval: u32,
    span: u32,
    mesh_rtt_us: u32,
    now: Instant,
)
    requires
        s.seen,
        c.lost_packets < s.curr_lost || c.sent_packets < s.curr_sent,
    ensures
        s.sampled(c, interval, span, mesh_rtt_us, now) == (SlotView { mesh_rtt_us, ..s }),
{
}

proof fn lemma_observe_zero(b: BucketsView, at: u32, span: u32)
    requires
        b.recent.len() == BLACKOUT_RUN_BUCKETS,
    ensures
        b.observe(at, 0, span).recent.len() == BLACKOUT_RUN_BUCKETS,
        b.observe(at, 0, span).max_over_last(BLACKOUT_RUN_BUCKETS as int) <= b.max_over_last(BLACKOUT_RUN_BUCKETS as int),
{
    let next = b.observe(at, 0, span);
    let n = BLACKOUT_RUN_BUCKETS as int;
    let was = b.recent.take(n);
    let now_held = next.recent.take(n);
    crate::law::lemma_max_of(was);
    crate::law::lemma_max_of(now_held);
    let step = crate::law::max_u32(span, 1);
    if b.head_start is Some && at > b.head_start->0 {
        vstd::arithmetic::div_mod::lemma_div_pos_is_pos(at - b.head_start->0, step as int);
    }
    assert forall|i: int| 0 <= i < n implies #[trigger] now_held[i] <= crate::law::max_of(was) by {
        let slid = b.slid(at, step);
        assert(now_held[i] == slid.recent[i]);
        let advance = b.advance(at, step);
        if slid.recent[i] != 0 {
            if b.head_start is Some {
                assert(slid.recent[i] == was[i - advance]);
            } else {
                assert(slid.recent[i] == was[i]);
            }
        }
    }
    if now_held.contains(crate::law::max_of(now_held)) {
        let i = choose|i: int| 0 <= i < now_held.len() && now_held[i] == crate::law::max_of(now_held);
        assert(now_held[i] <= crate::law::max_of(was));
    }
}

/// Both loss terms read only flowing traffic: a sample across a long receive gap restarts
/// the loss windows and leaves no burst behind.
pub proof fn law_an_outage_is_not_weather(s: SlotView, lost: u64, sent: u64, interval: u32, span: u32, now: Instant, attack: u32)
    requires
        s.blackout_runs.recent.len() == BLACKOUT_RUN_BUCKETS,
        s.counter_update(lost, sent, now) == CounterUpdate::OutageRebaselined,
    ensures
        s.update_counters(lost, sent, interval, span, now).windowed_loss_rate(attack) is None,
        s.update_counters(lost, sent, interval, span, now).burst_turns() <= s.burst_turns(),
        s.update_counters(lost, sent, interval, span, now).blackout_run == 0,
        s.update_counters(lost, sent, interval, span, now).curr_sent == sent,
        s.update_counters(lost, sent, interval, span, now).curr_lost == lost,
{
    lemma_observe_zero(s.blackout_runs, s.advancing_samples.saturating_add(1), span);
    let next = s.update_counters(lost, sent, interval, span, now);
    assert(next.snapshots.len() == 1);
    assert(next.snapshots[0].sent == sent);
    assert(next.attack_anchor(1, attack) == next.snapshots[0]) by {
        reveal_with_fuel(SlotView::attack_anchor, 2);
    }
}

/// An outage explains away no more losses than were declared, nor than its own sends.
pub proof fn law_absorption_is_bounded(s: SlotView, declared: u64, wall: Option<Instant>)
    ensures
        s.absorbable(declared, wall) <= declared,
        s.absorbable(declared, wall) <= s.older_pool.credit + s.newer_pool.credit,
        s.drain_pools(declared, wall).older_pool.credit <= s.older_pool.credit,
        s.drain_pools(declared, wall).newer_pool.credit <= s.newer_pool.credit,
        s.older_pool.credit + s.newer_pool.credit - s.drain_pools(declared, wall).older_pool.credit - s.drain_pools(
            declared,
            wall,
        ).newer_pool.credit >= s.absorbable(declared, wall),
{
}

/// The burst term is capped.
pub proof fn law_the_burst_is_capped(s: SlotView)
    ensures
        s.burst_turns() <= BURST_TURNS_CAP,
{
}

/// A new connection starts with clean link conditions and keeps the game's progress.
pub proof fn law_a_new_link_starts_clean(s: SlotView, attack: u32)
    ensures
        s.reset_link_conditions().rtt() == 0,
        s.reset_link_conditions().eff_rtt() == 0,
        s.reset_link_conditions().windowed_loss_rate(attack) is None,
        s.reset_link_conditions().burst_turns() == 0,
        !s.reset_link_conditions().seen,
        s.reset_link_conditions().frame == s.frame,
        s.reset_link_conditions().frame_history == s.frame_history,
{
    let runs = s.reset_link_conditions().blackout_runs.recent;
    let all = runs.take(BLACKOUT_RUN_BUCKETS as int);
    crate::law::lemma_max_of(all);
    assert(forall|i: int| 0 <= i < all.len() ==> #[trigger] all[i] == 0);
}

/// A slot's frame never moves back, and a regression is reported once at most.
pub proof fn law_frames_never_move_back(s: SlotView, seq: u64, frame: GameFrameCount, cap: int, later_seq: u64, later: GameFrameCount)
    ensures
        s.note_turn(seq, frame, cap).frame is Some,
        s.frame is Some ==> (s.note_turn(seq, frame, cap).frame->0).0 >= (s.frame->0).0,
        (s.note_turn(seq, frame, cap).frame->0).0 >= frame.0,
        s.regresses(seq, frame) ==> !s.note_turn(seq, frame, cap).regresses(later_seq, later),
        s.frame_regression_reported ==> s.note_turn(seq, frame, cap).frame_regression_reported,
        cap >= 0 ==> s.note_turn(seq, frame, cap).frame_history.len() <= cap,
{
}

} // verus!
