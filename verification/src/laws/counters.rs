//! Laws of what a slot's counters teach: losses, blackouts, outages and the windows they are
//! measured over.
use crate::ids::SlotId;
use crate::law::ControlLaw;
use crate::maker::MakerView;
use crate::slot::LossRate;
use crate::slot::LossSnapshot;
use crate::slot::OutagePool;
use crate::slot::SlotView;
use crate::time::Instant;
use crate::wire::SlotConditions;
use vstd::prelude::*;

verus! {

/// What is left of an outage's credit: nothing once its samples have passed or its time is
/// up.
pub open spec fn credit_left(pool: OutagePool, samples: u32, now: Instant) -> int {
    if samples < pool.deadline && pool.expires_at is Some && now.nanos < pool.expires_at->0.nanos {
        pool.credit as int
    } else {
        0
    }
}

pub open spec fn least(a: int, b: int) -> int {
    if a <= b { a } else { b }
}

/// The losses that earlier outages explain.
pub open spec fn explained(s: SlotView, lost: u64, now: Instant) -> int {
    least(
        lost - s.curr_lost,
        credit_left(s.older_pool, s.advancing_samples, now) + credit_left(s.newer_pool, s.advancing_samples, now),
    )
}

/// Whether a sample tells of more packets sent, without a gap of a second or more before it.
pub open spec fn flows(s: SlotView, lost: u64, sent: u64, now: Instant) -> bool {
    &&& s.seen
    &&& sent > s.curr_sent
    &&& lost >= s.curr_lost
    &&& s.last_sample_at is Some ==> now.nanos < s.last_sample_at->0.nanos + 1_000_000_000
}

/// Whether a sample tells of more packets sent after a gap of a second or more.
pub open spec fn resumes(s: SlotView, lost: u64, sent: u64, now: Instant) -> bool {
    &&& s.seen
    &&& sent > s.curr_sent
    &&& lost >= s.curr_lost
    &&& s.last_sample_at is Some
    &&& now.nanos >= s.last_sample_at->0.nanos + 1_000_000_000
}

pub open spec fn one_more(n: u32) -> int {
    if n < u32::MAX { n + 1 } else { u32::MAX as int }
}

/// A stretch in which all that was sent was lost, beyond what earlier outages explain,
/// lengthens the blackout; any other ends it. The run counts towards the burst at once.
pub proof fn law_a_blackout_is_counted(s: SlotView, lost: u64, sent: u64, interval: u32, span: u32, now: Instant)
    requires
        flows(s, lost, sent, now),
        interval > 0,
        s.blackout_runs.recent.len() > 0,
    ensures
        ({
            let next = s.update_counters(lost, sent, interval, span, now);
            let unexplained = lost - s.curr_lost - explained(s, lost, now);
            &&& next.blackout_run == if unexplained >= sent - s.curr_sent { one_more(s.blackout_run) } else { 0 }
            &&& next.blackout_runs.recent[0] >= next.blackout_run
            &&& next.curr_lost == lost
            &&& next.curr_sent == sent
            &&& next.advancing_samples == one_more(s.advancing_samples)
            &&& next.last_sample_at == Some(now)
        }),
{
}

/// What earlier outages explain is taken from their credit, the older first, and no more
/// than is explained.
pub proof fn law_the_older_outage_explains_first(s: SlotView, lost: u64, sent: u64, interval: u32, span: u32, now: Instant)
    requires
        flows(s, lost, sent, now) || (s.seen && sent == s.curr_sent && lost > s.curr_lost),
        interval > 0,
    ensures
        ({
            let next = s.update_counters(lost, sent, interval, span, now);
            let older = credit_left(s.older_pool, s.advancing_samples, now);
            let newer = credit_left(s.newer_pool, s.advancing_samples, now);
            let by_older = least(lost - s.curr_lost, older);
            &&& next.older_pool.credit == older - by_older
            &&& next.newer_pool.credit == newer - (explained(s, lost, now) - by_older)
            &&& next.older_pool.deadline == s.older_pool.deadline && next.older_pool.expires_at == s.older_pool.expires_at
            &&& next.newer_pool.deadline == s.newer_pool.deadline && next.newer_pool.expires_at == s.newer_pool.expires_at
        }),
{
}

/// Losses that an outage explains do not count against any window: each endpoint that is
/// kept moves up by what is explained, so the loss since it grows by the rest only. Every
/// `interval` samples the counters are kept as a new endpoint, and sixteen endpoints at most.
pub proof fn law_explained_losses_do_not_count(s: SlotView, lost: u64, sent: u64, interval: u32, span: u32, now: Instant, i: int)
    requires
        flows(s, lost, sent, now),
        interval > 0,
        0 <= i < s.snapshots.len(),
        s.snapshots[i].lost + explained(s, lost, now) <= u64::MAX,
        s.snapshots.len() <= 16,
    ensures
        ({
            let next = s.update_counters(lost, sent, interval, span, now);
            let kept = next.advancing_samples as int % interval as int == 0;
            let dropped = if kept && s.snapshots.len() == 16 { 1int } else { 0 };
            &&& next.snapshots.len() == s.snapshots.len() - dropped + if kept { 1int } else { 0 }
            &&& i >= dropped ==> {
                let moved = next.snapshots[i - dropped];
                &&& lost - moved.lost == s.curr_lost - s.snapshots[i].lost + (lost - s.curr_lost - explained(s, lost, now))
                &&& moved.sent == s.snapshots[i].sent
                &&& moved.at_sample == s.snapshots[i].at_sample
            }
            &&& kept ==> next.snapshots.last() == (LossSnapshot { lost, sent, at_sample: next.advancing_samples })
        }),
{
}

/// Losses that are told late, with nothing sent since, count in the windows that began
/// earlier, less what outages explain, and not in one that begins here; the blackout run and
/// the sample count stand.
pub proof fn law_late_losses_count_where_they_were_sent(
    s: SlotView,
    lost: u64,
    interval: u32,
    span: u32,
    now: Instant,
    i: int,
)
    requires
        s.seen,
        lost > s.curr_lost,
        0 <= i < s.snapshots.len(),
        s.snapshots[i].lost + explained(s, lost, now) <= u64::MAX,
    ensures
        ({
            let next = s.update_counters(lost, s.curr_sent, interval, span, now);
            &&& next.snapshots.len() == s.snapshots.len()
            &&& next.snapshots[i].sent == s.snapshots[i].sent && next.snapshots[i].at_sample == s.snapshots[i].at_sample
            &&& s.snapshots[i].sent == s.curr_sent ==> next.snapshots[i].lost == lost
            &&& s.snapshots[i].sent != s.curr_sent ==> lost - next.snapshots[i].lost == s.curr_lost - s.snapshots[i].lost + (
            lost - s.curr_lost - explained(s, lost, now))
            &&& next.curr_lost == lost && next.curr_sent == s.curr_sent
            &&& next.blackout_run == s.blackout_run && next.blackout_runs == s.blackout_runs
            &&& next.advancing_samples == s.advancing_samples
            &&& next.last_sample_at == Some(now)
        }),
{
}

/// What is left of an outage's credit by samples alone.
pub open spec fn credit_by_samples(pool: OutagePool, samples: u32) -> int {
    if samples < pool.deadline { pool.credit as int } else { 0 }
}

/// After a gap of a second or more the windows begin anew here. Of what was sent across it,
/// all that was not already declared lost, beyond what earlier outages explain, becomes
/// credit for losses yet to be declared: for twenty-four samples, and for two seconds.
pub proof fn law_an_outage_banks_what_it_sent(s: SlotView, lost: u64, sent: u64, interval: u32, span: u32, now: Instant)
    requires
        resumes(s, lost, sent, now),
        now.nanos <= u64::MAX - 2_000_000_000,
        s.advancing_samples <= u32::MAX - 25,
    ensures
        ({
            let next = s.update_counters(lost, sent, interval, span, now);
            let by_earlier = least(
                lost - s.curr_lost,
                credit_by_samples(s.older_pool, s.advancing_samples) + credit_by_samples(
                    s.newer_pool,
                    s.advancing_samples,
                ),
            );
            let unexplained = lost - s.curr_lost - by_earlier;
            let banked = sent - s.curr_sent - unexplained;
            &&& next.snapshots.len() == 1
            &&& next.snapshots[0] == (LossSnapshot { lost, sent, at_sample: next.advancing_samples })
            &&& next.blackout_run == 0
            &&& next.advancing_samples == s.advancing_samples + 1
            &&& banked > 0 ==> {
                &&& next.newer_pool.credit == banked
                &&& next.newer_pool.deadline == s.advancing_samples + 25
                &&& next.newer_pool.expires_at is Some && next.newer_pool.expires_at->0.nanos == now.nanos + 2_000_000_000
            }
        }),
{
}

/// Whether `k` is where the short window begins: the newest endpoint at least `attack`
/// samples old, or the oldest where none is.
pub open spec fn begins_short_window(s: SlotView, attack: u32, k: int) -> bool {
    &&& 0 <= k < s.snapshots.len()
    &&& k == 0 || s.advancing_samples >= s.snapshots[k].at_sample + attack || attack == 0
    &&& forall|j: int| k < j < s.snapshots.len() ==> s.advancing_samples < (#[trigger] s.snapshots[j]).at_sample + attack && attack > 0
}

proof fn lemma_anchor(s: SlotView, attack: u32, k: int, n: int)
    requires
        begins_short_window(s, attack, k),
        k < n <= s.snapshots.len(),
    ensures
        s.attack_anchor(n, attack) == s.snapshots[k],
    decreases n,
{
    if n - 1 > k {
        assert(s.advancing_samples < s.snapshots[n - 1].at_sample + attack);
        lemma_anchor(s, attack, k, n - 1);
    } else if k == 0 {
        assert(s.attack_anchor(0, attack) == s.snapshots[0]);
    }
}

/// Whether a rate is what was lost since an endpoint out of what was sent since, of which
/// there are eight packets at least.
pub open spec fn is_rate_since(s: SlotView, from: LossSnapshot, r: LossRate) -> bool {
    &&& s.curr_sent >= from.sent + 8
    &&& r.sent == s.curr_sent - from.sent
    &&& s.curr_lost >= from.lost ==> r.lost == least(s.curr_lost - from.lost, r.sent as int)
    &&& s.curr_lost < from.lost ==> r.lost == 0
}

/// The loss rate is measured since the oldest endpoint or since the short window's: it is
/// one of the two, and neither is higher. There is one as soon as either window has eight
/// packets.
pub proof fn law_the_higher_windows_loss_counts(s: SlotView, attack: u32, k: int, long: LossRate, short: LossRate)
    requires
        begins_short_window(s, attack, k),
    ensures
        ({
            let rate = s.windowed_loss_rate(attack);
            &&& rate is Some <==> s.curr_sent >= s.snapshots[0].sent + 8 || s.curr_sent >= s.snapshots[k].sent + 8
            &&& rate is Some ==> is_rate_since(s, s.snapshots[0], rate->0) || is_rate_since(s, s.snapshots[k], rate->0)
            &&& is_rate_since(s, s.snapshots[0], long) ==> (rate->0).lost * long.sent >= long.lost * (rate->0).sent
            &&& is_rate_since(s, s.snapshots[k], short) ==> (rate->0).lost * short.sent >= short.lost * (rate->0).sent
        }),
{
    lemma_anchor(s, attack, k, s.snapshots.len() as int);
}

/// The burst term is the longest blackout within the last eight stretches, four turns at
/// most.
pub proof fn law_the_burst_is_the_longest_recent_blackout(s: SlotView, i: int)
    requires
        s.blackout_runs.recent.len() == 8,
    ensures
        0 <= i < 8 ==> s.burst_turns() >= least(s.blackout_runs.recent[i] as int, 4),
        s.burst_turns() <= 4,
        s.burst_turns() > 0 ==> exists|j: int| 0 <= j < 8 && #[trigger] s.blackout_runs.recent[j] >= s.burst_turns() && (
        s.blackout_runs.recent[j] == s.burst_turns() || s.burst_turns() == 4),
{
    let all = s.blackout_runs.recent;
    assert(all.take(8) =~= all);
    crate::law::lemma_max_of(all);
    if s.burst_turns() > 0 {
        let j = choose|j: int| 0 <= j < all.len() && all[j] == crate::law::max_of(all);
        assert(s.blackout_runs.recent[j] >= s.burst_turns());
    }
}

/// The round trip counted is the longest of the samples kept, nothing where none is.
pub proof fn law_the_round_trip_is_the_longest_kept(s: SlotView, i: int)
    ensures
        0 <= i < s.rtts.len() ==> s.rtts[i] <= s.rtt(),
        s.rtts.len() == 0 ==> s.rtt() == 0,
        s.rtt() > 0 ==> exists|j: int| 0 <= j < s.rtts.len() && #[trigger] s.rtts[j] == s.rtt(),
{
    crate::law::lemma_max_of(s.rtts);
    if s.rtt() > 0 {
        let j = choose|j: int| 0 <= j < s.rtts.len() && s.rtts[j] == crate::law::max_of(s.rtts);
        assert(s.rtts[j] == s.rtt());
    }
}

/// A sample whose counters moved forward adds its round trip, ten seconds at most and none
/// for zero; one whose counters went back adds nothing, and one that moved nothing only a
/// round trip other than the last. The mesh hop is always the latest.
pub proof fn law_a_sample_adds_its_round_trip(s: SlotView, c: SlotConditions, interval: u32, span: u32, mesh_rtt_us: u32, now: Instant)
    ensures
        ({
            let next = s.sampled(c, interval, span, mesh_rtt_us, now);
            let claim = if c.rtt_us <= 10_000_000 { c.rtt_us } else { 10_000_000u32 };
            let back = s.seen && (c.sent_packets < s.curr_sent || c.lost_packets < s.curr_lost);
            let still = s.seen && c.sent_packets == s.curr_sent && c.lost_packets == s.curr_lost;
            let adds = !back && (still ==> s.last_sender_rtt_us != Some(claim));
            &&& next.mesh_rtt_us == mesh_rtt_us
            &&& adds ==> next.last_sender_rtt_us == Some(claim)
            &&& adds && claim > 0 ==> next.rtts.len() > 0 && next.rtts.last() == claim && next.rtts.len() <= s.rtts.len() + 1
            &&& !adds ==> next.rtts == s.rtts && next.last_sender_rtt_us == s.last_sender_rtt_us
            &&& claim == 0 ==> next.rtts == s.rtts
            &&& next.frame == s.frame && next.frame_history == s.frame_history && next.connection_up_at
                == s.connection_up_at && next.last_forward_advance_at == s.last_forward_advance_at
        }),
{
}

/// The first sample only says where the counters stand.
pub proof fn law_the_first_sample_is_where_counting_begins(s: SlotView, lost: u64, sent: u64, interval: u32, span: u32, now: Instant)
    requires
        !s.seen,
        s.snapshots.len() == 0,
    ensures
        ({
            let next = s.update_counters(lost, sent, interval, span, now);
            &&& next.seen
            &&& next.curr_lost == lost && next.curr_sent == sent
            &&& next.snapshots.len() == 1
            &&& next.snapshots[0] == (LossSnapshot { lost, sent, at_sample: s.advancing_samples })
            &&& next.blackout_run == s.blackout_run && next.blackout_runs == s.blackout_runs
            &&& next.advancing_samples == s.advancing_samples
            &&& next.last_sample_at == Some(now)
        }),
{
}

/// A window's share of the samples it spans: one part in sixteen between loss endpoints, one
/// in eight to a stretch of blackouts or of targets, and one at least.
pub proof fn law_windows_are_cut_in_even_parts(law: ControlLaw)
    ensures
        law.loss_memory_samples >= 16 ==> law.spec_loss_snapshot_interval() * 16 <= law.loss_memory_samples
            < law.spec_loss_snapshot_interval() * 16 + 16,
        law.loss_memory_samples < 16 ==> law.spec_loss_snapshot_interval() == 1,
        law.loss_memory_samples >= 8 ==> law.spec_blackout_run_bucket_span() * 8 <= law.loss_memory_samples
            < law.spec_blackout_run_bucket_span() * 8 + 8,
        law.loss_memory_samples < 8 ==> law.spec_blackout_run_bucket_span() == 1,
        law.shrink_lookback_turns >= 8 ==> law.spec_target_floor_bucket_span() * 8 <= law.shrink_lookback_turns
            < law.spec_target_floor_bucket_span() * 8 + 8,
        law.shrink_lookback_turns < 8 ==> law.spec_target_floor_bucket_span() == 1,
{
}

/// Conditions are taken of a present slot under the connection that is up, or, where none
/// was ever named, under none; they then sample that slot and no other, with the law's own
/// windows. Any others change nothing.
pub proof fn law_conditions_of_the_live_connection_are_taken(m: MakerView, c: SlotConditions, mesh_rtt_us: u32, now: Instant)
    ensures
        ({
            let slot = SlotId(c.slot as u8);
            let taken = {
                &&& c.slot < 256
                &&& !m.departures.contains_key(slot)
                &&& m.connections.contains_key(slot) ==> c.connection_epoch is Some && m.connections[slot]
                    == crate::slot::ConnectionState::Up(c.connection_epoch->0)
                &&& !m.connections.contains_key(slot) ==> c.connection_epoch is None
            };
            let next = m.ingest_one(c, mesh_rtt_us, now);
            let before = if m.slots.contains_key(slot) { m.slots[slot] } else { SlotView::fresh() };
            &&& !taken ==> next == m
            &&& taken ==> next.slots == m.slots.insert(
                slot,
                before.sampled(
                    c,
                    m.law.spec_loss_snapshot_interval(),
                    m.law.spec_blackout_run_bucket_span(),
                    mesh_rtt_us,
                    now,
                ),
            )
            &&& next == (MakerView { slots: next.slots, ..m })
        }),
{
}

/// What an outage leaves of earlier credit: what is not used up and whose time is not up.
/// The newest of two that are left is kept as the older one once a further outage banks its
/// own; where that leaves nothing of the newer, the older one stays.
pub proof fn law_an_outage_keeps_the_newest_credit(s: SlotView, lost: u64, sent: u64, interval: u32, span: u32, now: Instant)
    requires
        resumes(s, lost, sent, now),
    ensures
        ({
            let next = s.update_counters(lost, sent, interval, span, now);
            let declared = lost - s.curr_lost;
            let older = credit_by_samples(s.older_pool, s.advancing_samples);
            let newer = credit_by_samples(s.newer_pool, s.advancing_samples);
            let by_older = least(declared, older);
            let by_newer = least(declared - by_older, newer);
            let older_timely = s.older_pool.expires_at is Some && now.nanos < s.older_pool.expires_at->0.nanos;
            let newer_timely = s.newer_pool.expires_at is Some && now.nanos < s.newer_pool.expires_at->0.nanos;
            let older_left = if older_timely { older - by_older } else { 0 };
            let newer_left = if newer_timely { newer - by_newer } else { 0 };
            let banked = sent - s.curr_sent - (declared - by_older - by_newer);
            &&& banked > 0 && newer_left > 0 ==> next.older_pool.credit == newer_left && next.older_pool.deadline
                == s.newer_pool.deadline && next.older_pool.expires_at == s.newer_pool.expires_at
            &&& banked <= 0 || newer_left == 0 ==> next.older_pool.credit == older_left && next.older_pool.deadline
                == s.older_pool.deadline && next.older_pool.expires_at == s.older_pool.expires_at
            &&& banked <= 0 ==> next.newer_pool.credit == newer_left && next.newer_pool.deadline == s.newer_pool.deadline
                && next.newer_pool.expires_at == s.newer_pool.expires_at
        }),
{
}

/// A new link knows nothing of the one before it: no round trip, no counters, no losses, no
/// blackouts and no credit.
pub proof fn law_a_new_link_knows_nothing_of_the_last(s: SlotView, i: int)
    ensures
        ({
            let next = s.reset_link_conditions();
            &&& next.rtts.len() == 0 && next.mesh_rtt_us == 0 && next.last_sender_rtt_us is None
            &&& !next.seen && next.curr_lost == 0 && next.curr_sent == 0 && next.snapshots.len() == 0
                && next.advancing_samples == 0 && next.last_sample_at is None
            &&& next.blackout_run == 0 && next.blackout_runs.recent.len() == 8 && (0 <= i < 8
                ==> next.blackout_runs.recent[i] == 0) && next.blackout_runs.head_start is None
            &&& next.older_pool.credit == 0 && next.newer_pool.credit == 0
            &&& next.frame == s.frame && next.frame_history == s.frame_history && next.newest_framed_seq
                == s.newest_framed_seq && next.last_forward_advance_at == s.last_forward_advance_at
                && next.connection_up_at == s.connection_up_at && next.frame_regression_reported
                == s.frame_regression_reported
        }),
{
}

} // verus!
