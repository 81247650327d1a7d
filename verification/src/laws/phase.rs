//! Laws of phase alignment.
use crate::ids::SlotId;
use crate::ordmap::OrdKey;
use crate::phase::PhasePoint;
use crate::phase::PhaseView;
use crate::phase::MAX_UNCONVERGED_ROUNDS;
use crate::phase::SETTLE_NANOS;
use crate::phase::SLOT_MAX_CHANGE_US;
use crate::phase::SLOT_MIN_CHANGE_US;
use crate::phase::SPAN_DEAD_BAND_US;
use crate::phase::STRETCH_SUSTAIN_NANOS;
use crate::time::Instant;
use vstd::prelude::*;
use vstd::set_lib::FiniteFull;

verus! {

/// Whether a controller's commands make sense: each is shorter than a turn, and only a
/// commanded slot is waited for.
pub open spec fn sound(p: PhaseView) -> bool {
    &&& p.turn_us > 0
    &&& forall|s: SlotId| #[trigger] p.commanded.contains_key(s) ==> p.commanded[s] < p.turn_us
    &&& p.awaiting.subset_of(p.commanded.dom())
}

pub(crate) proof fn lemma_slots_are_finite(slots: Set<SlotId>)
    ensures
        slots.finite(),
{
    u8::full_properties();
    let wrap = |n: u8| SlotId(n);
    Set::<u8>::full().lemma_map_finite(wrap);
    let all = Set::<u8>::full().map(wrap);
    assert forall|s: SlotId| #[trigger] slots.contains(s) implies all.contains(s) by {
        assert(Set::<u8>::full().contains(s.0));
        assert(wrap(s.0) == s);
    }
    vstd::set_lib::lemma_len_subset(slots, all);
}

proof fn lemma_points_listed(p: PhaseView, now: Instant)
    ensures
        crate::ordmap::lists(crate::ordmap::listing(p.points(now)), p.points(now)),
{
    lemma_slots_are_finite(p.slots.dom());
    let place = |s: SlotId| PhasePoint { phase: (p.slots[s].residual_us as int % p.turn_us as int) as u32, slot: s };
    p.slots.dom().lemma_map_finite(place);
    let all = p.slots.dom().map(place);
    assert forall|q: PhasePoint| #[trigger] p.points(now).contains(q) implies all.contains(q) by {
        assert(p.slots.dom().contains(q.slot));
        assert(place(q.slot) == q);
    }
    vstd::set_lib::lemma_len_subset(p.points(now), all);
    crate::ordmap::lemma_listing_exists(p.points(now));
}

/// Points in ascending order, all within one turn.
spec fn placed(points: Seq<PhasePoint>, turn_us: u32) -> bool {
    &&& crate::ordmap::ascending(points)
    &&& forall|i: int| 0 <= i < points.len() ==> (#[trigger] points[i]).phase < turn_us
}

proof fn lemma_placed(p: PhaseView, now: Instant)
    requires
        sound(p),
    ensures
        placed(crate::ordmap::listing(p.points(now)), p.turn_us),
        forall|i: int|
            0 <= i < crate::ordmap::listing(p.points(now)).len() ==> p.points(now).contains(
                #[trigger] crate::ordmap::listing(p.points(now))[i],
            ),
{
    lemma_points_listed(p, now);
    let points = crate::ordmap::listing(p.points(now));
    assert forall|i: int| 0 <= i < points.len() implies p.points(now).contains(#[trigger] points[i]) by {
        assert(points.contains(points[i]));
    }
    assert forall|i: int| 0 <= i < points.len() implies (#[trigger] points[i]).phase < p.turn_us by {
        assert(p.points(now).contains(points[i]));
        vstd::arithmetic::div_mod::lemma_mod_bound(p.slots[points[i].slot].residual_us as int, p.turn_us as int);
    }
}

proof fn lemma_ordered(points: Seq<PhasePoint>, turn_us: u32, i: int, j: int)
    requires
        placed(points, turn_us),
        0 <= i <= j < points.len(),
    ensures
        points[i].phase <= points[j].phase,
{
    if i < j {
        assert(points[i].rank() < points[j].rank());
    }
}

proof fn lemma_widest(points: Seq<PhasePoint>, turn_us: u32, n: int, i: int)
    requires
        1 <= n <= points.len(),
        0 <= i < n,
    ensures
        0 <= crate::phase::widest_gap_index(points, turn_us, n) < n,
        crate::phase::gap_after(points, turn_us, i) <= crate::phase::gap_after(
            points,
            turn_us,
            crate::phase::widest_gap_index(points, turn_us, n),
        ),
    decreases n,
{
    if n > 1 {
        if i < n - 1 {
            lemma_widest(points, turn_us, n - 1, i);
        } else {
            lemma_widest(points, turn_us, n - 1, 0);
        }
    }
}

/// What the gaps before the last come to.
proof fn lemma_gaps_reach(points: Seq<PhasePoint>, turn_us: u32, n: int)
    requires
        placed(points, turn_us),
        1 <= n <= points.len(),
        forall|i: int| 0 <= i < points.len() ==> #[trigger] crate::phase::gap_after(points, turn_us, i) <= 0,
    ensures
        points[n - 1].phase <= points[0].phase,
    decreases n,
{
    if n > 1 {
        lemma_gaps_reach(points, turn_us, n - 1);
        assert(crate::phase::gap_after(points, turn_us, n - 2) <= 0);
    }
}

proof fn lemma_cluster(points: Seq<PhasePoint>, turn_us: u32, i: int)
    requires
        placed(points, turn_us),
        0 <= i < points.len(),
    ensures
        0 <= crate::phase::cluster_end(points, turn_us) < points.len(),
        0 <= crate::phase::cluster_span(points, turn_us) < turn_us,
        (points[crate::phase::cluster_end(points, turn_us)].phase - points[i].phase) % (turn_us as int)
            <= crate::phase::cluster_span(points, turn_us),
{
    let n = points.len() as int;
    let e = crate::phase::cluster_end(points, turn_us);
    lemma_widest(points, turn_us, n, 0);
    let gap = crate::phase::gap_after(points, turn_us, e);
    if gap <= 0 {
        assert forall|j: int| 0 <= j < n implies #[trigger] crate::phase::gap_after(points, turn_us, j) <= 0 by {
            lemma_widest(points, turn_us, n, j);
        }
        lemma_gaps_reach(points, turn_us, n);
        assert(crate::phase::gap_after(points, turn_us, n - 1) <= 0);
    }
    assert(gap > 0);
    lemma_ordered(points, turn_us, 0, n - 1);
    lemma_ordered(points, turn_us, 0, i);
    lemma_ordered(points, turn_us, i, n - 1);
    let back = points[e].phase - points[i].phase;
    if i <= e {
        lemma_ordered(points, turn_us, i, e);
        vstd::arithmetic::div_mod::lemma_small_mod(back as nat, turn_us as nat);
    } else {
        lemma_ordered(points, turn_us, e, i);
        lemma_ordered(points, turn_us, e + 1, i);
        vstd::arithmetic::div_mod::lemma_small_mod((back + turn_us) as nat, turn_us as nat);
        vstd::arithmetic::div_mod::lemma_mod_add_multiples_vanish(back, turn_us as int);
    }
}

/// The cluster holds every measured slot: behind the slot everyone is moved onto, none is
/// further than the span, and the span is less than a turn.
pub proof fn law_the_cluster_holds_every_slot(p: PhaseView, now: Instant, i: int)
    requires
        sound(p),
        0 <= i < crate::ordmap::listing(p.points(now)).len(),
    ensures
        ({
            let points = crate::ordmap::listing(p.points(now));
            let end = crate::phase::cluster_end(points, p.turn_us);
            &&& 0 <= end < points.len()
            &&& 0 <= crate::phase::cluster_span(points, p.turn_us) < p.turn_us
            &&& (points[end].phase - points[i].phase) % (p.turn_us as int) <= crate::phase::cluster_span(points, p.turn_us)
        }),
{
    lemma_placed(p, now);
    lemma_cluster(crate::ordmap::listing(p.points(now)), p.turn_us, i);
}

proof fn lemma_next_delay(current: int, phase: int, target: int, turn_us: u32)
    requires
        0 <= current < turn_us,
    ensures
        0 <= crate::phase::next_delay(current, phase, target, turn_us) < turn_us,
        crate::phase::abs(crate::phase::next_delay(current, phase, target, turn_us) - current) <= SLOT_MAX_CHANGE_US,
{
}

proof fn lemma_corrections(p: PhaseView, points: Seq<PhasePoint>, target: u32, n: int, k: int)
    requires
        sound(p),
        0 <= n <= points.len(),
        0 <= k < p.corrections(points, target, n).len(),
    ensures
        ({
            let (slot, delay) = p.corrections(points, target, n)[k];
            &&& exists|i: int| 0 <= i < n && (#[trigger] points[i]).slot == slot
            &&& delay < p.turn_us
            &&& crate::phase::abs(delay - p.current_delay(slot)) <= SLOT_MAX_CHANGE_US
            &&& crate::phase::abs(delay - p.current_delay(slot)) > SLOT_MIN_CHANGE_US
            &&& !p.awaiting.contains(slot)
        }),
    decreases n,
{
    if n > 0 {
        let before = p.corrections(points, target, n - 1);
        if k < before.len() {
            lemma_corrections(p, points, target, n - 1, k);
        } else {
            let point = points[n - 1];
            lemma_next_delay(
                p.current_delay(point.slot) as int,
                point.phase as int,
                target as int,
                p.turn_us,
            );
            assert(points[n - 1].slot == point.slot);
        }
    }
}

/// A command holds a slot back for less than a turn, changes its delay by one capped step,
/// and never goes to a slot that has not acknowledged the last one.
pub proof fn law_commands_are_small_steps(p: PhaseView, now: Instant, k: int)
    requires
        sound(p),
        0 <= k < p.issued(now).len(),
    ensures
        p.issued(now)[k].1 < p.turn_us,
        crate::phase::abs(p.issued(now)[k].1 - p.current_delay(p.issued(now)[k].0)) <= SLOT_MAX_CHANGE_US,
        crate::phase::abs(p.issued(now)[k].1 - p.current_delay(p.issued(now)[k].0)) > SLOT_MIN_CHANGE_US,
        !p.awaiting.contains(p.issued(now)[k].0),
        p.slots.contains_key(p.issued(now)[k].0),
        p.slots[p.issued(now)[k].0].measurable(now),
{
    lemma_placed(p, now);
    let points = crate::ordmap::listing(p.points(now));
    let target = points[crate::phase::cluster_end(points, p.turn_us)].phase;
    lemma_corrections(p, points, target, points.len() as int, k);
    let i = choose|i: int| 0 <= i < points.len() && (#[trigger] points[i]).slot == p.issued(now)[k].0;
    assert(p.points(now).contains(points[i]));
}

proof fn lemma_corrected_once(p: PhaseView, points: Seq<PhasePoint>, target: u32, n: int, j: int, k: int)
    requires
        sound(p),
        0 <= n <= points.len(),
        forall|a: int, b: int| 0 <= a < b < points.len() ==> (#[trigger] points[a]).slot != (#[trigger] points[b]).slot,
        0 <= j < k < p.corrections(points, target, n).len(),
    ensures
        p.corrections(points, target, n)[j].0 != p.corrections(points, target, n)[k].0,
    decreases n,
{
    if n > 0 {
        let before = p.corrections(points, target, n - 1);
        if k < before.len() {
            lemma_corrected_once(p, points, target, n - 1, j, k);
        } else {
            lemma_corrections(p, points, target, n - 1, j);
            let a = choose|a: int| 0 <= a < n - 1 && (#[trigger] points[a]).slot == before[j].0;
            assert(points[a].slot != points[n - 1].slot);
        }
    }
}

/// A slot is commanded at most once at a time.
pub proof fn law_a_slot_is_commanded_once_at_a_time(p: PhaseView, now: Instant, j: int, k: int)
    requires
        sound(p),
        0 <= j < k < p.issued(now).len(),
    ensures
        p.issued(now)[j].0 != p.issued(now)[k].0,
{
    lemma_placed(p, now);
    let points = crate::ordmap::listing(p.points(now));
    assert forall|a: int, b: int| 0 <= a < b < points.len() implies (#[trigger] points[a]).slot != (#[trigger] points[b]).slot by {
        assert(p.points(now).contains(points[a]) && p.points(now).contains(points[b]));
        assert(points[a].rank() < points[b].rank());
    }
    let target = points[crate::phase::cluster_end(points, p.turn_us)].phase;
    lemma_corrected_once(p, points, target, points.len() as int, j, k);
}

/// The delay that `issued` commands `slot`, if it commands it one.
pub open spec fn delay_in(issued: Seq<(SlotId, u32)>, slot: SlotId) -> Option<u32> {
    if exists|k: int| 0 <= k < issued.len() && (#[trigger] issued[k]).0 == slot {
        Some(issued[choose|k: int| 0 <= k < issued.len() && (#[trigger] issued[k]).0 == slot].1)
    } else {
        None
    }
}

/// The delay `slot` was last commanded.
pub open spec fn delay_of(p: PhaseView, slot: SlotId) -> Option<u32> {
    if p.commanded.contains_key(slot) { Some(p.commanded[slot]) } else { None }
}

proof fn lemma_commanded(p: PhaseView, corrections: Seq<(SlotId, u32)>, n: int, slot: SlotId)
    requires
        0 <= n <= corrections.len(),
        forall|j: int, k: int| 0 <= j < k < corrections.len() ==> (#[trigger] corrections[j]).0 != (#[trigger] corrections[k]).0,
    ensures
        forall|k: int| 0 <= k < n && (#[trigger] corrections[k]).0 == slot ==> delay_of(p.commanding(corrections, n), slot) == Some(
            corrections[k].1,
        ),
        (forall|k: int| 0 <= k < n ==> (#[trigger] corrections[k]).0 != slot) ==> delay_of(
            p.commanding(corrections, n),
            slot,
        ) == delay_of(p, slot),
    decreases n,
{
    if n > 0 {
        lemma_commanded(p, corrections, n - 1, slot);
        assert forall|k: int| 0 <= k < n && (#[trigger] corrections[k]).0 == slot implies delay_of(
            p.commanding(corrections, n),
            slot,
        ) == Some(corrections[k].1) by {
            if k < n - 1 {
                assert(corrections[k].0 != corrections[n - 1].0);
            }
        }
        if forall|k: int| 0 <= k < n ==> (#[trigger] corrections[k]).0 != slot {
            assert(corrections[n - 1].0 != slot);
        }
    }
}

/// What an evaluation issues is what is commanded from then on; a slot it issues nothing
/// for keeps its delay.
pub proof fn law_what_is_issued_is_commanded(p: PhaseView, now: Instant, slot: SlotId)
    requires
        sound(p),
    ensures
        delay_of(p.evaluate(now), slot) == match delay_in(p.issued(now), slot) {
            Some(delay) => Some(delay),
            None => delay_of(p, slot),
        },
{
    let issued = p.issued(now);
    assert forall|j: int, k: int| 0 <= j < k < issued.len() implies (#[trigger] issued[j]).0 != (#[trigger] issued[k]).0 by {
        law_a_slot_is_commanded_once_at_a_time(p, now, j, k);
    }
    let spanned = PhaseView {
        last_span_us: Some(
            crate::phase::cluster_span(crate::ordmap::listing(p.points(now)), p.turn_us) as i64,
        ),
        ..p
    };
    lemma_commanded(spanned, issued, issued.len() as int, slot);
    if delay_in(issued, slot) is Some {
        let k = choose|k: int| 0 <= k < issued.len() && (#[trigger] issued[k]).0 == slot;
        assert(issued[k].0 == slot);
    }
}

proof fn lemma_commanding_sound(p: PhaseView, corrections: Seq<(SlotId, u32)>, n: int)
    requires
        sound(p),
        0 <= n <= corrections.len(),
        forall|k: int| 0 <= k < corrections.len() ==> (#[trigger] corrections[k]).1 < p.turn_us,
    ensures
        sound(p.commanding(corrections, n)),
        p.commanding(corrections, n).turn_us == p.turn_us,
        p.awaiting.subset_of(p.commanding(corrections, n).awaiting),
        forall|k: int| 0 <= k < n ==> p.commanding(corrections, n).awaiting.contains((#[trigger] corrections[k]).0),
        forall|s: SlotId|
            p.awaiting.contains(s) && (forall|k: int| 0 <= k < n ==> (#[trigger] corrections[k]).0 != s)
                ==> #[trigger] p.commanding(corrections, n).current_delay(s) == p.current_delay(s),
    decreases n,
{
    if n > 0 {
        lemma_commanding_sound(p, corrections, n - 1);
        assert(corrections[n - 1].1 < p.turn_us);
        let before = p.commanding(corrections, n - 1);
        let next = p.commanding(corrections, n);
        assert forall|s: SlotId|
            p.awaiting.contains(s) && (forall|k: int| 0 <= k < n ==> (#[trigger] corrections[k]).0 != s) implies
            #[trigger] next.current_delay(s) == p.current_delay(s) by {
            assert(corrections[n - 1].0 != s);
            assert(before.current_delay(s) == p.current_delay(s));
        }
    }
}

pub(crate) proof fn lemma_evaluate(p: PhaseView, now: Instant)
    requires
        sound(p),
    ensures
        sound(p.evaluate(now)),
        p.evaluate(now).turn_us == p.turn_us,
        forall|k: int|
            0 <= k < p.issued(now).len() ==> p.evaluate(now).awaiting.contains((#[trigger] p.issued(now)[k]).0),
        forall|s: SlotId| #[trigger] p.awaiting.contains(s) ==> p.evaluate(now).awaiting.contains(s),
        forall|s: SlotId| #[trigger]
            p.awaiting.contains(s) ==> p.evaluate(now).current_delay(s) == p.current_delay(s),
{
    let issued = p.issued(now);
    let spanned = PhaseView {
        last_span_us: Some(
            crate::phase::cluster_span(crate::ordmap::listing(p.points(now)), p.turn_us) as i64,
        ),
        ..p
    };
    assert forall|k: int| 0 <= k < issued.len() implies (#[trigger] issued[k]).1 < p.turn_us && !p.awaiting.contains(
        issued[k].0,
    ) by {
        law_commands_are_small_steps(p, now, k);
    }
    lemma_commanding_sound(spanned, issued, issued.len() as int);
    assert forall|s: SlotId| #[trigger] p.awaiting.contains(s) implies p.evaluate(now).awaiting.contains(s) && p.evaluate(
        now,
    ).current_delay(s) == p.current_delay(s) by {
        assert(forall|k: int| 0 <= k < issued.len() ==> (#[trigger] issued[k]).0 != s);
        let commanded = spanned.commanding(issued, issued.len() as int);
        assert(commanded.current_delay(s) == spanned.current_delay(s));
    }
}

/// Every operation leaves the commands making sense.
pub proof fn law_commands_stay_sound(p: PhaseView, turn_us: u32, slot: SlotId, seq: u64, delay_us: u32, now: Instant)
    requires
        sound(p),
    ensures
        sound(PhaseView::fresh(turn_us)),
        sound(p.note_arrival(slot, seq, now)),
        sound(p.evaluate(now)),
        sound(p.pressed(now)),
        sound(p.note_applied(slot, delay_us, now)),
        sound(p.remove_slot(slot)),
{
    lemma_evaluate(p, now);
}

/// A commanded slot is left alone until it acknowledges exactly what it was told: neither
/// other slots' drift, nor a wrong echo, nor a reconnect releases it.
pub proof fn law_the_fence_holds_until_the_matching_echo(
    p: PhaseView,
    slot: SlotId,
    other: SlotId,
    seq: u64,
    echo: u32,
    now: Instant,
)
    requires
        sound(p),
        p.awaiting.contains(slot),
    ensures
        p.note_arrival(other, seq, now).awaiting.contains(slot),
        p.evaluate(now).awaiting.contains(slot),
        p.evaluate(now).current_delay(slot) == p.current_delay(slot),
        p.remove_slot(other).awaiting.contains(slot),
        p.remove_slot(other).current_delay(slot) == p.current_delay(slot),
        other != slot || echo != p.commanded[slot] ==> p.note_applied(other, echo, now).awaiting.contains(slot),
        !p.note_applied(slot, p.commanded[slot], now).awaiting.contains(slot),
        forall|k: int| 0 <= k < p.issued(now).len() ==> (#[trigger] p.issued(now)[k]).0 != slot,
{
    lemma_evaluate(p, now);
    assert forall|k: int| 0 <= k < p.issued(now).len() implies (#[trigger] p.issued(now)[k]).0 != slot by {
        law_commands_are_small_steps(p, now, k);
    }
}

/// A latched controller issues nothing, ever again.
pub proof fn law_the_latch_is_permanent(p: PhaseView, slot: SlotId, seq: u64, delay_us: u32, now: Instant)
    requires
        p.disabled,
    ensures
        p.issued(now).len() == 0,
        p.evaluate(now) == p,
        p.note_arrival(slot, seq, now).disabled,
        p.pressed(now).disabled,
        p.note_applied(slot, delay_us, now).disabled,
        p.remove_slot(slot).disabled,
{
}

/// The latch bounds correcting rounds: each uses one up, the last trips the latch instead,
/// and only a measurement inside the dead band gives them back.
pub proof fn law_the_latch_bounds_correcting_rounds(p: PhaseView, now: Instant)
    ensures
        p.issued(now).len() > 0 ==> p.evaluate(now).unconverged_rounds == p.unconverged_rounds + 1
            && p.evaluate(now).unconverged_rounds < MAX_UNCONVERGED_ROUNDS,
        p.evaluate(now).unconverged_rounds < p.unconverged_rounds ==> p.evaluate(now).unconverged_rounds == 0
            && crate::phase::cluster_span(crate::ordmap::listing(p.points(now)), p.turn_us) <= SPAN_DEAD_BAND_US,
{
}

/// Nothing is evaluated until a command has had the time to be carried out and settle.
pub proof fn law_commands_are_not_reissued_inside_the_dwell(p: PhaseView, now: Instant, later: Instant)
    requires
        p.issued(now).len() > 0,
        now.nanos + SETTLE_NANOS <= u64::MAX,
        later.nanos < now.nanos + SETTLE_NANOS,
    ensures
        p.evaluate(now).issued(later).len() == 0,
        p.evaluate(now).evaluate(later) == p.evaluate(now),
{
}

/// Slots in one phase are aligned: their span is 0 and they draw no correction.
pub proof fn law_slots_in_phase_are_left_alone(p: PhaseView, now: Instant)
    requires
        sound(p),
        forall|a: PhasePoint, b: PhasePoint|
            #![trigger p.points(now).contains(a), p.points(now).contains(b)]
            p.points(now).contains(a) && p.points(now).contains(b) ==> a.phase == b.phase,
    ensures
        p.issued(now).len() == 0,
        crate::ordmap::listing(p.points(now)).len() > 0 ==> crate::phase::cluster_span(
            crate::ordmap::listing(p.points(now)),
            p.turn_us,
        ) == 0,
{
    lemma_placed(p, now);
    let points = crate::ordmap::listing(p.points(now));
    if points.len() > 0 {
        let n = points.len() as int;
        let e = crate::phase::cluster_end(points, p.turn_us);
        lemma_cluster(points, p.turn_us, 0);
        lemma_widest(points, p.turn_us, n, n - 1);
        assert(p.points(now).contains(points[e]) && p.points(now).contains(points[0]));
        assert(p.points(now).contains(points[n - 1]));
        if e + 1 < n {
            assert(p.points(now).contains(points[e + 1]));
        }
    }
}

/// The pressure is one turn at most, and only once the cadence has been slow for the whole
/// sustain window; a first sighting never presses.
pub proof fn law_pressure_takes_a_sustained_stretch(p: PhaseView, now: Instant)
    ensures
        p.stretch_turns(now) <= 1,
        p.stretch_turns(now) == 1 ==> p.stretched(now) && p.stretch_since is Some && now.nanos >= p.stretch_since->0.nanos
            + STRETCH_SUSTAIN_NANOS,
        p.stretch_since is None ==> p.stretch_turns(now) == 0,
        !p.stretched(now) ==> p.pressed(now).stretch_since is None,
{
}

/// A turn that arrives after a newer one of its sender teaches nothing.
pub proof fn law_late_arrivals_teach_nothing(p: PhaseView, slot: SlotId, seq: u64, now: Instant)
    requires
        p.slots.contains_key(slot),
        seq <= p.slots[slot].last_seq,
    ensures
        p.note_arrival(slot, seq, now).slots == p.slots,
{
}

/// Whether a slot's arrivals tell its phase: two dozen of them at least, the last no more
/// than two seconds ago.
pub open spec fn is_heard(p: PhaseView, slot: SlotId, now: Instant) -> bool {
    p.slots.contains_key(slot) && p.slots[slot].samples >= 24 && now.nanos <= p.slots[slot].last_sample.nanos
        + 2_000_000_000
}

/// Where within a turn a slot's arrivals fall.
pub open spec fn phase_of(p: PhaseView, slot: SlotId) -> int {
    p.slots[slot].residual_us as int % p.turn_us as int
}

/// How far behind another slot one falls, going round the turn.
pub open spec fn behind(p: PhaseView, slot: SlotId, other: SlotId) -> int {
    (phase_of(p, other) - phase_of(p, slot)) % (p.turn_us as int)
}

/// Whether a slot sends at the game's own pace, to within 800 microseconds a turn.
pub open spec fn keeps_pace(p: PhaseView, slot: SlotId) -> bool {
    p.slots[slot].interval_us is Some && p.turn_us - 800 <= p.slots[slot].interval_us->0 <= p.turn_us + 800
}

proof fn lemma_heard(p: PhaseView, now: Instant, slot: SlotId)
    requires
        sound(p),
    ensures
        is_heard(p, slot, now) <==> exists|i: int|
            0 <= i < crate::ordmap::listing(p.points(now)).len() && (#[trigger] crate::ordmap::listing(p.points(now))[i]).slot
                == slot,
        forall|i: int|
            0 <= i < crate::ordmap::listing(p.points(now)).len() ==> (#[trigger] crate::ordmap::listing(
                p.points(now),
            )[i]).phase == phase_of(p, crate::ordmap::listing(p.points(now))[i].slot),
{
    lemma_placed(p, now);
    lemma_points_listed(p, now);
    let points = crate::ordmap::listing(p.points(now));
    assert forall|i: int| 0 <= i < points.len() implies (#[trigger] points[i]).phase == phase_of(p, points[i].slot) by {
        assert(p.points(now).contains(points[i]));
    }
    if is_heard(p, slot, now) {
        vstd::arithmetic::div_mod::lemma_mod_bound(p.slots[slot].residual_us as int, p.turn_us as int);
        let point = PhasePoint { phase: phase_of(p, slot) as u32, slot };
        assert(p.points(now).contains(point));
        assert(points.contains(point));
        let i = choose|i: int| 0 <= i < points.len() && points[i] == point;
        assert(points[i].slot == slot);
    }
    if exists|i: int| 0 <= i < points.len() && (#[trigger] points[i]).slot == slot {
        let i = choose|i: int| 0 <= i < points.len() && (#[trigger] points[i]).slot == slot;
        assert(p.points(now).contains(points[i]));
    }
}

proof fn lemma_span_is_least(points: Seq<PhasePoint>, turn_us: u32, i: int) -> (j: int)
    requires
        placed(points, turn_us),
        0 <= i < points.len(),
    ensures
        0 <= j < points.len(),
        (points[i].phase - points[j].phase) % (turn_us as int) >= crate::phase::cluster_span(points, turn_us),
    decreases points.len() - i,
{
    let n = points.len() as int;
    lemma_widest(points, turn_us, n, i);
    if i == n - 1 {
        lemma_ordered(points, turn_us, 0, i);
        vstd::arithmetic::div_mod::lemma_small_mod((points[i].phase - points[0].phase) as nat, turn_us as nat);
        0
    } else if points[i + 1].phase == points[i].phase {
        lemma_span_is_least(points, turn_us, i + 1)
    } else {
        lemma_ordered(points, turn_us, i, i + 1);
        let back = points[i].phase - points[i + 1].phase;
        vstd::arithmetic::div_mod::lemma_small_mod((back + turn_us) as nat, turn_us as nat);
        vstd::arithmetic::div_mod::lemma_mod_add_multiples_vanish(back, turn_us as int);
        i + 1
    }
}

/// Whether there is no call to command anything, on a slot's account or on none: it is not
/// yet time, the controller has given up, the slot is heard and does not keep pace, no other
/// is heard, or all others are at most three milliseconds behind it.
pub open spec fn no_call(p: PhaseView, now: Instant, a: SlotId) -> bool {
    ||| p.disabled
    ||| p.next_eval_at is None
    ||| p.next_eval_at is Some && now.nanos < p.next_eval_at->0.nanos
    ||| is_heard(p, a, now) && !keeps_pace(p, a)
    ||| forall|s: SlotId| #[trigger] is_heard(p, s, now) ==> s == a
    ||| is_heard(p, a, now) && forall|s: SlotId| #[trigger] is_heard(p, s, now) ==> behind(p, s, a) <= 3_000
}

/// Nothing is commanded before its time, once the controller has given up, while any slot
/// that is heard does not keep pace, with fewer than two heard, or where some slot has all
/// others at most three milliseconds behind it.
pub proof fn law_nothing_is_commanded_without_need(p: PhaseView, now: Instant, a: SlotId)
    requires
        sound(p),
        no_call(p, now, a),
    ensures
        p.issued(now).len() == 0,
{
    let points = crate::ordmap::listing(p.points(now));
    lemma_placed(p, now);
    lemma_points_listed(p, now);
    lemma_heard(p, now, a);
    if is_heard(p, a, now) && !keeps_pace(p, a) {
        assert(p.slots.contains_key(a) && p.slots[a].measurable(now));
        assert(p.churning(now));
    }
    if points.len() >= 2 {
        lemma_heard(p, now, points[0].slot);
        lemma_heard(p, now, points[1].slot);
        assert(points[0].rank() < points[1].rank());
        if points[0].slot == points[1].slot {
            assert(points[0].phase == points[1].phase);
        }
        if is_heard(p, a, now) && forall|s: SlotId| #[trigger] is_heard(p, s, now) ==> behind(p, s, a) <= 3_000 {
            let i = choose|i: int| 0 <= i < points.len() && (#[trigger] points[i]).slot == a;
            let j = lemma_span_is_least(points, p.turn_us, i);
            lemma_heard(p, now, points[j].slot);
            assert(is_heard(p, points[j].slot, now));
            assert(behind(p, points[j].slot, a) <= 3_000);
        }
    }
}

/// The delay a slot is held back by.
pub open spec fn held_by(p: PhaseView, slot: SlotId) -> int {
    if p.commanded.contains_key(slot) { p.commanded[slot] as int } else { 0 }
}

/// Whether a slot's new delay brings it onto a phase `gap` ahead of its own: the whole way,
/// or the eight milliseconds that one step may take, or as far as a delay may go; and
/// backwards only where that is the shorter way and the delay it has allows it.
pub open spec fn brings_onto(held: int, gap: int, turn_us: u32, next: int) -> bool {
    if held >= turn_us - gap && turn_us - gap < gap {
        next == held - (if turn_us - gap <= 8_000 { turn_us - gap } else { 8_000 })
    } else {
        let ahead = held + if gap <= 8_000 { gap } else { 8_000 };
        next == if ahead < turn_us { ahead } else { turn_us - 1 }
    }
}

proof fn lemma_brings_onto(p: PhaseView, point: PhasePoint, target: u32)
    requires
        sound(p),
        point.phase < p.turn_us,
        target < p.turn_us,
    ensures
        brings_onto(
            held_by(p, point.slot),
            (target - point.phase) % (p.turn_us as int),
            p.turn_us,
            crate::phase::next_delay(held_by(p, point.slot), point.phase as int, target as int, p.turn_us),
        ),
{
    vstd::arithmetic::div_mod::lemma_mod_bound(target - point.phase, p.turn_us as int);
}

proof fn lemma_all_corrected(p: PhaseView, points: Seq<PhasePoint>, target: u32, n: int, i: int)
    requires
        0 <= i < n <= points.len(),
        p.correction(points[i], target) is Some,
    ensures
        p.corrections(points, target, n).contains((points[i].slot, p.correction(points[i], target)->0)),
    decreases n,
{
    let all = p.corrections(points, target, n);
    let before = p.corrections(points, target, n - 1);
    if i < n - 1 {
        lemma_all_corrected(p, points, target, n - 1, i);
        let k = choose|k: int| 0 <= k < before.len() && before[k] == (points[i].slot, p.correction(points[i], target)->0);
        assert(all[k] == before[k]);
    } else {
        assert(all[before.len() as int] == (points[i].slot, p.correction(points[i], target)->0));
    }
}

proof fn lemma_corrected_as_due(p: PhaseView, points: Seq<PhasePoint>, target: u32, n: int, k: int) -> (i: int)
    requires
        0 <= n <= points.len(),
        0 <= k < p.corrections(points, target, n).len(),
    ensures
        0 <= i < n,
        p.corrections(points, target, n)[k].0 == points[i].slot,
        p.correction(points[i], target) == Some(p.corrections(points, target, n)[k].1),
    decreases n,
{
    let before = p.corrections(points, target, n - 1);
    if k < before.len() {
        lemma_corrected_as_due(p, points, target, n - 1, k)
    } else {
        n - 1
    }
}

/// Whether some slot that is heard is at least so far behind another.
pub open spec fn someone_behind(p: PhaseView, now: Instant, slot: SlotId, distance: int) -> bool {
    exists|u: SlotId| #[trigger] is_heard(p, u, now) && behind(p, u, slot) >= distance
}

/// Whether a slot is one to gather the others onto: none is further behind it than
/// `distance`, and behind whichever other slot someone would be that far too.
pub open spec fn gathers(p: PhaseView, now: Instant, slot: SlotId, distance: int) -> bool {
    &&& is_heard(p, slot, now)
    &&& forall|s: SlotId| #[trigger] is_heard(p, s, now) ==> behind(p, s, slot) <= distance
    &&& forall|t: SlotId| is_heard(p, t, now) ==> #[trigger] someone_behind(p, now, t, distance)
}

/// Whether every command brings a slot that is heard onto the given one.
pub open spec fn all_brought_onto(p: PhaseView, now: Instant, onto: SlotId) -> bool {
    forall|k: int|
        0 <= k < p.issued(now).len() ==> is_heard(p, (#[trigger] p.issued(now)[k]).0, now) && brings_onto(
            held_by(p, p.issued(now)[k].0),
            behind(p, p.issued(now)[k].0, onto),
            p.turn_us,
            p.issued(now)[k].1 as int,
        )
}

/// Whether a slot that is heard and not waited for is commanded to what brings it onto the
/// given one, where that takes more than a millisecond.
pub open spec fn is_brought_onto(p: PhaseView, now: Instant, onto: SlotId, slot: SlotId, next: u32) -> bool {
    is_heard(p, slot, now) && !p.awaiting.contains(slot) && brings_onto(
        held_by(p, slot),
        behind(p, slot, onto),
        p.turn_us,
        next as int,
    ) && (next > held_by(p, slot) + 1_000 || next < held_by(p, slot) - 1_000) ==> p.issued(now).contains((slot, next))
}

proof fn lemma_gathers(p: PhaseView, now: Instant)
    requires
        sound(p),
        crate::ordmap::listing(p.points(now)).len() > 0,
    ensures
        ({
            let points = crate::ordmap::listing(p.points(now));
            let end = crate::phase::cluster_end(points, p.turn_us);
            &&& 0 <= end < points.len()
            &&& gathers(p, now, points[end].slot, crate::phase::cluster_span(points, p.turn_us))
        }),
{
    let points = crate::ordmap::listing(p.points(now));
    lemma_placed(p, now);
    lemma_cluster(points, p.turn_us, 0);
    let end = crate::phase::cluster_end(points, p.turn_us);
    let onto = points[end].slot;
    let span = crate::phase::cluster_span(points, p.turn_us);
    lemma_heard(p, now, onto);
    assert forall|s: SlotId| #[trigger] is_heard(p, s, now) implies behind(p, s, onto) <= span by {
        lemma_heard(p, now, s);
        let i = choose|i: int| 0 <= i < points.len() && (#[trigger] points[i]).slot == s;
        lemma_cluster(points, p.turn_us, i);
    }
    assert forall|t: SlotId| is_heard(p, t, now) implies #[trigger] someone_behind(p, now, t, span) by {
        lemma_heard(p, now, t);
        let j = choose|j: int| 0 <= j < points.len() && (#[trigger] points[j]).slot == t;
        let w = lemma_span_is_least(points, p.turn_us, j);
        lemma_heard(p, now, points[w].slot);
        assert(is_heard(p, points[w].slot, now) && behind(p, points[w].slot, t) >= span);
    }
}

proof fn lemma_all_brought_onto(p: PhaseView, now: Instant)
    requires
        sound(p),
        p.issued(now).len() > 0,
    ensures
        ({
            let points = crate::ordmap::listing(p.points(now));
            all_brought_onto(p, now, points[crate::phase::cluster_end(points, p.turn_us)].slot)
        }),
{
    let points = crate::ordmap::listing(p.points(now));
    let n = points.len() as int;
    lemma_placed(p, now);
    lemma_cluster(points, p.turn_us, 0);
    let end = crate::phase::cluster_end(points, p.turn_us);
    let onto = points[end].slot;
    let target = points[end].phase;
    lemma_heard(p, now, onto);
    assert forall|k: int| 0 <= k < p.issued(now).len() implies is_heard(p, (#[trigger] p.issued(now)[k]).0, now)
        && brings_onto(
        held_by(p, p.issued(now)[k].0),
        behind(p, p.issued(now)[k].0, onto),
        p.turn_us,
        p.issued(now)[k].1 as int,
    ) by {
        let i = lemma_corrected_as_due(p, points, target, n, k);
        lemma_heard(p, now, points[i].slot);
        lemma_brings_onto(p, points[i], target);
        lemma_next_delay(p.current_delay(points[i].slot) as int, points[i].phase as int, target as int, p.turn_us);
    }
}

/// Every command brings its slot onto one and the same slot, one that all others gather onto
/// with the least distance to go; and each slot that is heard and not waited for is
/// commanded, where that takes more than a millisecond.
pub proof fn law_commands_gather_the_slots(p: PhaseView, now: Instant) -> (r: (SlotId, int))
    requires
        sound(p),
        p.issued(now).len() > 0,
    ensures
        gathers(p, now, r.0, r.1),
        all_brought_onto(p, now, r.0),
        forall|s: SlotId, next: u32| #[trigger] is_brought_onto(p, now, r.0, s, next),
{
    let points = crate::ordmap::listing(p.points(now));
    let onto = points[crate::phase::cluster_end(points, p.turn_us)].slot;
    lemma_gathers(p, now);
    lemma_all_brought_onto(p, now);
    assert forall|s: SlotId, next: u32| #[trigger] is_brought_onto(p, now, onto, s, next) by {
        lemma_owed(p, now, s, next);
    }
    (onto, crate::phase::cluster_span(points, p.turn_us))
}

/// Whether commands are owed: it is time, the controller has not given up nor is about to,
/// and every slot that is heard keeps pace.
pub open spec fn commands_owed(p: PhaseView, now: Instant) -> bool {
    &&& !p.disabled
    &&& p.next_eval_at is Some && now.nanos >= p.next_eval_at->0.nanos
    &&& p.unconverged_rounds < 7
    &&& forall|s: SlotId| #[trigger] is_heard(p, s, now) ==> keeps_pace(p, s)
}

/// Where commands are owed and, whichever slot the others would gather onto, some slot is
/// more than three milliseconds behind it, each slot that is heard and not waited for is
/// commanded onto one and the same slot, where that takes more than a millisecond.
pub proof fn law_a_spread_session_is_commanded(p: PhaseView, now: Instant, a: SlotId, b: SlotId) -> (r: (SlotId, int))
    requires
        sound(p),
        commands_owed(p, now),
        is_heard(p, a, now) && is_heard(p, b, now) && a != b,
        forall|t: SlotId| is_heard(p, t, now) ==> #[trigger] someone_behind(p, now, t, 3_001),
    ensures
        gathers(p, now, r.0, r.1),
        forall|s: SlotId, next: u32| #[trigger] is_brought_onto(p, now, r.0, s, next),
        p.evaluate(now).unconverged_rounds == p.unconverged_rounds + 1,
        p.evaluate(now).last_span_us is Some && p.evaluate(now).last_span_us->0 == r.1,
{
    let points = crate::ordmap::listing(p.points(now));
    lemma_placed(p, now);
    lemma_points_listed(p, now);
    lemma_heard(p, now, a);
    lemma_heard(p, now, b);
    let i = choose|i: int| 0 <= i < points.len() && (#[trigger] points[i]).slot == a;
    let j = choose|j: int| 0 <= j < points.len() && (#[trigger] points[j]).slot == b;
    assert(i != j);
    lemma_gathers(p, now);
    lemma_cluster(points, p.turn_us, 0);
    let end = crate::phase::cluster_end(points, p.turn_us);
    let onto = points[end].slot;
    let span = crate::phase::cluster_span(points, p.turn_us);
    assert(someone_behind(p, now, onto, 3_001));
    assert(span > 3_000);
    if p.churning(now) {
        let s = choose|s: SlotId| #[trigger]
            p.slots.contains_key(s) && p.slots[s].measurable(now) && !p.slots[s].healthy(p.turn_us);
        assert(is_heard(p, s, now));
    }
    assert forall|s: SlotId, next: u32| #[trigger] is_brought_onto(p, now, onto, s, next) by {
        lemma_owed(p, now, s, next);
    }
    let spanned = PhaseView { last_span_us: Some(span as i64), ..p };
    lemma_commanding_keeps_the_span(spanned, p.issued(now), p.issued(now).len() as int);
    (onto, span)
}

proof fn lemma_commanding_keeps_the_span(p: PhaseView, corrections: Seq<(SlotId, u32)>, n: int)
    ensures
        p.commanding(corrections, n).last_span_us == p.last_span_us,
    decreases n,
{
    if n > 0 {
        lemma_commanding_keeps_the_span(p, corrections, n - 1);
    }
}

proof fn lemma_owed(p: PhaseView, now: Instant, slot: SlotId, next: u32)
    requires
        sound(p),
        p.due(now),
        !p.churning(now),
        crate::ordmap::listing(p.points(now)).len() >= 2,
        crate::phase::cluster_span(crate::ordmap::listing(p.points(now)), p.turn_us) > SPAN_DEAD_BAND_US,
        p.unconverged_rounds < 7,
    ensures
        ({
            let points = crate::ordmap::listing(p.points(now));
            is_brought_onto(p, now, points[crate::phase::cluster_end(points, p.turn_us)].slot, slot, next)
        }),
{
    let points = crate::ordmap::listing(p.points(now));
    lemma_placed(p, now);
    lemma_cluster(points, p.turn_us, 0);
    let end = crate::phase::cluster_end(points, p.turn_us);
    let target = points[end].phase;
    lemma_heard(p, now, points[end].slot);
    lemma_heard(p, now, slot);
    if is_heard(p, slot, now) && !p.awaiting.contains(slot) {
        let i = choose|i: int| 0 <= i < points.len() && (#[trigger] points[i]).slot == slot;
        lemma_brings_onto(p, points[i], target);
        lemma_next_delay(p.current_delay(slot) as int, points[i].phase as int, target as int, p.turn_us);
        if p.correction(points[i], target) is Some {
            lemma_all_corrected(p, points, target, points.len() as int, i);
        }
    }
}

/// A move that is neither capped nor at the end of what a delay may be puts a slot exactly
/// in the other's phase.
pub proof fn law_an_uncapped_move_aligns(p: PhaseView, slot: SlotId, onto: SlotId, next: int)
    requires
        sound(p),
        brings_onto(held_by(p, slot), behind(p, slot, onto), p.turn_us, next),
        next - held_by(p, slot) < 8_000,
        held_by(p, slot) - next < 8_000,
        next < p.turn_us - 1,
    ensures
        (phase_of(p, slot) + next - held_by(p, slot)) % (p.turn_us as int) == phase_of(p, onto),
{
    let turn = p.turn_us as int;
    let a = phase_of(p, slot);
    let b = phase_of(p, onto);
    let gap = behind(p, slot, onto);
    vstd::arithmetic::div_mod::lemma_mod_bound(p.slots[slot].residual_us as int, turn);
    vstd::arithmetic::div_mod::lemma_mod_bound(p.slots[onto].residual_us as int, turn);
    vstd::arithmetic::div_mod::lemma_mod_bound(b - a, turn);
    if b >= a {
        vstd::arithmetic::div_mod::lemma_small_mod((b - a) as nat, turn as nat);
    } else {
        vstd::arithmetic::div_mod::lemma_small_mod((b - a + turn) as nat, turn as nat);
        vstd::arithmetic::div_mod::lemma_mod_add_multiples_vanish(b - a, turn);
    }
    let moved = a + next - held_by(p, slot);
    vstd::arithmetic::div_mod::lemma_small_mod(b as nat, turn as nat);
    vstd::arithmetic::div_mod::lemma_mod_add_multiples_vanish(b, turn);
    vstd::arithmetic::div_mod::lemma_mod_add_multiples_vanish(b - turn, turn);
    assert(moved == b || moved == b + turn || moved == b - turn);
}

/// Whether `next` is a thirty-second of the way from one value to another, rounded down.
pub open spec fn creeps(prior: int, sample: int, next: int) -> bool {
    32 * (next - prior) <= sample - prior < 32 * (next - prior) + 32
}

/// A newer arrival moves its slot's phase a thirty-second of the way to where it fell, and,
/// at most four turns after the last, its pace likewise, a pace over four turns counting as
/// four. The first sets the phase outright. An older one teaches nothing.
pub proof fn law_an_arrival_moves_the_phase_a_little(p: PhaseView, slot: SlotId, seq: u64, now: Instant)
    requires
        p.epoch is Some,
        p.epoch->0.nanos <= now.nanos,
        seq * p.turn_us <= i64::MAX,
    ensures
        ({
            let next = p.note_arrival(slot, seq, now).slots[slot];
            let fell = (now.nanos - p.epoch->0.nanos) / 1000 - seq * p.turn_us;
            &&& p.note_arrival(slot, seq, now).slots.contains_key(slot)
            &&& !p.slots.contains_key(slot) ==> next.residual_us == fell && next.samples == 1 && next.last_seq == seq
                && next.last_sample == now && next.interval_us is None
            &&& p.slots.contains_key(slot) && seq > p.slots[slot].last_seq ==> {
                let was = p.slots[slot];
                &&& creeps(was.residual_us as int, fell, next.residual_us as int)
                &&& next.last_seq == seq && next.last_sample == now
                &&& was.samples < u32::MAX ==> next.samples == was.samples + 1
                &&& seq > was.last_seq + 4 ==> next.interval_us == was.interval_us
                &&& seq <= was.last_seq + 4 && was.last_sample.nanos <= now.nanos ==> {
                    let per_turn = (now.nanos - was.last_sample.nanos) / 1000 / (seq - was.last_seq);
                    let pace = if per_turn <= 4 * p.turn_us { per_turn } else { 4 * p.turn_us };
                    &&& next.interval_us is Some
                    &&& was.interval_us is None ==> next.interval_us->0 == pace
                    &&& was.interval_us is Some ==> creeps(was.interval_us->0 as int, pace, next.interval_us->0 as int)
                }
            }
        }),
{
    let fell = (now.nanos - p.epoch->0.nanos) / 1000 - seq * p.turn_us;
    assert(seq * p.turn_us >= 0) by (nonlinear_arith)
        requires
            seq >= 0,
            p.turn_us >= 0,
    ;
    assert(-i64::MAX <= fell <= i64::MAX);
    if p.slots.contains_key(slot) && seq > p.slots[slot].last_seq && seq <= p.slots[slot].last_seq + 4
        && p.slots[slot].last_sample.nanos <= now.nanos {
        let us = (now.nanos - p.slots[slot].last_sample.nanos) as int / 1000;
        let turns = seq - p.slots[slot].last_seq;
        vstd::arithmetic::div_mod::lemma_div_pos_is_pos(us, turns);
    }
}

/// The first arrival begins the count of time, and looks at the phases five seconds on.
pub proof fn law_the_first_arrival_begins_the_count(p: PhaseView, slot: SlotId, seq: u64, now: Instant)
    requires
        now.nanos <= u64::MAX - 5_000_000_000,
    ensures
        p.epoch is None ==> p.note_arrival(slot, seq, now).epoch == Some(now),
        p.epoch is Some ==> p.note_arrival(slot, seq, now).epoch == p.epoch,
        p.next_eval_at is None ==> p.note_arrival(slot, seq, now).next_eval_at is Some && p.note_arrival(
            slot,
            seq,
            now,
        ).next_eval_at->0.nanos == now.nanos + 5_000_000_000,
        p.next_eval_at is Some ==> p.note_arrival(slot, seq, now).next_eval_at == p.next_eval_at,
{
}

/// The pressure for a deeper buffer is one turn once some slot that is heard has been
/// slower than the game by more than 800 microseconds a turn for five seconds on end, and
/// none otherwise; the stretch is timed from when it was first seen, and forgotten when it
/// ends.
pub proof fn law_a_slow_slot_presses_in_time(p: PhaseView, now: Instant)
    ensures
        ({
            let slow = exists|s: SlotId| #[trigger]
                is_heard(p, s, now) && p.slots[s].interval_us is Some && p.slots[s].interval_us->0 > p.turn_us + 800;
            &&& p.stretch_turns(now) == if slow && p.stretch_since is Some && now.nanos >= p.stretch_since->0.nanos
                + 5_000_000_000 { 1int } else { 0 }
            &&& slow ==> p.pressed(now).stretch_since == if p.stretch_since is Some { p.stretch_since } else { Some(now) }
            &&& !slow ==> p.pressed(now).stretch_since is None && !p.pressed(now).stretch_pressing
            &&& p.pressed(now).slots == p.slots && p.pressed(now).commanded == p.commanded && p.pressed(now).awaiting
                == p.awaiting && p.pressed(now).next_eval_at == p.next_eval_at
        }),
{
    if p.stretched(now) {
        let s = choose|s: SlotId| #[trigger]
            p.slots.contains_key(s) && p.slots[s].measurable(now) && p.slots[s].stretched(p.turn_us);
        assert(is_heard(p, s, now));
    }
    if exists|s: SlotId| #[trigger]
        is_heard(p, s, now) && p.slots[s].interval_us is Some && p.slots[s].interval_us->0 > p.turn_us + 800 {
        let s = choose|s: SlotId| #[trigger]
            is_heard(p, s, now) && p.slots[s].interval_us is Some && p.slots[s].interval_us->0 > p.turn_us + 800;
        assert(p.slots.contains_key(s) && p.slots[s].measurable(now) && p.slots[s].stretched(p.turn_us));
    }
}

proof fn lemma_widest_change(p: PhaseView, corrections: Seq<(SlotId, u32)>, n: int, k: int)
    requires
        0 <= k < n <= corrections.len(),
    ensures
        p.widest_change(corrections, n) >= crate::phase::abs(corrections[k].1 - p.current_delay(corrections[k].0)),
    decreases n,
{
    if k < n - 1 {
        lemma_widest_change(p, corrections, n - 1, k);
    }
}

proof fn lemma_widest_is_capped(p: PhaseView, corrections: Seq<(SlotId, u32)>, n: int)
    requires
        0 <= n <= corrections.len(),
        forall|k: int|
            0 <= k < n ==> crate::phase::abs((#[trigger] corrections[k]).1 - p.current_delay(corrections[k].0)) <= 8_000,
    ensures
        0 <= p.widest_change(corrections, n) <= 8_000,
    decreases n,
{
    if n > 0 {
        lemma_widest_is_capped(p, corrections, n - 1);
    }
}

/// After a round of commands the phases are looked at again once the widest of them has had
/// the time to be carried out, at two milliseconds a second, and eight seconds to settle;
/// where there was nothing to command, in five seconds.
pub proof fn law_the_next_look_waits_for_the_commands(p: PhaseView, now: Instant, k: int)
    requires
        sound(p),
        now.nanos <= u64::MAX - 12_000_000_000,
        p.due(now),
    ensures
        0 <= k < p.issued(now).len() ==> p.evaluate(now).next_eval_at is Some && p.evaluate(now).next_eval_at->0.nanos
            >= now.nanos + 8_000_000_000 + 500_000 * (p.issued(now)[k].1 - held_by(p, p.issued(now)[k].0))
            && p.evaluate(now).next_eval_at->0.nanos >= now.nanos + 8_000_000_000 - 500_000 * (p.issued(now)[k].1 - held_by(
            p,
            p.issued(now)[k].0,
        )),
        p.issued(now).len() == 0 && !p.evaluate(now).disabled ==> p.evaluate(now).next_eval_at is Some && p.evaluate(
            now,
        ).next_eval_at->0.nanos == now.nanos + 5_000_000_000,
{
    let issued = p.issued(now);
    let n = issued.len() as int;
    assert forall|j: int| 0 <= j < n implies crate::phase::abs((#[trigger] issued[j]).1 - p.current_delay(issued[j].0))
        <= 8_000 by {
        law_commands_are_small_steps(p, now, j);
    }
    lemma_widest_is_capped(p, issued, n);
    if 0 <= k < n {
        lemma_widest_change(p, issued, n, k);
    }
}

/// An echo of exactly what was commanded ends the wait for its slot, and puts off the next
/// look by twelve seconds, the time of the longest step and of settling; any other echo
/// changes nothing.
pub proof fn law_a_matching_echo_ends_the_wait(p: PhaseView, slot: SlotId, echo: u32, now: Instant)
    requires
        now.nanos <= u64::MAX - 12_000_000_000,
    ensures
        ({
            let next = p.note_applied(slot, echo, now);
            let same = p.commanded.contains_key(slot) && p.commanded[slot] == echo && p.awaiting.contains(slot);
            &&& !same ==> next == p
            &&& same ==> next.awaiting == p.awaiting.remove(slot) && next.commanded == p.commanded
                && next.next_eval_at is Some && next.next_eval_at->0.nanos >= now.nanos + 12_000_000_000 && (
            p.next_eval_at is Some ==> next.next_eval_at->0.nanos >= p.next_eval_at->0.nanos) && (
            next.next_eval_at->0.nanos == now.nanos + 12_000_000_000 || next.next_eval_at == p.next_eval_at)
        }),
{
}

/// A look that finds the slots together gives back the rounds used up; one that finds them
/// apart uses one up, and the eighth in a row ends the commands for good.
pub proof fn law_eight_rounds_apart_end_the_commands(p: PhaseView, now: Instant, a: SlotId, b: SlotId)
    requires
        sound(p),
        !p.disabled,
        p.next_eval_at is Some && now.nanos >= p.next_eval_at->0.nanos,
        forall|s: SlotId| #[trigger] is_heard(p, s, now) ==> keeps_pace(p, s),
        is_heard(p, a, now) && is_heard(p, b, now) && a != b,
    ensures
        (forall|s: SlotId| #[trigger] is_heard(p, s, now) ==> behind(p, s, a) <= 3_000) ==> p.evaluate(
            now,
        ).unconverged_rounds == 0 && !p.evaluate(now).disabled,
        (forall|t: SlotId| is_heard(p, t, now) ==> #[trigger] someone_behind(p, now, t, 3_001)) && p.unconverged_rounds >= 7
            ==> p.evaluate(now).disabled && p.issued(now).len() == 0,
        (forall|t: SlotId| is_heard(p, t, now) ==> #[trigger] someone_behind(p, now, t, 3_001)) && p.unconverged_rounds < 7
            ==> !p.evaluate(now).disabled && p.evaluate(now).unconverged_rounds == p.unconverged_rounds + 1,
{
    let points = crate::ordmap::listing(p.points(now));
    lemma_placed(p, now);
    lemma_points_listed(p, now);
    lemma_heard(p, now, a);
    lemma_heard(p, now, b);
    let i = choose|i: int| 0 <= i < points.len() && (#[trigger] points[i]).slot == a;
    let j = choose|j: int| 0 <= j < points.len() && (#[trigger] points[j]).slot == b;
    assert(i != j);
    lemma_gathers(p, now);
    let end = crate::phase::cluster_end(points, p.turn_us);
    let span = crate::phase::cluster_span(points, p.turn_us);
    if p.churning(now) {
        let s = choose|s: SlotId| #[trigger]
            p.slots.contains_key(s) && p.slots[s].measurable(now) && !p.slots[s].healthy(p.turn_us);
        assert(is_heard(p, s, now));
    }
    if forall|s: SlotId| #[trigger] is_heard(p, s, now) ==> behind(p, s, a) <= 3_000 {
        let w = lemma_span_is_least(points, p.turn_us, i);
        lemma_heard(p, now, points[w].slot);
        assert(is_heard(p, points[w].slot, now));
        assert(span <= 3_000);
    }
    if forall|t: SlotId| is_heard(p, t, now) ==> #[trigger] someone_behind(p, now, t, 3_001) {
        assert(someone_behind(p, now, points[end].slot, 3_001));
        assert(span > 3_000);
    }
    lemma_commanding_keeps_the_latch(
        PhaseView { last_span_us: Some(span as i64), ..p },
        p.issued(now),
        p.issued(now).len() as int,
    );
}

proof fn lemma_commanding_keeps_the_latch(p: PhaseView, corrections: Seq<(SlotId, u32)>, n: int)
    ensures
        p.commanding(corrections, n).disabled == p.disabled,
    decreases n,
{
    if n > 0 {
        lemma_commanding_keeps_the_latch(p, corrections, n - 1);
    }
}

/// Every command issued is counted.
pub proof fn law_commands_are_counted(p: PhaseView, now: Instant)
    requires
        p.corrections_issued + p.issued(now).len() <= u64::MAX,
    ensures
        p.evaluate(now).corrections_issued == p.corrections_issued + p.issued(now).len(),
{
}

/// A controller begins with nothing heard and nothing commanded, at the turn it is given, or
/// at a twenty-fourth of a second for none.
pub proof fn law_a_controller_begins_with_nothing(turn_duration_us: u32)
    ensures
        ({
            let p = PhaseView::fresh(turn_duration_us);
            &&& turn_duration_us > 0 ==> p.turn_us == turn_duration_us
            &&& turn_duration_us == 0 ==> p.turn_us == 41_666
            &&& p.slots.dom() =~= Set::empty() && p.commanded.dom() =~= Set::empty() && p.awaiting =~= Set::empty()
            &&& p.epoch is None && p.next_eval_at is None && !p.disabled && p.unconverged_rounds == 0
            &&& p.stretch_since is None && p.corrections_issued == 0 && p.last_span_us is None
        }),
{
}

} // verus!
