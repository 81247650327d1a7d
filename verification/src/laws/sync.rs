//! Laws of the desync comparator: turn ordering, comparison and verdicts.
use crate::ids::SlotId;
use crate::maker::MakerView;
use crate::sync::rate_limit::TokensView;
use crate::sync::tracker::DivergenceView;
use crate::sync::tracker::SyncObservation;
use crate::sync::tracker::SyncReport;
use crate::sync::tracker::TrackerView;
use crate::sync::turns::SlotTurnsView;
use crate::sync::turns::SyncGap;
use crate::sync::turns::SyncMode;
use crate::sync::turns::SyncTurn;
use crate::sync::turns::SYNC_TURN_WINDOW;
use crate::sync::GAME_SYNC_SAFE_BUFFER_MAX;
use crate::sync::SYNC_WINDOW;
use crate::time::Instant;
use vstd::prelude::*;

verus! {

/// An origin that failed has nothing kept, takes nothing more and hands nothing out.
pub proof fn law_a_failed_origin_stays_failed(o: SlotTurnsView, reason: &'static str, seq: u64, turn: SyncTurn, next: u64, later: SyncTurn)
    ensures
        ({
            let failed = o.failed(reason, seq, turn);
            &&& failed.failure is Some
            &&& failed.push(next, later) == failed
            &&& failed.pushed(next, later) == Ok::<Option<SyncTurn>, crate::sync::turns::SyncOrderingFailure>(None)
            &&& failed.pop() == failed
            &&& failed.popped() == Ok::<Option<SyncTurn>, crate::sync::turns::SyncOrderingFailure>(None)
        }),
{
}

/// Turns come out in order, each once: a turn is handed out only as the next in sequence,
/// and handing one out is the only thing that moves the sequence on.
pub proof fn law_turns_come_out_in_order(o: SlotTurnsView, seq: u64, turn: SyncTurn)
    ensures
        o.pushed(seq, turn) is Ok && (o.pushed(seq, turn)->Ok_0) is Some ==> seq == o.next && o.push(seq, turn).next
            == o.next + 1,
        o.pushed(seq, turn) == Ok::<Option<SyncTurn>, crate::sync::turns::SyncOrderingFailure>(None) || o.pushed(
            seq,
            turn,
        ) is Err ==> o.push(seq, turn).next == o.next,
        o.popped() is Ok && (o.popped()->Ok_0) is Some ==> o.pending.contains_key(o.next) && o.pop().next == o.next + 1,
        o.popped() == Ok::<Option<SyncTurn>, crate::sync::turns::SyncOrderingFailure>(None) || o.popped() is Err
            ==> o.pop().next == o.next,
{
}

/// Whether every turn kept for later is within the receive window of the next one in
/// order, or of the first one that has not arrived.
pub open spec fn keeps_to_the_window(o: SlotTurnsView) -> bool {
    forall|q: u64| #[trigger]
        o.pending.contains_key(q) ==> q - o.next < SYNC_TURN_WINDOW || q - o.first_missing() < SYNC_TURN_WINDOW
}

proof fn lemma_missing_grows(a: SlotTurnsView, b: SlotTurnsView, n: u64)
    requires
        forall|q: u64| q >= n && #[trigger] a.pending.contains_key(q) ==> b.pending.contains_key(q),
    ensures
        n <= a.missing_from(n) <= b.missing_from(n),
    decreases u64::MAX - n,
{
    if n < u64::MAX {
        lemma_missing_grows(a, b, (n + 1) as u64);
        if !a.pending.contains_key(n) && b.pending.contains_key(n) {
            lemma_missing_grows(b, b, (n + 1) as u64);
        }
    }
}

proof fn lemma_window_step(o: SlotTurnsView, next: SlotTurnsView)
    requires
        keeps_to_the_window(o),
        o.next < u64::MAX,
        next.next == o.next + 1,
        next.pending == o.pending || (o.pending.contains_key(o.next) && next.pending == o.pending.remove(o.next)),
    ensures
        keeps_to_the_window(next),
{
    lemma_missing_grows(o, next, next.next);
    lemma_missing_grows(next, next, next.next);
    assert(next.first_missing() >= o.first_missing());
}

/// What happens to one origin's turns.
pub enum TurnStep {
    Arrives(u64, SyncTurn),
    NextTaken,
}

/// The origin once every one of `steps` has happened to it, in order.
pub open spec fn origin_after(o: SlotTurnsView, steps: Seq<TurnStep>) -> SlotTurnsView
    decreases steps.len(),
{
    if steps.len() == 0 {
        o
    } else {
        let before = origin_after(o, steps.drop_last());
        match steps.last() {
            TurnStep::Arrives(seq, turn) => before.push(seq, turn),
            TurnStep::NextTaken => before.pop(),
        }
    }
}

/// Turns are only kept within the receive window, at first and whatever arrives or is
/// taken.
pub proof fn law_kept_turns_stay_in_the_window(o: SlotTurnsView, seq: u64, turn: SyncTurn)
    requires
        keeps_to_the_window(o),
    ensures
        keeps_to_the_window(SlotTurnsView::fresh()),
        keeps_to_the_window(o.push(seq, turn)),
        keeps_to_the_window(o.pop()),
{
    let pushed = o.push(seq, turn);
    if o.failure is None && seq >= o.next {
        if seq == o.next {
            if o.reading(turn) is Ok {
                lemma_window_step(o, pushed);
            }
        } else if o.refusal(seq) is None && !o.pending.contains_key(seq) {
            lemma_missing_grows(o, pushed, o.next);
        }
    }
    if o.pending.contains_key(o.next) {
        if o.without_next().reading(o.pending[o.next]) is Ok {
            lemma_window_step(o, o.pop());
        }
    }
}

/// Whatever arrived and was taken, an origin keeps turns only within the receive window.
pub proof fn law_every_origin_keeps_to_the_window(steps: Seq<TurnStep>)
    ensures
        keeps_to_the_window(origin_after(SlotTurnsView::fresh(), steps)),
    decreases steps.len(),
{
    if steps.len() > 0 {
        law_every_origin_keeps_to_the_window(steps.drop_last());
        let before = origin_after(SlotTurnsView::fresh(), steps.drop_last());
        match steps.last() {
            TurnStep::Arrives(seq, turn) => {
                law_kept_turns_stay_in_the_window(before, seq, turn);
            },
            TurnStep::NextTaken => {
                let any = SyncTurn { frame: None, ordinal: None, command: None, generation: None, skipped: None };
                law_kept_turns_stay_in_the_window(before, 0, any);
            },
        }
    }
}

/// A repeated turn changes nothing, whether it was handed out already or is still kept
/// for later.
pub proof fn law_repeats_change_nothing(o: SlotTurnsView, seq: u64, turn: SyncTurn)
    requires
        keeps_to_the_window(o),
        seq < o.next || (seq > o.next && o.pending.contains_key(seq)),
    ensures
        o.push(seq, turn) == o,
        o.pushed(seq, turn) == Ok::<Option<SyncTurn>, crate::sync::turns::SyncOrderingFailure>(None),
{
    if seq > o.next {
        assert(o.refusal(seq) is None);
    }
}

/// However an origin came about, a repeated turn changes nothing of it.
pub proof fn law_repeats_never_change_an_origin(steps: Seq<TurnStep>, seq: u64, turn: SyncTurn)
    requires
        ({
            let o = origin_after(SlotTurnsView::fresh(), steps);
            seq < o.next || (seq > o.next && o.pending.contains_key(seq))
        }),
    ensures
        ({
            let o = origin_after(SlotTurnsView::fresh(), steps);
            &&& o.push(seq, turn) == o
            &&& o.pushed(seq, turn) == Ok::<Option<SyncTurn>, crate::sync::turns::SyncOrderingFailure>(None)
        }),
{
    law_every_origin_keeps_to_the_window(steps);
    law_repeats_change_nothing(origin_after(SlotTurnsView::fresh(), steps), seq, turn);
}

/// A turn inside the receive window that arrives early is kept, not refused for the gap
/// before it.
pub proof fn law_early_turns_are_kept(o: SlotTurnsView, seq: u64, turn: SyncTurn)
    requires
        o.failure is None,
        o.next < seq < o.next + SYNC_TURN_WINDOW,
        !o.pending.contains_key(seq),
        crate::ordmap::listing(o.pending.dom()).len() < SYNC_TURN_WINDOW,
    ensures
        o.push(seq, turn) == (SlotTurnsView { pending: o.pending.insert(seq, turn), ..o }),
{
}

/// Once counting, an origin's generations never go back, and move on by no more than a game's buffer.
pub proof fn law_generations_never_go_back(o: SlotTurnsView, seq: u64, turn: SyncTurn)
    requires
        o.ordinal is Some,
        o.mode is Some,
    ensures
        o.consume(seq, turn).ordinal is Some,
        o.consume(seq, turn).mode is Some,
        o.consume(seq, turn).ordinal->0 >= o.ordinal->0,
        o.consume(seq, turn).ordinal->0 <= o.ordinal->0 + GAME_SYNC_SAFE_BUFFER_MAX,
        o.mode == Some(SyncMode::Legacy) ==> o.consume(seq, turn).ordinal->0 <= o.ordinal->0 + 1,
{
}

/// How an origin counts its generations is fixed by its first report: it neither takes up
/// tagging nor drops it.
pub proof fn law_the_mode_is_fixed(o: SlotTurnsView, seq: u64, turn: SyncTurn)
    requires
        o.mode is Some,
    ensures
        o.push(seq, turn).mode == o.mode,
        o.pop().mode == o.mode,
        turn.command is Some && o.next < u64::MAX && (turn.generation is Some != (o.mode == Some(SyncMode::Enhanced)))
            ==> o.reading(turn) == Err::<SyncTurn, &'static str>("generation_mode_mismatch"),
{
}

/// An origin that counts has its mode fixed, from its first report on.
pub proof fn law_a_counting_origin_has_a_mode(o: SlotTurnsView, seq: u64, turn: SyncTurn)
    requires
        o.ordinal is Some ==> o.mode is Some,
    ensures
        SlotTurnsView::fresh().ordinal is None,
        o.push(seq, turn).ordinal is Some ==> o.push(seq, turn).mode is Some,
        o.pop().ordinal is Some ==> o.pop().mode is Some,
{
}

/// A tagged origin's left-out generations are marked, all of them and no others.
pub proof fn law_omissions_are_marked(o: SlotTurnsView, turn: SyncTurn)
    requires
        o.mode == Some(SyncMode::Enhanced),
        o.ordinal is Some,
        turn.skipped is None,
        turn.command is Some,
        o.reading(turn) is Ok,
    ensures
        ({
            let read = o.reading(turn)->Ok_0;
            &&& read.ordinal is Some
            &&& read.ordinal->0 > o.ordinal->0 + 1 ==> read.skipped == Some(
                SyncGap { first: (o.ordinal->0 + 1) as u64, end: read.ordinal->0 },
            )
            &&& read.ordinal->0 <= o.ordinal->0 + 1 ==> read.skipped is None
        }),
{
}

/// Agreement is no divergence, and changes nothing.
pub proof fn law_agreement_is_no_divergence(t: TrackerView, ordinal: u64, row: Map<SlotId, SyncObservation>)
    requires
        forall|a: SlotId, b: SlotId|
            #![trigger crate::sync::tracker::comparable(row, ordinal).contains(a), crate::sync::tracker::comparable(row, ordinal).contains(b)]
            crate::sync::tracker::comparable(row, ordinal).contains(a) && crate::sync::tracker::comparable(
                row,
                ordinal,
            ).contains(b) ==> crate::sync::tracker::reported(row, a) == crate::sync::tracker::reported(row, b),
    ensures
        t.verdict(ordinal, row) is None,
        t.judged(ordinal, row) == t,
{
}

/// The outvoted are fewer than half of those compared, and are among them; where there is
/// no majority nobody is outvoted.
pub proof fn law_the_outvoted_are_a_minority(row: Map<SlotId, SyncObservation>, ordinal: u64)
    ensures
        crate::sync::tracker::outvoted(row, ordinal).subset_of(crate::sync::tracker::comparable(row, ordinal)),
        crate::sync::tracker::has_majority(row, ordinal) ==> crate::sync::tracker::outvoted(row, ordinal).len() * 2
            < crate::sync::tracker::comparable(row, ordinal).len(),
        !crate::sync::tracker::has_majority(row, ordinal) ==> crate::sync::tracker::outvoted(row, ordinal).len() == 0,
{
    let all = crate::sync::tracker::comparable(row, ordinal);
    crate::laws::phase::lemma_slots_are_finite(all);
    if crate::sync::tracker::has_majority(row, ordinal) {
        let value = crate::sync::tracker::majority_value(row, ordinal);
        let group = crate::sync::tracker::agreeing(row, ordinal, value);
        crate::laws::phase::lemma_slots_are_finite(group);
        let out = crate::sync::tracker::outvoted(row, ordinal);
        crate::laws::phase::lemma_slots_are_finite(out);
        assert(out.disjoint(group));
        vstd::set_lib::lemma_set_disjoint_lens(out, group);
        assert(out + group =~= all);
    }
}

/// A majority is one value: no two slots of the majority disagree, and no other value is
/// one.
pub proof fn law_the_majority_is_unique(row: Map<SlotId, SyncObservation>, ordinal: u64, a: int, b: int)
    requires
        crate::sync::tracker::is_majority(row, ordinal, a),
        crate::sync::tracker::is_majority(row, ordinal, b),
    ensures
        a == b,
{
    crate::laws::phase::lemma_slots_are_finite(crate::sync::tracker::comparable(row, ordinal));
    crate::sync::tracker::lemma_majority_unique(row, ordinal, a, b);
}

/// A divergence names who to blame exactly where there is a majority: somebody then, in
/// ascending order and each of them outvoted, and nobody otherwise, when comparison ends.
pub proof fn law_divergence_blames_the_outvoted(t: TrackerView, ordinal: u64, row: Map<SlotId, SyncObservation>)
    requires
        t.verdict(ordinal, row) is Some,
    ensures
        ({
            let found = t.verdict(ordinal, row)->0;
            &&& found.sync_ordinal == ordinal
            &&& crate::ordmap::lists(found.diverged, crate::sync::tracker::outvoted(row, ordinal))
            &&& found.no_majority <==> found.diverged.len() == 0
            &&& found.no_majority ==> t.judged(ordinal, row).dormant
            &&& forall|i: int|
                0 <= i < found.diverged.len() ==> t.judged(ordinal, row).excluded.contains(#[trigger] found.diverged[i])
        }),
{
    let out = crate::sync::tracker::outvoted(row, ordinal);
    crate::laws::phase::lemma_slots_are_finite(out);
    crate::ordmap::lemma_listing_exists(out);
    let found = t.verdict(ordinal, row)->0;
    if crate::sync::tracker::has_majority(row, ordinal) {
        let (a, b) = choose|a: SlotId, b: SlotId| #[trigger]
            crate::sync::tracker::comparable(row, ordinal).contains(a) && #[trigger] crate::sync::tracker::comparable(
                row,
                ordinal,
            ).contains(b) && crate::sync::tracker::reported(row, a) != crate::sync::tracker::reported(row, b);
        let value = crate::sync::tracker::majority_value(row, ordinal);
        let culprit = if crate::sync::tracker::reported(row, a) != value { a } else { b };
        assert(out.contains(culprit));
        assert(found.diverged.contains(culprit));
    } else {
        if found.diverged.len() > 0 {
            assert(found.diverged.contains(found.diverged[0]));
            assert(out.contains(found.diverged[0]));
        }
    }
    assert forall|i: int| 0 <= i < found.diverged.len() implies t.judged(ordinal, row).excluded.contains(
        #[trigger] found.diverged[i],
    ) by {
        assert(found.diverged.contains(found.diverged[i]));
        assert(out.contains(found.diverged[i]));
    }
}

proof fn lemma_judged_keeps(t: TrackerView, ordinal: u64, row: Map<SlotId, SyncObservation>)
    ensures
        t.excluded.subset_of(t.judged(ordinal, row).excluded),
{
}

proof fn lemma_ready_keeps(t: TrackerView, margin: u64)
    ensures
        t.excluded.subset_of(t.evaluate_ready(margin).0.excluded),
    decreases u64::MAX - t.base,
{
    if margin == 0 || t.base == u64::MAX || !t.margin_reached(margin) {
    } else if !t.base_required() {
        lemma_ready_keeps(t.advanced(), margin);
    } else if t.base_complete() {
        let row = crate::sync::tracker::row_at(t.pending, t.base);
        lemma_judged_keeps(t.advanced(), t.base, row);
        if t.advanced().verdict(t.base, row) is None {
            lemma_ready_keeps(t.advanced(), margin);
        }
    }
}

proof fn lemma_evict_keeps(t: TrackerView, n: nat)
    ensures
        t.evict(n).excluded == t.excluded,
    decreases n,
{
    if n > 0 {
        lemma_evict_keeps(t, (n - 1) as nat);
    }
}

/// A slot found diverged is out for good: its reports are ignored, and no report, member's
/// departure or other slot's divergence brings it back.
pub proof fn law_the_excluded_stay_out(
    t: TrackerView,
    slot: SlotId,
    other: SlotId,
    ordinal: u64,
    report: SyncReport,
    skipped: Option<SyncGap>,
    margin: u64,
)
    requires
        t.excluded.contains(slot),
    ensures
        t.record(slot, ordinal, report, skipped, margin) == (t, None::<DivergenceView>),
        t.record(other, ordinal, report, skipped, margin).0.excluded.contains(slot),
        t.remove_member(other).excluded.contains(slot),
{
    let noted = t.noted(other, ordinal, report, skipped);
    lemma_ready_keeps(noted, margin);
    let next = noted.evaluate_ready(margin).0;
    let held = next.pending.dom().len();
    lemma_evict_keeps(next, if held > SYNC_WINDOW { (held - SYNC_WINDOW) as nat } else { 0 });
}

/// The first observation of a slot at a generation stands.
pub proof fn law_the_first_observation_stands(
    pending: Map<u64, Map<SlotId, SyncObservation>>,
    ordinal: u64,
    slot: SlotId,
    observation: SyncObservation,
)
    ensures
        ({
            let next = crate::sync::tracker::noting(pending, ordinal, slot, observation);
            let was = crate::sync::tracker::row_at(pending, ordinal);
            &&& next[ordinal].contains_key(slot)
            &&& was.contains_key(slot) ==> next[ordinal][slot] == was[slot]
            &&& !was.contains_key(slot) ==> next[ordinal][slot] == observation
        }),
{
}

proof fn lemma_evict_shrinks(t: TrackerView, n: nat)
    requires
        t.pending.dom().finite(),
        n <= t.pending.dom().len(),
    ensures
        t.evict(n).pending.dom().finite(),
        t.evict(n).pending.dom().len() == t.pending.dom().len() - n,
        t.evict(n).base >= t.base,
    decreases n,
{
    if n > 0 {
        lemma_evict_shrinks(t, (n - 1) as nat);
        let before = t.evict((n - 1) as nat);
        let dom = before.pending.dom();
        crate::ordmap::lemma_listing_exists(dom);
        let keys = crate::ordmap::listing(dom);
        if keys.len() == 0 {
            let k = dom.choose();
            assert(dom.contains(k));
            assert(keys.contains(k));
        }
        assert(keys.contains(keys[0]));
        assert(dom.contains(keys[0]));
        assert(t.evict(n).pending.dom() =~= dom.remove(keys[0]));
    }
}

/// What is kept for comparison is bounded.
pub proof fn law_kept_generations_are_bounded(t: TrackerView)
    requires
        t.pending.dom().finite(),
    ensures
        t.evict_over_window().pending.dom().len() <= SYNC_WINDOW,
        t.evict_over_window().base >= t.base,
{
    let held = t.pending.dom().len();
    lemma_evict_shrinks(t, if held > SYNC_WINDOW { (held - SYNC_WINDOW) as nat } else { 0 });
}

/// Whether `m` gives no verdicts: another relay is the authority, or comparison has ended.
pub open spec fn holds_judgement(m: MakerView) -> bool {
    !m.is_authority() || m.sync.dormant
}

proof fn lemma_compare_silent(m: MakerView, slot: SlotId, turn: SyncTurn)
    requires
        holds_judgement(m),
    ensures
        m.compare_sync_turn(slot, turn).1 is None,
        holds_judgement(m.compare_sync_turn(slot, turn).0),
{
}

proof fn lemma_drain_silent(m: MakerView, slot: SlotId)
    requires
        holds_judgement(m),
    ensures
        m.drain_sync(slot).1 is None,
        holds_judgement(m.drain_sync(slot).0),
    decreases u64::MAX - m.origin(slot).next,
{
    if m.sync_continues(slot) {
        let popped = m.with_origin(slot, m.origin(slot).pop());
        let turn = (m.origin(slot).popped()->Ok_0)->0;
        lemma_compare_silent(popped, slot, turn);
        lemma_drain_silent(m.sync_step(slot).0, slot);
    }
}

/// Only the authority judges, and only until comparison has ended.
pub proof fn law_only_the_authority_judges(m: MakerView, slot: SlotId, seq: u64, turn: SyncTurn)
    requires
        holds_judgement(m),
    ensures
        m.observe_sync(slot, seq, turn).1 is None,
        holds_judgement(m.observe_sync(slot, seq, turn).0),
{
    let pushed = m.with_origin(slot, m.origin(slot).push(seq, turn));
    if m.follows_sync(slot) {
        match m.origin(slot).pushed(seq, turn) {
            Ok(None) => {
                lemma_drain_silent(pushed, slot);
            },
            Err(_) => {},
            Ok(Some(read)) => {
                lemma_compare_silent(pushed, slot, read);
                lemma_drain_silent(pushed.compare_sync_turn(slot, read).0, slot);
            },
        }
    }
}

/// Observers are never compared.
pub proof fn law_observers_are_not_compared(m: MakerView, slot: SlotId, seq: u64, turn: SyncTurn)
    requires
        m.observers.contains(slot),
    ensures
        m.observe_sync(slot, seq, turn) == (m, None::<DivergenceView>),
{
}

/// Coverage adds up: every expected player is unavailable, ordered or waited for, and only
/// ordered ones are comparable.
pub proof fn law_coverage_adds_up(m: MakerView)
    ensures
        m.sync_coverage().unavailable_slots + m.sync_coverage().ordered_slots + m.sync_coverage().waiting_slots
            == m.sync_coverage().expected_players,
        m.sync_coverage().comparable_slots <= m.sync_coverage().ordered_slots,
        !m.is_authority() || m.sync.dormant ==> m.sync_coverage().comparable_slots == 0,
{
    let players = m.sync_players();
    crate::laws::phase::lemma_slots_are_finite(players);
    lemma_slots_are_few(players);
    let unavailable = players.filter(|s: SlotId| m.sync_unavailable(s));
    let ordered = players.filter(|s: SlotId| m.sync_ordered(s));
    let waiting = players.filter(|s: SlotId| !m.sync_unavailable(s) && !m.sync_ordered(s));
    let comparable = players.filter(|s: SlotId| m.sync_comparable(s));
    crate::laws::phase::lemma_slots_are_finite(unavailable);
    crate::laws::phase::lemma_slots_are_finite(ordered);
    crate::laws::phase::lemma_slots_are_finite(waiting);
    crate::laws::phase::lemma_slots_are_finite(comparable);
    vstd::set_lib::lemma_set_disjoint_lens(unavailable, ordered);
    vstd::set_lib::lemma_set_disjoint_lens(unavailable + ordered, waiting);
    assert(unavailable.disjoint(ordered));
    assert((unavailable + ordered).disjoint(waiting));
    assert(unavailable + ordered + waiting =~= players);
    vstd::set_lib::lemma_len_subset(unavailable, players);
    vstd::set_lib::lemma_len_subset(ordered, players);
    vstd::set_lib::lemma_len_subset(waiting, players);
    vstd::set_lib::lemma_len_subset(comparable, ordered);
    if !m.is_authority() || m.sync.dormant {
        assert(comparable =~= Set::empty());
    }
}

proof fn lemma_slots_are_few(slots: Set<SlotId>)
    ensures
        slots.len() <= 256,
{
    crate::laws::phase::lemma_slots_are_finite(slots);
    crate::ordmap::lemma_listing_exists(slots);
    let keys = crate::ordmap::listing(slots);
    crate::ordmap::lemma_listed_len(keys, slots);
    if keys.len() > 0 {
        crate::maker::sync::lemma_slot_count(keys, keys.len() - 1);
    }
}

/// A bucket never holds more than its burst, and an empty one refuses.
pub proof fn law_tokens_are_bounded(b: TokensView, now: Instant)
    requires
        b.tokens <= b.burst,
    ensures
        b.refilled(now).tokens <= b.burst,
        b.taken(now).tokens <= b.burst,
        b.refilled(now).tokens >= b.tokens,
        b.refilled(now).tokens > 0 ==> b.taken(now).tokens == b.refilled(now).tokens - 1,
{
}

} // verus!
