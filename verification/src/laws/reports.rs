//! Laws of the checksum reports: how they are read from a turn, put in order and handed to
//! the comparison.
use crate::ids::SlotId;
use crate::maker::MakerView;
use crate::sync::rate_limit::TokensView;
use crate::sync::turns::SlotTurnsView;
use crate::sync::turns::SyncCommand;
use crate::sync::turns::SyncMode;
use crate::sync::turns::SyncTurn;
use crate::time::Instant;
use crate::wire::Authority;
use vstd::prelude::*;

verus! {

/// A turn's report is its first whole checksum command: ring and kind are the two halves of
/// its second byte, the checksum its third and fourth.
pub proof fn law_a_leading_report_is_read(commands: Seq<u8>, lengths: Seq<Option<usize>>)
    requires
        commands.len() >= 7,
        lengths.len() > 0,
        commands[0] == 0x37,
        lengths[0] == Some(7usize),
    ensures
        ({
            let read = crate::maker::sync::first_report(commands, lengths, 0);
            &&& read is Some
            &&& (read->0).ring * 16 + (read->0).kind == commands[1]
            &&& (read->0).ring < 16 && (read->0).kind < 16
            &&& (read->0).value@[0] == commands[2]
            &&& (read->0).value@[1] == commands[3]
        }),
{
}

/// Whatever comes before the report is passed over command by command; where a command's
/// length is unknown, nothing, or past the end, there is no telling where the next begins,
/// and no report is read.
pub proof fn law_other_commands_are_passed_over(commands: Seq<u8>, lengths: Seq<Option<usize>>, offset: int)
    requires
        0 <= offset < commands.len(),
    ensures
        ({
            let read = crate::maker::sync::first_report(commands, lengths, offset);
            let known = offset < lengths.len() && lengths[offset] is Some && lengths[offset]->0 > 0 && offset
                + lengths[offset]->0 <= commands.len();
            &&& !known ==> read is None
            &&& known && (commands[offset] != 0x37 || lengths[offset]->0 != 7) ==> read == crate::maker::sync::first_report(
                commands,
                lengths,
                offset + lengths[offset]->0,
            )
        }),
{
}

/// Without tags, a report's generation is the one before it or the next, whichever its ring
/// position names; a report that names neither is refused.
pub proof fn law_the_ring_names_the_same_or_the_next(last: u64, ring: u64)
    requires
        ring < 16,
    ensures
        match crate::sync::turns::legacy_ordinal(Some(last), ring) {
            Ok(ordinal) => ordinal % 16 == ring && last <= ordinal <= last + 1,
            Err(_) => last % 16 != ring && (last == u64::MAX || (last + 1) % 16 != ring),
        },
        crate::sync::turns::legacy_ordinal(None, ring) == Ok::<u64, &'static str>(ring),
{
}

/// A tagged report is taken exactly where its tag and its ring position agree and it is no
/// earlier than the one before it and at most ten past it.
pub proof fn law_a_tag_is_taken_within_reach(o: SlotTurnsView, command: SyncCommand, tag: u64)
    requires
        o.mode == Some(SyncMode::Enhanced),
        o.ordinal is Some,
    ensures
        o.report_ordinal(command, Some(tag)) is Ok <==> tag < u64::MAX && tag % 16 == command.ring && o.ordinal->0 <= tag
            <= o.ordinal->0 + 10,
        o.report_ordinal(command, Some(tag)) is Ok ==> o.report_ordinal(command, Some(tag))->Ok_0 == tag,
        o.report_ordinal(command, None) is Err,
{
}

/// An origin's first report sets how it counts: with a tag that equals its ring position it
/// counts by tags, without one by ring; no later report may change that.
pub proof fn law_the_first_report_sets_the_count(o: SlotTurnsView, command: SyncCommand, tag: Option<u64>)
    ensures
        o.mode is None && tag is Some ==> (o.report_ordinal(command, tag) is Ok <==> tag->0 == command.ring),
        o.mode is None && tag is Some && tag->0 == command.ring ==> o.report_ordinal(command, tag)->Ok_0 == tag->0,
        o.mode == Some(SyncMode::Legacy) && tag is Some ==> o.report_ordinal(command, tag) is Err,
        o.mode == Some(SyncMode::Enhanced) && tag is None ==> o.report_ordinal(command, tag) is Err,
        o.mode == Some(SyncMode::Legacy) && tag is None ==> o.report_ordinal(command, tag)
            == crate::sync::turns::legacy_ordinal(o.ordinal, command.ring as u64),
{
}

/// A turn in order is handed out with its report's generation, and, where the origin counts
/// by tags and passed some over, with exactly those between; the origin then stands at that
/// generation and waits for the next turn.
pub proof fn law_a_turn_in_order_is_numbered(o: SlotTurnsView, seq: u64, turn: SyncTurn, command: SyncCommand, ordinal: u64)
    requires
        o.failure is None,
        seq == o.next,
        seq < u64::MAX,
        turn.command == Some(command),
        turn.skipped is None,
        o.report_ordinal(command, turn.generation) == Ok::<u64, &'static str>(ordinal),
    ensures
        ({
            let next = o.push(seq, turn);
            let out = (o.pushed(seq, turn)->Ok_0)->0;
            &&& o.pushed(seq, turn) is Ok && (o.pushed(seq, turn)->Ok_0) is Some
            &&& out.ordinal == Some(ordinal) && out.command == turn.command && out.frame == turn.frame
            &&& next.next == seq + 1
            &&& next.ordinal == Some(ordinal)
            &&& next.failure is None
            &&& next.pending == o.pending
            &&& o.mode == Some(SyncMode::Enhanced) && o.ordinal is Some && ordinal > o.ordinal->0 + 1 ==> out.skipped is Some
                && (out.skipped->0).first == o.ordinal->0 + 1 && (out.skipped->0).end == ordinal
            &&& o.ordinal is None || ordinal <= o.ordinal->0 + 1 || o.mode != Some(SyncMode::Enhanced) ==> out.skipped is None
        }),
{
}

/// A turn that an origin refuses to number fails the origin; what failed it is kept.
pub proof fn law_a_refused_turn_fails_its_origin(o: SlotTurnsView, turn: SyncTurn, command: SyncCommand)
    requires
        o.failure is None,
        turn.command == Some(command),
        o.report_ordinal(command, turn.generation) is Err,
    ensures
        o.pushed(o.next, turn) is Err,
        o.push(o.next, turn).failure is Some,
        (o.push(o.next, turn).failure->0).seq == o.next,
        (o.push(o.next, turn).failure->0).previous_ordinal == o.ordinal,
        (o.push(o.next, turn).failure->0).ring == Some(command.ring),
        o.next < u64::MAX ==> (o.push(o.next, turn).failure->0).reason == o.report_ordinal(command, turn.generation)->Err_0,
{
}

/// Only the authority compares, and nothing of a departed slot; bounds too deep to compare
/// within end the comparison for good.
pub proof fn law_what_is_not_compared(m: MakerView, slot: SlotId, turn: SyncTurn)
    ensures
        m.authority != Authority::SelfRelay ==> m.compare_sync_turn(slot, turn).0 == m && m.compare_sync_turn(
            slot,
            turn,
        ).1 is None,
        m.departures.contains_key(slot) ==> m.compare_sync_turn(slot, turn).0 == m && m.compare_sync_turn(
            slot,
            turn,
        ).1 is None,
        m.bounds.max >= 32 ==> m.compare_sync_turn(slot, turn).1 is None,
        m.bounds.max >= 32 && m.authority == Authority::SelfRelay && !m.departures.contains_key(slot)
            ==> m.compare_sync_turn(slot, turn).0.sync.dormant,
        m.sync.dormant ==> m.compare_sync_turn(slot, turn).1 is None && m.compare_sync_turn(slot, turn).0.sync == m.sync,
        turn.command is None || turn.ordinal is None ==> m.compare_sync_turn(slot, turn).1 is None,
{
}

/// A report that the authority compares makes its slot one that is waited for past that
/// generation, unless it was put out before or a verdict came of it.
pub proof fn law_a_compared_slot_is_waited_for(m: MakerView, slot: SlotId, turn: SyncTurn, command: SyncCommand, ordinal: u64)
    requires
        m.authority == Authority::SelfRelay,
        !m.departures.contains_key(slot),
        !m.sync.dormant,
        m.bounds.max < 32,
        turn.command == Some(command),
        turn.ordinal == Some(ordinal),
        ordinal < u64::MAX,
        command.kind == 1 || command.kind == 2,
        !m.sync.excluded.contains(slot),
        m.compare_sync_turn(slot, turn).1 is None,
    ensures
        ({
            let next = m.compare_sync_turn(slot, turn).0;
            &&& next == (MakerView { sync: next.sync, ..m })
            &&& next.sync.members.contains_key(slot)
            &&& next.sync.members[slot].next_expected > ordinal
            &&& ordinal >= next.sync.base && turn.skipped is None && !(m.sync.pending.contains_key(ordinal)
                && m.sync.pending[ordinal].contains_key(slot)) ==> next.sync.pending.contains_key(ordinal)
                && next.sync.pending[ordinal].contains_key(slot) && next.sync.pending[ordinal][slot]
                == crate::sync::tracker::SyncObservation::Report(
                crate::sync::tracker::SyncReport { kind: command.kind, value: command.value, game_frame: turn.frame },
            )
        }),
{
    crate::laws::comparison::law_a_report_is_recorded(
        m.sync,
        slot,
        ordinal,
        crate::sync::tracker::SyncReport { kind: command.kind, value: command.value, game_frame: turn.frame },
        turn.skipped,
        crate::sync::eval_margin(m.bounds.max),
    );
}

/// An origin that fails is no longer waited for, and nothing it reported is held.
pub proof fn law_a_failed_origin_is_not_waited_for(m: MakerView, slot: SlotId, seq: u64, turn: SyncTurn)
    requires
        !m.observers.contains(slot),
        m.origin(slot).failure is None,
        m.origin(slot).pushed(seq, turn) is Err,
    ensures
        crate::laws::comparison::forgotten(m.observe_sync(slot, seq, turn).0.sync, slot),
        m.observe_sync(slot, seq, turn).1 is None,
        m.observe_sync(slot, seq, turn).0.origin(slot).failure is Some,
{
}

/// Whether a slot is one whose checksums are expected: it is expected or has reported, and
/// is neither an observer nor departed.
pub open spec fn is_player(m: MakerView, slot: SlotId) -> bool {
    (m.expected.contains(slot) || m.sync_turns.contains_key(slot)) && !m.observers.contains(slot)
        && !m.departures.contains_key(slot)
}

/// Whether a slot's reports are in order: it has reported, never failed, and nothing of it
/// waits for an earlier turn.
pub open spec fn is_in_order(m: MakerView, slot: SlotId) -> bool {
    &&& m.sync_turns.contains_key(slot)
    &&& m.sync_turns[slot].failure is None
    &&& m.sync_turns[slot].ordinal is Some
    &&& forall|seq: u64| !m.sync_turns[slot].pending.contains_key(seq)
}

/// The coverage counts the players, and of them those that failed, those in order, those
/// also waited for by an authority that still compares, and those neither failed nor in
/// order.
pub proof fn law_coverage_counts_the_players(m: MakerView)
    ensures
        ({
            let c = m.sync_coverage();
            &&& c.authority == (m.authority == Authority::SelfRelay)
            &&& c.dormant == m.sync.dormant
            &&& c.expected_players == Set::new(|s: SlotId| is_player(m, s)).len() as u32
            &&& c.unavailable_slots == Set::new(
                |s: SlotId| is_player(m, s) && m.sync_turns.contains_key(s) && m.sync_turns[s].failure is Some,
            ).len() as u32
            &&& c.ordered_slots == Set::new(|s: SlotId| is_player(m, s) && is_in_order(m, s)).len() as u32
            &&& c.comparable_slots == Set::new(
                |s: SlotId|
                    is_player(m, s) && is_in_order(m, s) && m.authority == Authority::SelfRelay && !m.sync.dormant
                        && m.sync.members.contains_key(s),
            ).len() as u32
            &&& c.waiting_slots == Set::new(
                |s: SlotId|
                    is_player(m, s) && !(m.sync_turns.contains_key(s) && m.sync_turns[s].failure is Some) && !is_in_order(
                        m,
                        s,
                    ),
            ).len() as u32
        }),
{
    let players = m.sync_players();
    assert(players =~= Set::new(|s: SlotId| is_player(m, s)));
    assert forall|s: SlotId| #[trigger] m.sync_ordered(s) == is_in_order(m, s) by {
        if m.sync_turns.contains_key(s) {
            let pending = m.sync_turns[s].pending;
            if pending.dom() =~= Set::empty() {
                assert forall|seq: u64| !pending.contains_key(seq) by {
                    assert(!pending.dom().contains(seq));
                }
            }
            if forall|seq: u64| !pending.contains_key(seq) {
                assert(pending.dom() =~= Set::empty());
            }
        }
    }
    assert(players.filter(|s: SlotId| m.sync_unavailable(s)) =~= Set::new(
        |s: SlotId| is_player(m, s) && m.sync_turns.contains_key(s) && m.sync_turns[s].failure is Some,
    ));
    assert(players.filter(|s: SlotId| m.sync_ordered(s)) =~= Set::new(|s: SlotId| is_player(m, s) && is_in_order(m, s)));
    assert(players.filter(|s: SlotId| m.sync_comparable(s)) =~= Set::new(
        |s: SlotId|
            is_player(m, s) && is_in_order(m, s) && m.authority == Authority::SelfRelay && !m.sync.dormant
                && m.sync.members.contains_key(s),
    ));
    assert(players.filter(|s: SlotId| !m.sync_unavailable(s) && !m.sync_ordered(s)) =~= Set::new(
        |s: SlotId|
            is_player(m, s) && !(m.sync_turns.contains_key(s) && m.sync_turns[s].failure is Some) && !is_in_order(m, s),
    ));
}

/// A bucket gains one token for every whole interval that passes, up to its burst, and keeps
/// the part of an interval left over for later.
pub proof fn law_tokens_come_back_by_the_interval(b: TokensView, now: Instant, n: u32, left: int)
    requires
        b.refill_interval.nanos > 0,
        now.nanos == b.last_refill.nanos + n * b.refill_interval.nanos + left,
        0 <= left < b.refill_interval.nanos,
        b.tokens <= b.burst,
    ensures
        b.refilled(now).tokens == if b.tokens + n <= b.burst { b.tokens + n } else { b.burst as int },
        b.refilled(now).last_refill.nanos == now.nanos - left,
        b.refilled(now).burst == b.burst && b.refilled(now).refill_interval == b.refill_interval,
        b.taken(now).tokens == if b.refilled(now).tokens > 0 { b.refilled(now).tokens - 1 } else { 0 },
        b.taken(now).last_refill == b.refilled(now).last_refill,
{
    let interval = b.refill_interval.nanos as int;
    let gone = n * interval + left;
    assert(gone >= 0) by (nonlinear_arith)
        requires
            gone == n * interval + left,
            n >= 0,
            interval > 0,
            left >= 0,
    ;
    vstd::arithmetic::div_mod::lemma_fundamental_div_mod_converse(gone, interval, n as int, left);
    assert(b.intervals(now) == n);
    assert(b.refill_interval.nanos * b.credited(now) == n * interval) by (nonlinear_arith)
        requires
            b.credited(now) == n,
            interval == b.refill_interval.nanos,
    ;
    if n == 0 {
        assert(n * interval == 0) by (nonlinear_arith)
            requires
                n == 0,
        ;
    }
}

/// Whether `n` is the first turn that an origin still waits for.
pub open spec fn is_first_missing(o: SlotTurnsView, n: u64) -> bool {
    &&& o.next <= n
    &&& !o.pending.contains_key(n)
    &&& forall|k: u64| o.next <= k < n ==> #[trigger] o.pending.contains_key(k)
}

proof fn lemma_first_missing(o: SlotTurnsView, n: u64, from: u64)
    requires
        is_first_missing(o, n),
        o.next <= from <= n,
    ensures
        o.missing_from(from) == n,
    decreases n - from,
{
    if from < n {
        assert(o.pending.contains_key(from));
        lemma_first_missing(o, n, (from + 1) as u64);
    }
}

/// A turn ahead of its time is kept while it is less than 4096 past the next one, or past
/// the first that is missing, and fewer than that are kept; one too far ahead, or one too
/// many, fails the origin.
pub proof fn law_how_far_ahead_turns_are_kept(o: SlotTurnsView, seq: u64, turn: SyncTurn, n: u64)
    requires
        o.failure is None,
        seq > o.next,
        is_first_missing(o, n),
        !o.pending.contains_key(seq),
    ensures
        ({
            let near = seq < o.next + 4096 || seq < n + 4096;
            let room = crate::ordmap::listing(o.pending.dom()).len() < 4096;
            &&& near && room ==> o.push(seq, turn) == (SlotTurnsView { pending: o.pending.insert(seq, turn), ..o })
            &&& near && room ==> o.pushed(seq, turn) == Ok::<Option<SyncTurn>, crate::sync::turns::SyncOrderingFailure>(None)
            &&& !near || !room ==> o.pushed(seq, turn) is Err && o.push(seq, turn).failure is Some
            &&& !near || !room ==> (o.push(seq, turn).failure->0).seq == seq && (o.push(seq, turn).failure->0).next == n
                && (o.push(seq, turn).failure->0).previous_ordinal == o.ordinal
        }),
{
    lemma_first_missing(o, n, o.next);
}

/// How an origin counts is fixed by its first report: by tags where that bore one that was
/// taken, by ring where it bore none.
pub proof fn law_how_an_origin_counts(o: SlotTurnsView, seq: u64, turn: SyncTurn)
    requires
        o.failure is None,
        seq == o.next,
        seq < u64::MAX,
    ensures
        o.mode is Some || turn.command is None ==> o.push(seq, turn).mode == o.mode,
        o.mode is None && turn.command is Some && turn.generation is None ==> o.push(seq, turn).mode == Some(SyncMode::Legacy),
        o.mode is None && turn.command is Some && turn.generation is Some && turn.generation->0 == (turn.command->0).ring
            ==> o.push(seq, turn).mode == Some(SyncMode::Enhanced),
{
}

/// A turn without a report, and without a tag, only moves its origin on; a tag without a
/// report fails it.
pub proof fn law_a_turn_without_a_report(o: SlotTurnsView, seq: u64, turn: SyncTurn)
    requires
        o.failure is None,
        seq == o.next,
        seq < u64::MAX,
        turn.command is None,
    ensures
        turn.generation is None ==> o.push(seq, turn) == (SlotTurnsView { next: (seq + 1) as u64, ..o }),
        turn.generation is None ==> o.pushed(seq, turn) == Ok::<Option<SyncTurn>, crate::sync::turns::SyncOrderingFailure>(
            Some(turn),
        ),
        turn.generation is Some ==> o.pushed(seq, turn) is Err && o.push(seq, turn).failure is Some,
{
}

/// What comes of a turn in order: a split that it completes is what is found; and where it
/// completes none and no later turn was waiting for it, nothing further happens.
pub proof fn law_a_split_is_found_at_once(m: MakerView, slot: SlotId, seq: u64, turn: SyncTurn, read: SyncTurn)
    requires
        !m.observers.contains(slot),
        m.origin(slot).failure is None,
        m.origin(slot).pushed(seq, turn) == Ok::<Option<SyncTurn>, crate::sync::turns::SyncOrderingFailure>(Some(read)),
    ensures
        ({
            let pushed = MakerView { sync_turns: m.sync_turns.insert(slot, m.origin(slot).push(seq, turn)), ..m };
            let (compared, found) = pushed.compare_sync_turn(slot, read);
            &&& found is Some ==> m.observe_sync(slot, seq, turn) == (compared, found)
            &&& found is None && !m.origin(slot).pending.contains_key((seq + 1) as u64) ==> m.observe_sync(slot, seq, turn)
                == (compared, found)
        }),
{
    let pushed = MakerView { sync_turns: m.sync_turns.insert(slot, m.origin(slot).push(seq, turn)), ..m };
    let compared = pushed.compare_sync_turn(slot, read).0;
    assert(pushed == m.with_origin(slot, m.origin(slot).push(seq, turn)));
    assert(compared.origin(slot) == m.origin(slot).push(seq, turn));
    if !m.origin(slot).pending.contains_key((seq + 1) as u64) {
        assert(m.origin(slot).push(seq, turn).next == seq + 1);
        assert(compared.origin(slot).popped() == Ok::<Option<SyncTurn>, crate::sync::turns::SyncOrderingFailure>(None));
    }
}

} // verus!
