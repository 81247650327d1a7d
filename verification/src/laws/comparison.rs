//! Laws of the checksum comparison: who is waited for, when a generation is judged, and
//! what a judgement says.
use crate::ids::SlotId;
use crate::maker::departure::StampsView;
use crate::maker::MakerView;
use crate::sync::tracker::SyncObservation;
use crate::sync::tracker::SyncReport;
use crate::sync::tracker::TrackerView;
use crate::sync::turns::SyncGap;
use vstd::prelude::*;

verus! {

/// Whether the comparator neither waits for a slot nor holds anything it reported.
pub open spec fn forgotten(t: TrackerView, slot: SlotId) -> bool {
    &&& !t.members.contains_key(slot)
    &&& forall|o: u64| #[trigger] t.pending.contains_key(o) ==> !t.pending[o].contains_key(slot)
}

/// Whether two comparators hold the same of every slot but one.
pub open spec fn same_of_others(a: TrackerView, b: TrackerView, slot: SlotId) -> bool {
    &&& a.base == b.base && a.dormant == b.dormant && a.initialized == b.initialized && a.excluded == b.excluded
    &&& forall|s: SlotId|
        s != slot ==> (#[trigger] a.members.contains_key(s) <==> b.members.contains_key(s)) && (a.members.contains_key(
            s,
        ) ==> a.members[s] == b.members[s])
    &&& forall|o: u64| #[trigger] a.pending.contains_key(o) <==> b.pending.contains_key(o)
    &&& forall|o: u64, s: SlotId|
        a.pending.contains_key(o) && s != slot ==> (#[trigger] a.pending[o].contains_key(s) <==> b.pending[o].contains_key(
            s,
        )) && (a.pending[o].contains_key(s) ==> a.pending[o][s] == b.pending[o][s])
}

/// Once a slot's departure is recorded the comparator no longer waits for it and holds
/// nothing of it in any generation; what it holds of the others is untouched.
pub proof fn law_a_departed_slot_is_not_compared(
    m: MakerView,
    slot: SlotId,
    stamps: StampsView,
    reason: u32,
    connection_epoch: Option<u64>,
)
    ensures
        ({
            let next = m.note_departure(slot, stamps, reason, connection_epoch);
            &&& next.departures.contains_key(slot)
            &&& forgotten(next.sync, slot)
            &&& same_of_others(m.sync, next.sync, slot)
        }),
{
}

/// Whether a slot that reports at a generation is one the comparator waits for there.
pub open spec fn waited_for(t: TrackerView, slot: SlotId) -> bool {
    t.members.contains_key(slot) && t.members[slot].since <= t.base
}

/// Whether some slot's reports are far enough past the generation compared next.
pub open spec fn far_enough(t: TrackerView, margin: u64) -> bool {
    exists|s: SlotId| #[trigger] t.members.contains_key(s) && t.members[s].next_expected - t.base >= margin
}

/// The checksum a slot reported for a generation, where its report is of the kind that
/// generation is compared by: unit state on even ones, header state on odd ones.
pub open spec fn says(row: Map<SlotId, SyncObservation>, ordinal: u64, slot: SlotId, value: int) -> bool {
    row.contains_key(slot) && match row[slot] {
        SyncObservation::Report(r) => {
            &&& r.kind == (if ordinal % 2 == 0 { 1u8 } else { 2u8 })
            &&& value == r.value@[0] * 256 + r.value@[1]
        },
        SyncObservation::Skipped => false,
    }
}

/// Whether two slots reported different checksums for a generation.
pub open spec fn split(row: Map<SlotId, SyncObservation>, ordinal: u64) -> bool {
    exists|a: SlotId, b: SlotId, x: int, y: int| #[trigger] says(row, ordinal, a, x) && #[trigger] says(row, ordinal, b, y) && x != y
}

proof fn lemma_split(row: Map<SlotId, SyncObservation>, ordinal: u64)
    ensures
        split(row, ordinal) == crate::sync::tracker::disagrees(row, ordinal),
{
    if split(row, ordinal) {
        let (a, b, x, y) = choose|a: SlotId, b: SlotId, x: int, y: int| #[trigger]
            says(row, ordinal, a, x) && #[trigger] says(row, ordinal, b, y) && x != y;
        assert(crate::sync::tracker::comparable(row, ordinal).contains(a));
        assert(crate::sync::tracker::comparable(row, ordinal).contains(b));
        assert(crate::sync::tracker::reported(row, a) != crate::sync::tracker::reported(row, b));
    }
    if crate::sync::tracker::disagrees(row, ordinal) {
        let (a, b) = choose|a: SlotId, b: SlotId| #[trigger]
            crate::sync::tracker::comparable(row, ordinal).contains(a) && #[trigger] crate::sync::tracker::comparable(
                row,
                ordinal,
            ).contains(b) && crate::sync::tracker::reported(row, a) != crate::sync::tracker::reported(row, b);
        assert(says(row, ordinal, a, crate::sync::tracker::reported(row, a)));
        assert(says(row, ordinal, b, crate::sync::tracker::reported(row, b)));
    }
}

proof fn lemma_base_moves_on(t: TrackerView, margin: u64)
    ensures
        t.evaluate_ready(margin).0.base >= t.base,
    decreases u64::MAX - t.base,
{
    if margin == 0 || t.base == u64::MAX || !t.margin_reached(margin) {
    } else if !t.base_required() {
        lemma_base_moves_on(t.advanced(), margin);
    } else if t.base_complete() {
        lemma_base_moves_on(t.advanced(), margin);
    }
}

/// A generation is judged once every slot that is waited for has reported it and some slot
/// is far enough past it: a split in it is found there, and otherwise the comparison moves
/// past it. Until then nothing is judged.
pub proof fn law_a_complete_generation_is_judged(t: TrackerView, margin: u64)
    requires
        0 < margin,
        t.base < u64::MAX,
        exists|s: SlotId| #[trigger] waited_for(t, s),
    ensures
        ({
            let complete = forall|s: SlotId| #[trigger]
                waited_for(t, s) ==> t.pending.contains_key(t.base) && t.pending[t.base].contains_key(s);
            let (next, found) = t.evaluate_ready(margin);
            &&& !far_enough(t, margin) || !complete ==> next == t && found is None
            &&& far_enough(t, margin) && complete ==> {
                &&& next.base > t.base
                &&& split(t.pending[t.base], t.base) ==> found is Some && (found->0).sync_ordinal == t.base
                &&& found is Some && (found->0).sync_ordinal == t.base ==> split(t.pending[t.base], t.base)
            }
        }),
{
    let w = choose|s: SlotId| #[trigger] waited_for(t, s);
    assert(t.members.contains_key(w));
    assert(t.base_required());
    let complete = forall|s: SlotId| #[trigger]
        waited_for(t, s) ==> t.pending.contains_key(t.base) && t.pending[t.base].contains_key(s);
    if far_enough(t, margin) {
        let s = choose|s: SlotId| #[trigger] t.members.contains_key(s) && t.members[s].next_expected - t.base >= margin;
        assert(t.members.contains_key(s) && t.members[s].next_expected.saturating_sub(t.base) >= margin);
    }
    if t.margin_reached(margin) {
        let s = choose|s: SlotId| #[trigger]
            t.members.contains_key(s) && t.members[s].next_expected.saturating_sub(t.base) >= margin;
        assert(t.members.contains_key(s) && t.members[s].next_expected - t.base >= margin);
    }
    assert(t.margin_reached(margin) == far_enough(t, margin));
    if complete {
        assert forall|s: SlotId| #[trigger]
            t.members.contains_key(s) && t.members[s].since <= t.base implies crate::sync::tracker::row_at(
            t.pending,
            t.base,
        ).contains_key(s) by {
            assert(waited_for(t, s));
        }
    }
    if t.base_complete() {
        assert forall|s: SlotId| #[trigger] waited_for(t, s) implies t.pending.contains_key(t.base)
            && t.pending[t.base].contains_key(s) by {
            assert(t.members.contains_key(s));
        }
    }
    assert(t.base_complete() == complete);
    if complete && far_enough(t, margin) {
        assert(waited_for(t, w));
        let row = t.pending[t.base];
        lemma_split(row, t.base);
        if !split(row, t.base) {
            lemma_base_moves_on(t.advanced(), margin);
            lemma_found_past(t.advanced(), margin);
        }
    }
}

proof fn lemma_found_past(t: TrackerView, margin: u64)
    ensures
        t.evaluate_ready(margin).1 is Some ==> (t.evaluate_ready(margin).1->0).sync_ordinal >= t.base,
    decreases u64::MAX - t.base,
{
    if margin == 0 || t.base == u64::MAX || !t.margin_reached(margin) {
    } else if !t.base_required() {
        lemma_found_past(t.advanced(), margin);
    } else if t.base_complete() {
        lemma_found_past(t.advanced(), margin);
    }
}

/// A generation that nobody is waited for at is passed over.
pub proof fn law_an_unclaimed_generation_is_passed(t: TrackerView, margin: u64)
    requires
        0 < margin,
        t.base < u64::MAX,
        far_enough(t, margin),
        forall|s: SlotId| !#[trigger] waited_for(t, s),
    ensures
        t.evaluate_ready(margin).0.base > t.base,
        t.evaluate_ready(margin).1 is Some ==> (t.evaluate_ready(margin).1->0).sync_ordinal > t.base,
{
    let s = choose|s: SlotId| #[trigger] t.members.contains_key(s) && t.members[s].next_expected - t.base >= margin;
    assert(t.members.contains_key(s) && t.members[s].next_expected.saturating_sub(t.base) >= margin);
    if t.base_required() {
        let w = choose|w: SlotId| #[trigger] t.members.contains_key(w) && t.members[w].since <= t.base;
        assert(waited_for(t, w));
    }
    lemma_base_moves_on(t.advanced(), margin);
    lemma_found_past(t.advanced(), margin);
}

/// A slot that departed without reporting holds nothing up: once every other slot that is
/// waited for has reported the generation compared next, and one of them is far enough past
/// it, that generation is judged, and a split in what the others reported is found.
pub proof fn law_a_departure_does_not_stall_the_comparison(
    m: MakerView,
    slot: SlotId,
    stamps: StampsView,
    reason: u32,
    connection_epoch: Option<u64>,
    margin: u64,
    lead: SlotId,
    waited: SlotId,
    a: SlotId,
    b: SlotId,
    x: int,
    y: int,
)
    requires
        0 < margin,
        m.sync.base < u64::MAX,
        lead != slot && m.sync.members.contains_key(lead) && m.sync.members[lead].next_expected - m.sync.base >= margin,
        waited != slot && waited_for(m.sync, waited),
        m.sync.pending.contains_key(m.sync.base),
        forall|s: SlotId| #[trigger]
            waited_for(m.sync, s) && s != slot ==> m.sync.pending[m.sync.base].contains_key(s),
    ensures
        ({
            let (next, found) = m.note_departure(slot, stamps, reason, connection_epoch).sync.evaluate_ready(margin);
            &&& next.base > m.sync.base
            &&& a != slot && b != slot && says(m.sync.pending[m.sync.base], m.sync.base, a, x) && says(
                m.sync.pending[m.sync.base],
                m.sync.base,
                b,
                y,
            ) && x != y ==> found is Some && (found->0).sync_ordinal == m.sync.base
        }),
{
    let t = m.note_departure(slot, stamps, reason, connection_epoch).sync;
    law_a_departed_slot_is_not_compared(m, slot, stamps, reason, connection_epoch);
    assert(m.sync.members.contains_key(waited) && m.sync.members.contains_key(lead));
    assert(waited_for(t, waited));
    assert(t.members.contains_key(lead) && t.members[lead].next_expected - t.base >= margin);
    assert(far_enough(t, margin));
    assert forall|s: SlotId| #[trigger] waited_for(t, s) implies t.pending.contains_key(t.base)
        && t.pending[t.base].contains_key(s) by {
        assert(s != slot);
        assert(m.sync.members.contains_key(s));
        assert(waited_for(m.sync, s));
        assert(m.sync.pending[m.sync.base].contains_key(s));
    }
    law_a_complete_generation_is_judged(t, margin);
    if a != slot && b != slot && says(m.sync.pending[m.sync.base], m.sync.base, a, x) && says(
        m.sync.pending[m.sync.base],
        m.sync.base,
        b,
        y,
    ) && x != y {
        assert(m.sync.pending[m.sync.base].contains_key(a) && m.sync.pending[m.sync.base].contains_key(b));
        assert(says(t.pending[t.base], t.base, a, x) && says(t.pending[t.base], t.base, b, y));
    }
}

/// The slots that reported a checksum of the kind their generation is compared by.
pub open spec fn speakers(row: Map<SlotId, SyncObservation>, ordinal: u64) -> Set<SlotId> {
    Set::new(|s: SlotId| exists|value: int| says(row, ordinal, s, value))
}

/// The slots that reported one checksum.
pub open spec fn backers(row: Map<SlotId, SyncObservation>, ordinal: u64, value: int) -> Set<SlotId> {
    Set::new(|s: SlotId| says(row, ordinal, s, value))
}

proof fn lemma_speakers(row: Map<SlotId, SyncObservation>, ordinal: u64, value: int)
    ensures
        speakers(row, ordinal) =~= crate::sync::tracker::comparable(row, ordinal),
        backers(row, ordinal, value) =~= crate::sync::tracker::agreeing(row, ordinal, value),
{
    assert forall|s: SlotId| crate::sync::tracker::comparable(row, ordinal).contains(s) implies #[trigger] speakers(
        row,
        ordinal,
    ).contains(s) by {
        assert(says(row, ordinal, s, crate::sync::tracker::reported(row, s)));
    }
    assert forall|s: SlotId| #[trigger] speakers(row, ordinal).contains(s) implies crate::sync::tracker::comparable(
        row,
        ordinal,
    ).contains(s) by {
        let v = choose|v: int| says(row, ordinal, s, v);
    }
}

/// Where more than half of those who reported a checksum reported the same one, and not all
/// did, the others are named and are never compared again, the rest go on; and with fewer
/// than two left nothing is compared any more.
pub proof fn law_a_minority_is_named(t: TrackerView, ordinal: u64, row: Map<SlotId, SyncObservation>, value: int, slot: SlotId)
    requires
        split(row, ordinal),
        backers(row, ordinal, value).len() * 2 > speakers(row, ordinal).len(),
    ensures
        ({
            let found = t.verdict(ordinal, row)->0;
            let next = t.judged(ordinal, row);
            let out = speakers(row, ordinal).contains(slot) && !says(row, ordinal, slot, value);
            &&& t.verdict(ordinal, row) is Some
            &&& found.sync_ordinal == ordinal
            &&& !found.no_majority
            &&& found.diverged.contains(slot) <==> out
            &&& next.excluded.contains(slot) <==> t.excluded.contains(slot) || out
            &&& next.members.contains_key(slot) <==> t.members.contains_key(slot) && !out
            &&& out ==> forgotten(next, slot)
            &&& next.members.contains_key(slot) ==> next.members[slot] == t.members[slot]
            &&& next.dormant <==> t.dormant || next.members.dom().len() < 2
        }),
{
    lemma_split(row, ordinal);
    lemma_speakers(row, ordinal, value);
    crate::laws::phase::lemma_slots_are_finite(crate::sync::tracker::comparable(row, ordinal));
    assert(crate::sync::tracker::is_majority(row, ordinal, value));
    crate::sync::tracker::lemma_majority_unique(
        row,
        ordinal,
        value,
        crate::sync::tracker::majority_value(row, ordinal),
    );
    let out = crate::sync::tracker::outvoted(row, ordinal);
    crate::laws::phase::lemma_slots_are_finite(out);
    crate::ordmap::lemma_listing_exists(out);
    assert(out.contains(slot) <==> speakers(row, ordinal).contains(slot) && !says(row, ordinal, slot, value));
    assert(crate::ordmap::lists(crate::ordmap::listing(out), out));
}

/// Where no checksum was reported by more than half, nobody is named, nobody is put out, and
/// nothing is compared any more.
pub proof fn law_without_a_majority_nobody_is_named(t: TrackerView, ordinal: u64, row: Map<SlotId, SyncObservation>)
    requires
        split(row, ordinal),
        forall|value: int| #[trigger] backers(row, ordinal, value).len() * 2 <= speakers(row, ordinal).len(),
    ensures
        ({
            let found = t.verdict(ordinal, row)->0;
            &&& t.verdict(ordinal, row) is Some
            &&& found.sync_ordinal == ordinal
            &&& found.no_majority
            &&& found.diverged.len() == 0
            &&& t.judged(ordinal, row) == TrackerView { dormant: true, ..t }
        }),
{
    lemma_split(row, ordinal);
    if crate::sync::tracker::has_majority(row, ordinal) {
        let value = choose|value: int| crate::sync::tracker::is_majority(row, ordinal, value);
        lemma_speakers(row, ordinal, value);
        assert(backers(row, ordinal, value).len() * 2 <= speakers(row, ordinal).len());
    }
    let out = crate::sync::tracker::outvoted(row, ordinal);
    crate::laws::phase::lemma_slots_are_finite(out);
    crate::ordmap::lemma_listing_exists(out);
    let listed = crate::ordmap::listing(out);
    if listed.len() > 0 {
        assert(listed.contains(listed[0]));
        assert(out.contains(listed[0]));
    }
}

/// Whether some report of a generation bears a frame stamp.
pub open spec fn bears(row: Map<SlotId, SyncObservation>, slot: SlotId, frame: u32) -> bool {
    row.contains_key(slot) && match row[slot] {
        SyncObservation::Report(r) => r.game_frame == Some(frame),
        SyncObservation::Skipped => false,
    }
}

proof fn lemma_latest_stamp(row: Map<SlotId, SyncObservation>, slot: SlotId, frame: u32)
    requires
        bears(row, slot, frame),
    ensures
        exists|f: Option<u32>| crate::sync::tracker::is_latest_stamp(row, f),
    decreases u32::MAX - frame,
{
    assert(row.contains_key(slot) && crate::sync::tracker::stamped(row, frame));
    if exists|g: u32| g > frame && crate::sync::tracker::stamped(row, g) {
        let g = choose|g: u32| g > frame && crate::sync::tracker::stamped(row, g);
        let s = choose|s: SlotId| #[trigger]
            row.contains_key(s) && match row[s] {
                SyncObservation::Report(report) => report.game_frame == Some(g),
                SyncObservation::Skipped => false,
            };
        lemma_latest_stamp(row, s, g);
    } else {
        assert(crate::sync::tracker::is_latest_stamp(row, Some(frame)));
    }
}

/// What is found is dated by the latest frame that any report of the generation bears.
pub proof fn law_a_finding_bears_the_latest_stamp(
    t: TrackerView,
    ordinal: u64,
    row: Map<SlotId, SyncObservation>,
    slot: SlotId,
    frame: u32,
)
    requires
        t.verdict(ordinal, row) is Some,
    ensures
        bears(row, slot, frame) ==> (t.verdict(ordinal, row)->0).game_frame is Some && (t.verdict(
            ordinal,
            row,
        )->0).game_frame->0 >= frame,
        (t.verdict(ordinal, row)->0).game_frame is Some ==> exists|s: SlotId| #[trigger]
            bears(row, s, (t.verdict(ordinal, row)->0).game_frame->0),
{
    if exists|s: SlotId, f: u32| #[trigger] bears(row, s, f) {
        let (s, f) = choose|s: SlotId, f: u32| #[trigger] bears(row, s, f);
        lemma_latest_stamp(row, s, f);
    } else {
        assert forall|g: u32| !#[trigger] crate::sync::tracker::stamped(row, g) by {
            if crate::sync::tracker::stamped(row, g) {
                let s = choose|s: SlotId| #[trigger]
                    row.contains_key(s) && match row[s] {
                        SyncObservation::Report(report) => report.game_frame == Some(g),
                        SyncObservation::Skipped => false,
                    };
                assert(bears(row, s, g));
            }
        }
        assert(crate::sync::tracker::is_latest_stamp(row, None));
    }
    let latest = crate::sync::tracker::latest_stamp(row);
    assert(crate::sync::tracker::is_latest_stamp(row, latest));
    if bears(row, slot, frame) {
        assert(row.contains_key(slot) && crate::sync::tracker::stamped(row, frame));
    }
    if latest is Some {
        let s = choose|s: SlotId| #[trigger]
            row.contains_key(s) && match row[s] {
                SyncObservation::Report(report) => report.game_frame == latest,
                SyncObservation::Skipped => false,
            };
        assert(bears(row, s, latest->0));
    }
}

/// Whether what a comparator still holds is part of what another held.
pub open spec fn still_holds(next: TrackerView, prior: TrackerView) -> bool {
    &&& next.members == prior.members
    &&& next.excluded == prior.excluded
    &&& next.dormant == prior.dormant
    &&& next.base >= prior.base
    &&& forall|o: u64| #[trigger]
        next.pending.contains_key(o) ==> prior.pending.contains_key(o) && next.pending[o] == prior.pending[o]
    &&& forall|o: u64|
        next.base <= o < u64::MAX && #[trigger] prior.pending.contains_key(o) ==> next.pending.contains_key(o)
}

proof fn lemma_still_holds_through(next: TrackerView, mid: TrackerView, prior: TrackerView)
    requires
        still_holds(next, mid),
        still_holds(mid, prior),
    ensures
        still_holds(next, prior),
{
    assert forall|o: u64| next.base <= o < u64::MAX && #[trigger] prior.pending.contains_key(
        o,
    ) implies next.pending.contains_key(o) by {
        assert(mid.pending.contains_key(o));
    }
    assert forall|o: u64| #[trigger] next.pending.contains_key(o) implies prior.pending.contains_key(o)
        && next.pending[o] == prior.pending[o] by {
        assert(mid.pending.contains_key(o));
    }
}

proof fn lemma_ready_still_holds(t: TrackerView, margin: u64)
    ensures
        t.evaluate_ready(margin).1 is None ==> still_holds(t.evaluate_ready(margin).0, t),
    decreases u64::MAX - t.base,
{
    if margin == 0 || t.base == u64::MAX || !t.margin_reached(margin) {
    } else if !t.base_required() || t.base_complete() {
        lemma_ready_still_holds(t.advanced(), margin);
        assert(still_holds(t.advanced(), t));
        if t.evaluate_ready(margin).1 is None {
            lemma_still_holds_through(t.evaluate_ready(margin).0, t.advanced(), t);
        }
    }
}

proof fn lemma_evict_still_holds(t: TrackerView, n: nat)
    ensures
        still_holds(t.evict(n), t),
    decreases n,
{
    if n > 0 {
        let before = t.evict((n - 1) as nat);
        lemma_evict_still_holds(t, (n - 1) as nat);
        assert(still_holds(t.evict(n), before));
        lemma_still_holds_through(t.evict(n), before, t);
    }
}

/// A report that is taken makes its slot one that is waited for, from the generation it
/// first reported; it is expected next past what it reported; and what it reported first for
/// a generation is what is held for it, while that generation is still to be compared. The
/// report of a slot that was put out, or of no known kind, changes nothing.
pub proof fn law_a_report_is_recorded(
    t: TrackerView,
    slot: SlotId,
    ordinal: u64,
    report: SyncReport,
    skipped: Option<SyncGap>,
    margin: u64,
)
    requires
        t.record(slot, ordinal, report, skipped, margin).1 is None,
        ordinal < u64::MAX,
    ensures
        ({
            let next = t.record(slot, ordinal, report, skipped, margin).0;
            let taken = !t.excluded.contains(slot) && (report.kind == 1 || report.kind == 2);
            &&& !taken ==> next == t
            &&& taken ==> {
                &&& next.members.contains_key(slot)
                &&& next.members[slot].next_expected > ordinal
                &&& t.members.contains_key(slot) ==> next.members[slot].since == t.members[slot].since
                    && next.members[slot].next_expected >= t.members[slot].next_expected && (
                next.members[slot].next_expected == t.members[slot].next_expected || next.members[slot].next_expected
                    == ordinal + 1)
                &&& !t.members.contains_key(slot) ==> next.members[slot].since == ordinal
                    && next.members[slot].next_expected == ordinal + 1
                &&& next.members.remove(slot) =~= t.members.remove(slot)
                &&& next.excluded == t.excluded
                &&& next.initialized
                &&& t.initialized ==> next.base >= t.base
                &&& !t.initialized ==> next.base >= ordinal
                &&& ordinal >= next.base && !(t.pending.contains_key(ordinal) && t.pending[ordinal].contains_key(slot))
                    && skipped is None ==> next.pending.contains_key(ordinal) && next.pending[ordinal].contains_key(slot)
                    && next.pending[ordinal][slot] == SyncObservation::Report(report)
                &&& ordinal >= next.base && t.pending.contains_key(ordinal) && t.pending[ordinal].contains_key(slot)
                    ==> next.pending.contains_key(ordinal) && next.pending[ordinal].contains_key(slot)
                    && next.pending[ordinal][slot] == t.pending[ordinal][slot]
            }
        }),
{
    let taken = !t.excluded.contains(slot) && (report.kind == 1 || report.kind == 2);
    if taken && ordinal >= t.joined(slot, ordinal).base {
        let noted = t.noted(slot, ordinal, report, skipped);
        let ready = noted.evaluate_ready(margin).0;
        let next = t.record(slot, ordinal, report, skipped, margin).0;
        let held = ready.pending.dom().len();
        let over = if held > 64 { (held - 64) as nat } else { 0 };
        lemma_ready_still_holds(noted, margin);
        lemma_evict_still_holds(ready, over);
        assert(next == ready.evict(over));
        lemma_still_holds_through(next, ready, noted);
        lemma_evict_initialized(ready, over);
        lemma_ready_initialized(noted, margin);
        assert(noted.pending.contains_key(ordinal) && noted.pending[ordinal].contains_key(slot));
        if ordinal >= next.base {
            assert(next.pending.contains_key(ordinal));
        }
    }
}

proof fn lemma_evict_initialized(t: TrackerView, n: nat)
    ensures
        t.evict(n).initialized == t.initialized,
    decreases n,
{
    if n > 0 {
        lemma_evict_initialized(t, (n - 1) as nat);
    }
}

proof fn lemma_ready_initialized(t: TrackerView, margin: u64)
    ensures
        t.evaluate_ready(margin).0.initialized == t.initialized,
    decreases u64::MAX - t.base,
{
    if margin == 0 || t.base == u64::MAX || !t.margin_reached(margin) {
    } else if !t.base_required() {
        lemma_ready_initialized(t.advanced(), margin);
    } else if t.base_complete() {
        lemma_ready_initialized(t.advanced(), margin);
    }
}

/// A generation that a slot says it left out, from its first reported one on and still to
/// be compared, counts as reported with nothing in it, unless something was held for it; no
/// other generation and no other slot is touched.
pub proof fn law_what_is_left_out_counts_as_reported(t: TrackerView, slot: SlotId, since: u64, gap: SyncGap, o: u64, other: SlotId)
    requires
        other != slot,
    ensures
        ({
            let next = t.record_skipped(slot, since, gap);
            let held = t.pending.contains_key(o) && t.pending[o].contains_key(slot);
            let left_out = gap.first <= o < gap.end && t.base <= o && since <= o;
            &&& held ==> next.pending.contains_key(o) && next.pending[o].contains_key(slot) && next.pending[o][slot]
                == t.pending[o][slot]
            &&& left_out && !held ==> next.pending.contains_key(o) && next.pending[o].contains_key(slot)
                && next.pending[o][slot] == SyncObservation::Skipped
            &&& !left_out ==> (next.pending.contains_key(o) <==> t.pending.contains_key(o)) && (
            t.pending.contains_key(o) ==> next.pending[o] == t.pending[o])
            &&& t.pending.contains_key(o) ==> (next.pending[o].contains_key(other) <==> t.pending[o].contains_key(other))
            &&& t.pending.contains_key(o) && t.pending[o].contains_key(other) ==> next.pending[o][other] == t.pending[o][other]
            &&& next.members == t.members && next.base == t.base
        }),
{
}

/// The comparison waits until reports are two generations past the deepest buffer the
/// session allows, and eight at least.
pub proof fn law_the_comparison_waits_out_the_buffer(bounds_max: u32)
    ensures
        crate::sync::eval_margin(bounds_max) >= bounds_max + 2,
        crate::sync::eval_margin(bounds_max) >= 8,
        crate::sync::eval_margin(bounds_max) == bounds_max + 2 || crate::sync::eval_margin(bounds_max) == 8,
{
}

/// Whether what was given up of the generations held is all earlier than what is kept, and
/// the comparison has moved past it.
pub open spec fn oldest_given_up(next: TrackerView, prior: TrackerView) -> bool {
    &&& forall|o: u64, k: u64|
        #![trigger prior.pending.contains_key(o), next.pending.contains_key(k)]
        prior.pending.contains_key(o) && !next.pending.contains_key(o) && next.pending.contains_key(k) ==> o < k
    &&& forall|o: u64| #[trigger]
        prior.pending.contains_key(o) && !next.pending.contains_key(o) && o < u64::MAX ==> o < next.base
    &&& forall|k: u64| #[trigger] next.pending.contains_key(k) ==> prior.pending.contains_key(k) && next.pending[k]
        == prior.pending[k]
}

proof fn lemma_evicts_the_oldest(t: TrackerView, n: nat)
    requires
        t.pending.dom().finite(),
        n <= t.pending.dom().len(),
    ensures
        oldest_given_up(t.evict(n), t),
        t.evict(n).pending.dom().finite(),
        t.evict(n).pending.dom().len() == t.pending.dom().len() - n,
        t.evict(n).base >= t.base,
    decreases n,
{
    if n > 0 {
        lemma_evicts_the_oldest(t, (n - 1) as nat);
        let before = t.evict((n - 1) as nat);
        let next = t.evict(n);
        let held = before.pending.dom();
        crate::ordmap::lemma_listing_exists(held);
        let listed = crate::ordmap::listing(held);
        crate::ordmap::lemma_listed_len(listed, held);
        let oldest = listed[0];
        assert(listed.contains(oldest));
        assert(held.contains(oldest));
        assert forall|k: u64| #[trigger] before.pending.contains_key(k) && k != oldest implies oldest < k by {
            assert(held.contains(k));
            assert(listed.contains(k));
            let i = choose|i: int| 0 <= i < listed.len() && listed[i] == k;
            assert(0 < i);
        }
        assert(next.pending.dom() =~= held.remove(oldest));
        assert forall|o: u64, k: u64|
            #![trigger t.pending.contains_key(o), next.pending.contains_key(k)]
            t.pending.contains_key(o) && !next.pending.contains_key(o) && next.pending.contains_key(k) implies o < k by {
            assert(before.pending.contains_key(k));
            if before.pending.contains_key(o) {
                assert(o == oldest);
            }
        }
        assert forall|o: u64| #[trigger]
            t.pending.contains_key(o) && !next.pending.contains_key(o) && o < u64::MAX implies o < next.base by {
            if before.pending.contains_key(o) {
                assert(o == oldest);
            }
        }
    }
}

/// At most sixty-four generations are held: of more, the oldest are given up, no more than it
/// takes, and the comparison moves past them.
pub proof fn law_the_oldest_generations_are_given_up(t: TrackerView)
    requires
        t.pending.dom().finite(),
    ensures
        ({
            let next = t.evict_over_window();
            &&& oldest_given_up(next, t)
            &&& next.base >= t.base
            &&& next.pending.dom().len() == if t.pending.dom().len() > 64 { 64 } else { t.pending.dom().len() }
        }),
{
    let held = t.pending.dom().len();
    lemma_evicts_the_oldest(t, if held > 64 { (held - 64) as nat } else { 0 });
}

} // verus!
