//! Comparison of the players' checksum reports for the same game step.
use crate::ids::SlotId;
use crate::ordmap::OrdMap;
use crate::ordmap::OrdSet;
use crate::sync::expected_kind_for_ordinal;
use crate::sync::to_word;
use crate::sync::turns::SyncGap;
use crate::sync::SyncValue;
use crate::sync::SYNC_KIND_HEADER;
use crate::sync::SYNC_KIND_UNITS;
use crate::sync::SYNC_WINDOW;
use vstd::prelude::*;

verus! {

/// A game step at which the players' checksums disagree.
#[derive(Clone, Debug, PartialEq, Eq)]
pub struct SyncDivergence {
    pub sync_ordinal: u64,
    /// The latest frame any report of the step was stamped with.
    pub game_frame: Option<u32>,
    /// Whether no value was reported by more than half of the comparable slots.
    pub no_majority: bool,
    /// The slots outside the majority, in ascending order.
    pub diverged: Vec<SlotId>,
}

/// What a [`SyncDivergence`] says.
#[verifier::ext_equal]
pub struct DivergenceView {
    pub sync_ordinal: u64,
    pub game_frame: Option<u32>,
    pub no_majority: bool,
    pub diverged: Seq<SlotId>,
}

impl View for SyncDivergence {
    type V = DivergenceView;

    open spec fn view(&self) -> DivergenceView {
        DivergenceView {
            sync_ordinal: self.sync_ordinal,
            game_frame: self.game_frame,
            no_majority: self.no_majority,
            diverged: self.diverged@,
        }
    }
}

/// What an optional divergence says.
pub open spec fn divergence_view(r: Option<SyncDivergence>) -> Option<DivergenceView> {
    match r {
        Some(d) => Some(d@),
        None => None,
    }
}

/// One slot's checksum report.
#[derive(Clone, Copy, Debug)]
pub struct SyncReport {
    pub value: SyncValue,
    pub kind: u8,
    pub game_frame: Option<u32>,
}

/// What one slot did at a generation.
#[derive(Clone, Copy, Debug)]
pub enum SyncObservation {
    Report(SyncReport),
    /// The slot asserts it emitted no report.
    Skipped,
}

/// A slot taking part in the comparison.
#[derive(Clone, Copy, Debug, PartialEq, Eq, Structural)]
pub struct Member {
    pub next_expected: u64,
    /// The first generation the slot reported at.
    pub since: u64,
}

impl View for SyncObservation {
    type V = SyncObservation;

    open spec fn view(&self) -> SyncObservation {
        *self
    }
}

impl View for Member {
    type V = Member;

    open spec fn view(&self) -> Member {
        *self
    }
}

/// The slots whose report at `ordinal` covers the expected kind of state.
pub open spec fn comparable(row: Map<SlotId, SyncObservation>, ordinal: u64) -> Set<SlotId> {
    Set::new(
        |slot: SlotId|
            row.contains_key(slot) && match row[slot] {
                SyncObservation::Report(report) => report.kind == crate::sync::kind_for(ordinal),
                SyncObservation::Skipped => false,
            },
    )
}

/// The value `slot` reported.
pub open spec fn reported(row: Map<SlotId, SyncObservation>, slot: SlotId) -> int {
    match row[slot] {
        SyncObservation::Report(report) => crate::sync::word(report.value),
        SyncObservation::Skipped => -1,
    }
}

/// The comparable slots that reported `value`.
pub open spec fn agreeing(row: Map<SlotId, SyncObservation>, ordinal: u64, value: int) -> Set<SlotId> {
    Set::new(|slot: SlotId| comparable(row, ordinal).contains(slot) && reported(row, slot) == value)
}

/// Whether two comparable slots reported different values.
pub open spec fn disagrees(row: Map<SlotId, SyncObservation>, ordinal: u64) -> bool {
    exists|a: SlotId, b: SlotId| #[trigger]
        comparable(row, ordinal).contains(a) && #[trigger] comparable(row, ordinal).contains(b) && reported(row, a)
            != reported(row, b)
}

/// Whether more than half of the comparable slots reported `value`.
pub open spec fn is_majority(row: Map<SlotId, SyncObservation>, ordinal: u64, value: int) -> bool {
    agreeing(row, ordinal, value).len() * 2 > comparable(row, ordinal).len()
}

pub open spec fn has_majority(row: Map<SlotId, SyncObservation>, ordinal: u64) -> bool {
    exists|value: int| is_majority(row, ordinal, value)
}

pub open spec fn majority_value(row: Map<SlotId, SyncObservation>, ordinal: u64) -> int {
    choose|value: int| is_majority(row, ordinal, value)
}

/// The comparable slots outside the majority; none where there is no majority.
pub open spec fn outvoted(row: Map<SlotId, SyncObservation>, ordinal: u64) -> Set<SlotId> {
    if has_majority(row, ordinal) {
        comparable(row, ordinal).difference(agreeing(row, ordinal, majority_value(row, ordinal)))
    } else {
        Set::empty()
    }
}

/// Whether `frame` is stamped on some report of `row`.
pub open spec fn stamped(row: Map<SlotId, SyncObservation>, frame: u32) -> bool {
    exists|slot: SlotId| #[trigger]
        row.contains_key(slot) && match row[slot] {
            SyncObservation::Report(report) => report.game_frame == Some(frame),
            SyncObservation::Skipped => false,
        }
}

/// Whether `frame` is the latest frame stamped on `row`'s reports.
pub open spec fn is_latest_stamp(row: Map<SlotId, SyncObservation>, frame: Option<u32>) -> bool {
    match frame {
        Some(f) => stamped(row, f) && forall|g: u32| #[trigger] stamped(row, g) ==> g <= f,
        None => forall|g: u32| !#[trigger] stamped(row, g),
    }
}

pub open spec fn latest_stamp(row: Map<SlotId, SyncObservation>) -> Option<u32> {
    choose|frame: Option<u32>| is_latest_stamp(row, frame)
}

/// No more than one value is a majority's.
pub proof fn lemma_majority_unique(row: Map<SlotId, SyncObservation>, ordinal: u64, a: int, b: int)
    requires
        comparable(row, ordinal).finite(),
        is_majority(row, ordinal, a),
        is_majority(row, ordinal, b),
    ensures
        a == b,
{
    if a != b {
        let all = comparable(row, ordinal);
        let x = agreeing(row, ordinal, a);
        let y = agreeing(row, ordinal, b);
        assert(x.subset_of(all) && y.subset_of(all));
        vstd::set_lib::lemma_len_subset(x, all);
        vstd::set_lib::lemma_len_subset(y, all);
        assert(x.disjoint(y));
        vstd::set_lib::lemma_set_disjoint_lens(x, y);
        assert((x + y).subset_of(all));
        vstd::set_lib::lemma_len_subset(x + y, all);
    }
}

/// What a [`SyncTracker`] holds.
#[verifier::ext_equal]
pub struct TrackerView {
    pub dormant: bool,
    pub initialized: bool,
    /// The generation compared next.
    pub base: u64,
    pub members: Map<SlotId, Member>,
    pub pending: Map<u64, Map<SlotId, SyncObservation>>,
    pub excluded: Set<SlotId>,
}

/// One generation's observations, nothing yet where it is unknown.
pub open spec fn row_at(pending: Map<u64, Map<SlotId, SyncObservation>>, ordinal: u64) -> Map<SlotId, SyncObservation> {
    if pending.contains_key(ordinal) { pending[ordinal] } else { Map::empty() }
}

/// `observation` for `slot` at `ordinal`, unless one is held already.
pub open spec fn noting(
    pending: Map<u64, Map<SlotId, SyncObservation>>,
    ordinal: u64,
    slot: SlotId,
    observation: SyncObservation,
) -> Map<u64, Map<SlotId, SyncObservation>> {
    let row = row_at(pending, ordinal);
    pending.insert(ordinal, if row.contains_key(slot) { row } else { row.insert(slot, observation) })
}

impl TrackerView {
    pub open spec fn fresh() -> TrackerView {
        TrackerView {
            dormant: false,
            initialized: false,
            base: 0,
            members: Map::empty(),
            pending: Map::empty(),
            excluded: Set::empty(),
        }
    }

    /// `slot` out of the comparison, with everything it reported.
    pub open spec fn remove_member(self, slot: SlotId) -> TrackerView {
        TrackerView {
            members: self.members.remove(slot),
            pending: self.pending.map_values(|row: Map<SlotId, SyncObservation>| row.remove(slot)),
            ..self
        }
    }

    /// `slots` out of the comparison, with everything they reported.
    pub open spec fn remove_members(self, slots: Set<SlotId>) -> TrackerView {
        TrackerView {
            members: self.members.remove_keys(slots),
            pending: self.pending.map_values(|row: Map<SlotId, SyncObservation>| row.remove_keys(slots)),
            ..self
        }
    }

    /// `slots` out of the comparison for good.
    pub open spec fn exclude(self, slots: Set<SlotId>) -> TrackerView {
        TrackerView { excluded: self.excluded.union(slots), ..self.remove_members(slots) }
    }

    /// The verdict on one generation's observations.
    pub open spec fn verdict(self, ordinal: u64, row: Map<SlotId, SyncObservation>) -> Option<DivergenceView> {
        if disagrees(row, ordinal) {
            Some(
                DivergenceView {
                    sync_ordinal: ordinal,
                    game_frame: latest_stamp(row),
                    no_majority: !has_majority(row, ordinal),
                    diverged: crate::ordmap::listing(outvoted(row, ordinal)),
                },
            )
        } else {
            None
        }
    }

    /// What remains once a row is judged: an outvoted slot is excluded, and with fewer than
    /// two members, or with no majority, there is nothing left to compare.
    pub open spec fn judged(self, ordinal: u64, row: Map<SlotId, SyncObservation>) -> TrackerView {
        let kept = self.exclude(outvoted(row, ordinal));
        if !disagrees(row, ordinal) {
            self
        } else if has_majority(row, ordinal) {
            TrackerView { dormant: self.dormant || kept.members.dom().len() < 2, ..kept }
        } else {
            TrackerView { dormant: true, ..self }
        }
    }

    /// Whether some member's reports are `margin` past the base generation.
    pub open spec fn margin_reached(self, margin: u64) -> bool {
        exists|slot: SlotId| #[trigger]
            self.members.contains_key(slot) && self.members[slot].next_expected.saturating_sub(self.base) >= margin
    }

    /// Whether some member takes part at the base generation.
    pub open spec fn base_required(self) -> bool {
        exists|slot: SlotId| #[trigger] self.members.contains_key(slot) && self.members[slot].since <= self.base
    }

    /// Whether every member that takes part at the base generation is heard from there.
    pub open spec fn base_complete(self) -> bool {
        forall|slot: SlotId| #[trigger]
            self.members.contains_key(slot) && self.members[slot].since <= self.base ==> row_at(
                self.pending,
                self.base,
            ).contains_key(slot)
    }

    /// The base generation done with.
    pub open spec fn advanced(self) -> TrackerView {
        TrackerView { pending: self.pending.remove(self.base), base: self.base.saturating_add(1), ..self }
    }

    /// Every generation that is ready compared in turn, up to the first disagreement.
    pub open spec fn evaluate_ready(self, margin: u64) -> (TrackerView, Option<DivergenceView>)
        decreases u64::MAX - self.base,
    {
        if margin == 0 || self.base == u64::MAX || !self.margin_reached(margin) {
            (self, None)
        } else if !self.base_required() {
            self.advanced().evaluate_ready(margin)
        } else if !self.base_complete() {
            (self, None)
        } else {
            let row = row_at(self.pending, self.base);
            let verdict = self.advanced().verdict(self.base, row);
            if verdict is Some {
                (self.advanced().judged(self.base, row), verdict)
            } else {
                self.advanced().evaluate_ready(margin)
            }
        }
    }

    /// The `n` oldest generations given up.
    pub open spec fn evict(self, n: nat) -> TrackerView
        decreases n,
    {
        if n == 0 {
            self
        } else {
            let before = self.evict((n - 1) as nat);
            let oldest = crate::ordmap::listing(before.pending.dom())[0];
            TrackerView {
                pending: before.pending.remove(oldest),
                base: if oldest >= before.base { oldest.saturating_add(1) } else { before.base },
                ..before
            }
        }
    }

    /// Generations past the window's cap given up, oldest first.
    pub open spec fn evict_over_window(self) -> TrackerView {
        let held = self.pending.dom().len();
        self.evict(if held > SYNC_WINDOW { (held - SYNC_WINDOW) as nat } else { 0 })
    }

    /// `slot` a member since `ordinal`, its newest report at `ordinal` or later.
    pub open spec fn joined(self, slot: SlotId, ordinal: u64) -> TrackerView {
        let next = ordinal.saturating_add(1);
        TrackerView {
            initialized: true,
            base: if self.initialized { self.base } else { ordinal },
            members: self.members.insert(
                slot,
                if self.members.contains_key(slot) {
                    let member = self.members[slot];
                    Member { next_expected: if member.next_expected >= next { member.next_expected } else { next }, ..member }
                } else {
                    Member { next_expected: next, since: ordinal }
                },
            ),
            ..self
        }
    }

    /// The generations in `gap` that matter noted as left out by `slot`.
    pub open spec fn record_skipped(self, slot: SlotId, since: u64, gap: SyncGap) -> TrackerView {
        let within = |o: u64| gap.first <= o < gap.end && self.base <= o && since <= o;
        TrackerView {
            pending: Map::new(
                |o: u64| self.pending.contains_key(o) || within(o),
                |o: u64|
                    if within(o) {
                        noting(self.pending, o, slot, SyncObservation::Skipped)[o]
                    } else {
                        self.pending[o]
                    },
            ),
            ..self
        }
    }

    /// Whether a report is taken in at all.
    pub open spec fn admits(self, slot: SlotId, report: SyncReport) -> bool {
        !self.excluded.contains(slot) && (report.kind == SYNC_KIND_UNITS || report.kind == SYNC_KIND_HEADER)
    }

    /// The tracker once `slot`'s report at `ordinal` is noted, before any comparison.
    pub open spec fn noted(self, slot: SlotId, ordinal: u64, report: SyncReport, skipped: Option<SyncGap>) -> TrackerView {
        let joined = self.joined(slot, ordinal);
        let gapped = match skipped {
            Some(gap) => joined.record_skipped(slot, joined.members[slot].since, gap),
            None => joined,
        };
        TrackerView { pending: noting(gapped.pending, ordinal, slot, SyncObservation::Report(report)), ..gapped }
    }

    /// One report taken in, and what it brings to light.
    pub open spec fn record(
        self,
        slot: SlotId,
        ordinal: u64,
        report: SyncReport,
        skipped: Option<SyncGap>,
        margin: u64,
    ) -> (TrackerView, Option<DivergenceView>) {
        if !self.admits(slot, report) {
            (self, None)
        } else if ordinal < self.joined(slot, ordinal).base {
            (self.joined(slot, ordinal), None)
        } else {
            let (next, verdict) = self.noted(slot, ordinal, report, skipped).evaluate_ready(margin);
            if verdict is Some {
                (next, verdict)
            } else {
                (next.evict_over_window(), None)
            }
        }
    }
}

/// The comparison of one session's checksum reports.
pub struct SyncTracker {
    pub(crate) dormant: bool,
    pub(crate) initialized: bool,
    pub(crate) base_ordinal: u64,
    pub(crate) members: OrdMap<SlotId, Member>,
    pub(crate) pending: OrdMap<u64, OrdMap<SlotId, SyncObservation>>,
    pub(crate) excluded: OrdSet<SlotId>,
}

impl View for SyncTracker {
    type V = TrackerView;

    open(crate) spec fn view(&self) -> TrackerView {
        TrackerView {
            dormant: self.dormant,
            initialized: self.initialized,
            base: self.base_ordinal,
            members: self.members@,
            pending: self.pending@,
            excluded: self.excluded@,
        }
    }
}

impl Default for SyncTracker {
    fn default() -> (r: Self)
        ensures
            r@ == TrackerView::fresh(),
    {
        SyncTracker {
            dormant: false,
            initialized: false,
            base_ordinal: 0,
            members: OrdMap::new(),
            pending: OrdMap::new(),
            excluded: OrdSet::new(),
        }
    }
}

/// The slots whose report at `ordinal` covers the expected kind of state.
fn find_comparable(row: &OrdMap<SlotId, SyncObservation>, ordinal: u64) -> (r: OrdSet<SlotId>)
    ensures
        r@ == comparable(row@, ordinal),
{
    let kind: u8 = expected_kind_for_ordinal(ordinal);
    let mut out: OrdSet<SlotId> = OrdSet::new();
    let n: usize = row.len();
    let ghost keys = crate::ordmap::listing(row@.dom());
    let mut i: usize = 0;
    while i < n
        invariant
            i <= n,
            n == keys.len(),
            keys == crate::ordmap::listing(row@.dom()),
            crate::ordmap::lists(keys, row@.dom()),
            kind == crate::sync::kind_for(ordinal),
            forall|s: SlotId| #[trigger]
                out@.contains(s) <==> comparable(row@, ordinal).contains(s) && keys.take(i as int).contains(s),
        decreases n - i,
    {
        let slot = row.key_at(i);
        match row.value_at(i) {
            SyncObservation::Report(report) => {
                if report.kind == kind {
                    out.insert(slot);
                }
            },
            SyncObservation::Skipped => {},
        }
        proof {
            lemma_take_contains(keys, i as int);
        }
        i += 1;
    }
    proof {
        assert(keys.take(n as int) =~= keys);
        assert(out@ =~= comparable(row@, ordinal)) by {
            assert forall|s: SlotId| comparable(row@, ordinal).contains(s) implies #[trigger] out@.contains(s) by {
                assert(row@.dom().contains(s));
                assert(keys.contains(s));
            }
        }
    }
    out
}

/// What a longer prefix of a listing contains.
pub(crate) proof fn lemma_take_contains<K>(keys: Seq<K>, i: int)
    requires
        0 <= i < keys.len(),
    ensures
        forall|k: K| #[trigger] keys.take(i + 1).contains(k) <==> keys.take(i).contains(k) || k == keys[i],
{
    let next = keys.take(i + 1);
    let prev = keys.take(i);
    assert forall|k: K| #[trigger] next.contains(k) <==> prev.contains(k) || k == keys[i] by {
        if next.contains(k) {
            let j = choose|j: int| 0 <= j < next.len() && next[j] == k;
            if j < i {
                assert(prev[j] == k);
            }
        }
        if prev.contains(k) {
            let j = choose|j: int| 0 <= j < prev.len() && prev[j] == k;
            assert(next[j] == k);
        }
        assert(next[i] == keys[i]);
    }
}

/// The value `slot` reported.
fn reported_word(row: &OrdMap<SlotId, SyncObservation>, slot: SlotId, ordinal: u64) -> (r: u32)
    requires
        comparable(row@, ordinal).contains(slot),
    ensures
        r == reported(row@, slot),
{
    match row.get(slot) {
        Some(SyncObservation::Report(report)) => to_word(report.value),
        _ => 0,
    }
}

/// The comparable slots that reported `value`.
fn find_agreeing(
    row: &OrdMap<SlotId, SyncObservation>,
    ordinal: u64,
    slots: &OrdSet<SlotId>,
    value: u32,
) -> (r: OrdSet<SlotId>)
    requires
        slots@ == comparable(row@, ordinal),
    ensures
        r@ == agreeing(row@, ordinal, value as int),
{
    let mut out: OrdSet<SlotId> = OrdSet::new();
    let n: usize = slots.len();
    let ghost keys = crate::ordmap::listing(slots@);
    let mut i: usize = 0;
    while i < n
        invariant
            i <= n,
            n == keys.len(),
            keys == crate::ordmap::listing(slots@),
            crate::ordmap::lists(keys, slots@),
            slots@ == comparable(row@, ordinal),
            forall|s: SlotId| #[trigger]
                out@.contains(s) <==> agreeing(row@, ordinal, value as int).contains(s) && keys.take(i as int).contains(s),
        decreases n - i,
    {
        let slot = slots.key_at(i);
        if reported_word(row, slot, ordinal) == value {
            out.insert(slot);
        }
        proof {
            lemma_take_contains(keys, i as int);
        }
        i += 1;
    }
    proof {
        assert(keys.take(n as int) =~= keys);
        assert(out@ =~= agreeing(row@, ordinal, value as int)) by {
            assert forall|s: SlotId| agreeing(row@, ordinal, value as int).contains(s) implies #[trigger] out@.contains(
                s,
            ) by {
                assert(slots@.contains(s));
                assert(keys.contains(s));
            }
        }
    }
    out
}

/// Whether two comparable slots reported different values.
fn find_disagreement(row: &OrdMap<SlotId, SyncObservation>, ordinal: u64, slots: &OrdSet<SlotId>) -> (r: bool)
    requires
        slots@ == comparable(row@, ordinal),
    ensures
        r == disagrees(row@, ordinal),
{
    let n: usize = slots.len();
    if n == 0 {
        assert forall|s: SlotId| !#[trigger] comparable(row@, ordinal).contains(s) by {
            assert(slots@.contains(s) <==> crate::ordmap::listing(slots@).contains(s));
        }
        return false;
    }
    let ghost keys = crate::ordmap::listing(slots@);
    let first = slots.key_at(0);
    let agreed: u32 = reported_word(row, first, ordinal);
    let mut i: usize = 1;
    while i < n
        invariant
            1 <= i <= n,
            n == keys.len(),
            keys == crate::ordmap::listing(slots@),
            crate::ordmap::lists(keys, slots@),
            slots@ == comparable(row@, ordinal),
            first == keys[0],
            agreed == reported(row@, first),
            forall|j: int| 0 <= j < i ==> reported(row@, #[trigger] keys[j]) == agreed,
        decreases n - i,
    {
        let slot = slots.key_at(i);
        if reported_word(row, slot, ordinal) != agreed {
            proof {
                assert(keys.contains(first));
                assert(comparable(row@, ordinal).contains(first));
                assert(comparable(row@, ordinal).contains(slot));
            }
            return true;
        }
        i += 1;
    }
    assert forall|s: SlotId| #[trigger] comparable(row@, ordinal).contains(s) implies reported(row@, s) == agreed by {
        assert(slots@.contains(s));
        assert(keys.contains(s));
    }
    false
}

/// The latest frame stamped on the row's reports.
fn find_latest_stamp(row: &OrdMap<SlotId, SyncObservation>) -> (r: Option<u32>)
    ensures
        r == latest_stamp(row@),
        is_latest_stamp(row@, r),
{
    let mut best: Option<u32> = None;
    let n: usize = row.len();
    let ghost keys = crate::ordmap::listing(row@.dom());
    let mut i: usize = 0;
    while i < n
        invariant
            i <= n,
            n == keys.len(),
            keys == crate::ordmap::listing(row@.dom()),
            crate::ordmap::lists(keys, row@.dom()),
            best is Some ==> stamped(row@, best->0),
            forall|j: int|
                0 <= j < i ==> match row@[#[trigger] keys[j]] {
                    SyncObservation::Report(report) => report.game_frame is Some ==> best is Some
                        && report.game_frame->0 <= best->0,
                    SyncObservation::Skipped => true,
                },
        decreases n - i,
    {
        match row.value_at(i) {
            SyncObservation::Report(report) => {
                if let Some(frame) = report.game_frame {
                    let later = match best {
                        Some(b) => frame > b,
                        None => true,
                    };
                    if later {
                        assert(row@.contains_key(keys[i as int]));
                        best = Some(frame);
                    }
                }
            },
            SyncObservation::Skipped => {},
        }
        i += 1;
    }
    proof {
        assert forall|g: u32| #[trigger] stamped(row@, g) implies best is Some && g <= best->0 by {
            let slot = choose|slot: SlotId| #[trigger]
                row@.contains_key(slot) && match row@[slot] {
                    SyncObservation::Report(report) => report.game_frame == Some(g),
                    SyncObservation::Skipped => false,
                };
            assert(row@.dom().contains(slot));
            assert(keys.contains(slot));
        }
        assert(is_latest_stamp(row@, best));
        let other = latest_stamp(row@);
        assert(is_latest_stamp(row@, other));
        assert(other == best);
    }
    best
}

/// The comparable slots of the majority, where there is one.
fn find_majority(row: &OrdMap<SlotId, SyncObservation>, ordinal: u64, slots: &OrdSet<SlotId>) -> (r: Option<OrdSet<SlotId>>)
    requires
        slots@ == comparable(row@, ordinal),
    ensures
        r is Some == has_majority(row@, ordinal),
        r is Some ==> (r->0)@ == agreeing(row@, ordinal, majority_value(row@, ordinal)),
{
    let n: usize = slots.len();
    let ghost keys = crate::ordmap::listing(slots@);
    let mut i: usize = 0;
    while i < n
        invariant
            i <= n,
            n == keys.len(),
            n == slots@.len(),
            slots@.finite(),
            keys == crate::ordmap::listing(slots@),
            crate::ordmap::lists(keys, slots@),
            slots@ == comparable(row@, ordinal),
            forall|j: int| 0 <= j < i ==> !is_majority(row@, ordinal, reported(row@, #[trigger] keys[j])),
        decreases n - i,
    {
        let slot = slots.key_at(i);
        let value: u32 = reported_word(row, slot, ordinal);
        let group = find_agreeing(row, ordinal, slots, value);
        let size: usize = group.len();
        proof {
            assert(group@.subset_of(slots@));
            vstd::set_lib::lemma_len_subset(group@, slots@);
        }
        if size > n - size {
            proof {
                assert(is_majority(row@, ordinal, value as int));
                lemma_majority_unique(row@, ordinal, value as int, majority_value(row@, ordinal));
            }
            return Some(group);
        }
        i += 1;
    }
    proof {
        if has_majority(row@, ordinal) {
            let value = majority_value(row@, ordinal);
            let group = agreeing(row@, ordinal, value);
            assert(group.len() > 0);
            assert(group.subset_of(slots@));
            vstd::set_lib::lemma_len_subset(group, slots@);
            let s = group.choose();
            assert(group.contains(s));
            assert(slots@.contains(s));
            assert(keys.contains(s));
        }
    }
    None
}

impl SyncTracker {
    /// Takes `slot`'s report at generation `ordinal` in, and compares every generation
    /// that is ready.
    pub(crate) fn record(
        &mut self,
        slot: SlotId,
        ordinal: u64,
        report: SyncReport,
        skipped: Option<SyncGap>,
        margin: u64,
    ) -> (r: Option<SyncDivergence>)
        requires
            margin > 0,
        ensures
            divergence_view(r) == old(self)@.record(slot, ordinal, report, skipped, margin).1,
            final(self)@ == old(self)@.record(slot, ordinal, report, skipped, margin).0,
    {
        if self.excluded.contains(slot) {
            return None;
        }
        if report.kind != SYNC_KIND_UNITS && report.kind != SYNC_KIND_HEADER {
            return None;
        }
        if !self.initialized {
            self.initialized = true;
            self.base_ordinal = ordinal;
        }
        let next_expected: u64 = ordinal.saturating_add(1);
        let member = match self.members.get(slot) {
            Some(member) => Member {
                next_expected: if member.next_expected >= next_expected { member.next_expected } else { next_expected },
                since: member.since,
            },
            None => Member { next_expected, since: ordinal },
        };
        self.members.insert(slot, member);
        assert(self@ == old(self)@.joined(slot, ordinal));
        if ordinal < self.base_ordinal {
            return None;
        }
        if let Some(gap) = skipped {
            self.record_skipped(slot, member.since, gap);
        }
        self.note(ordinal, slot, SyncObservation::Report(report));
        assert(self@ == old(self)@.noted(slot, ordinal, report, skipped));
        let verdict = self.evaluate_ready(margin);
        if verdict.is_some() {
            return verdict;
        }
        self.evict_over_window();
        None
    }

    /// Notes `observation` for `slot` at `ordinal`, unless one is held already.
    fn note(&mut self, ordinal: u64, slot: SlotId, observation: SyncObservation)
        ensures
            final(self)@ == (TrackerView { pending: noting(old(self)@.pending, ordinal, slot, observation), ..old(self)@ }),
    {
        let mut row = match self.pending.remove(ordinal) {
            Some(row) => row,
            None => OrdMap::new(),
        };
        if !row.contains_key(slot) {
            row.insert(slot, observation);
        }
        self.pending.insert(ordinal, row);
        assert(self@.pending =~= noting(old(self)@.pending, ordinal, slot, observation));
    }

    /// Notes the generations `slot` left out.
    fn record_skipped(&mut self, slot: SlotId, since: u64, gap: SyncGap)
        ensures
            final(self)@ == old(self)@.record_skipped(slot, since, gap),
    {
        let mut ordinal: u64 = gap.first;
        if ordinal < self.base_ordinal {
            ordinal = self.base_ordinal;
        }
        if ordinal < since {
            ordinal = since;
        }
        let ghost low = ordinal;
        while ordinal < gap.end
            invariant
                low == old(self)@.record_low(since, gap),
                low <= ordinal,
                ordinal <= gap.end || ordinal == low,
                self@ == (TrackerView { pending: self@.pending, ..old(self)@ }),
                forall|o: u64| #[trigger]
                    self@.pending.contains_key(o) <==> old(self)@.pending.contains_key(o) || low <= o < ordinal,
                forall|o: u64|
                    self@.pending.contains_key(o) ==> #[trigger] self@.pending[o] == (if low <= o < ordinal {
                        noting(old(self)@.pending, o, slot, SyncObservation::Skipped)[o]
                    } else {
                        old(self)@.pending[o]
                    }),
            decreases gap.end - ordinal,
        {
            self.note(ordinal, slot, SyncObservation::Skipped);
            ordinal = ordinal + 1;
        }
        assert(self@.pending =~= old(self)@.record_skipped(slot, since, gap).pending);
    }

    /// Whether some member's reports are `margin` past the base generation.
    fn is_margin_reached(&self, margin: u64) -> (r: bool)
        ensures
            r == self@.margin_reached(margin),
    {
        let n: usize = self.members.len();
        let ghost keys = crate::ordmap::listing(self.members@.dom());
        let mut i: usize = 0;
        while i < n
            invariant
                i <= n,
                n == keys.len(),
                keys == crate::ordmap::listing(self.members@.dom()),
                self.members@ == self@.members,
                forall|j: int|
                    0 <= j < i ==> self@.members[#[trigger] keys[j]].next_expected.saturating_sub(self@.base) < margin,
            decreases n - i,
        {
            let member = self.members.value_at(i);
            if member.next_expected.saturating_sub(self.base_ordinal) >= margin {
                assert(self@.members.contains_key(keys[i as int]));
                return true;
            }
            i += 1;
        }
        assert forall|s: SlotId| #[trigger] self@.members.contains_key(s) implies self@.members[s].next_expected.saturating_sub(
            self@.base,
        ) < margin by {
            assert(self.members@.dom().contains(s));
            assert(keys.contains(s));
        }
        false
    }

    /// Whether some member takes part at the base generation, and whether all that do
    /// are heard from there.
    fn base_standing(&self) -> (r: (bool, bool))
        ensures
            r.0 == self@.base_required(),
            r.1 == self@.base_complete(),
    {
        let n: usize = self.members.len();
        let ghost keys = crate::ordmap::listing(self.members@.dom());
        let mut required = false;
        let mut complete = true;
        let mut i: usize = 0;
        while i < n
            invariant
                i <= n,
                n == keys.len(),
                keys == crate::ordmap::listing(self.members@.dom()),
                self.members@ == self@.members,
                required ==> self@.base_required(),
                !required ==> forall|j: int| 0 <= j < i ==> self@.members[#[trigger] keys[j]].since > self@.base,
                !complete ==> !self@.base_complete(),
                complete ==> forall|j: int|
                    0 <= j < i && self@.members[#[trigger] keys[j]].since <= self@.base ==> row_at(
                        self@.pending,
                        self@.base,
                    ).contains_key(keys[j]),
            decreases n - i,
        {
            let slot = self.members.key_at(i);
            let member = self.members.value_at(i);
            if member.since <= self.base_ordinal {
                assert(self@.members.contains_key(slot));
                required = true;
                let heard = match self.pending.get(self.base_ordinal) {
                    Some(row) => row.contains_key(slot),
                    None => false,
                };
                if !heard {
                    complete = false;
                }
            }
            i += 1;
        }
        assert forall|s: SlotId| #[trigger] self@.members.contains_key(s) implies keys.contains(s) by {
            assert(self.members@.dom().contains(s));
        }
        (required, complete)
    }

    /// Compares every generation that is ready, up to the first disagreement.
    pub(crate) fn evaluate_ready(&mut self, margin: u64) -> (r: Option<SyncDivergence>)
        requires
            margin > 0,
        ensures
            divergence_view(r) == old(self)@.evaluate_ready(margin).1,
            final(self)@ == old(self)@.evaluate_ready(margin).0,
    {
        loop
            invariant
                margin > 0,
                self@.evaluate_ready(margin) == old(self)@.evaluate_ready(margin),
            decreases u64::MAX - self.base_ordinal,
        {
            if !self.is_margin_reached(margin) {
                return None;
            }
            let base: u64 = self.base_ordinal;
            let (required, complete) = self.base_standing();
            let ghost before = self@;
            if required && !complete {
                return None;
            }
            let taken = self.pending.remove(base);
            self.base_ordinal = base.saturating_add(1);
            assert(self@ =~= before.advanced());
            if required {
                if let Some(row) = taken {
                    let verdict = self.evaluate(base, &row);
                    if verdict.is_some() {
                        return verdict;
                    }
                }
            }
        }
    }

    /// Gives the comparison up for a session whose buffer leaves no room for it.
    pub(crate) fn disable_for_absurd_bounds(&mut self)
        ensures
            final(self)@ == (TrackerView { dormant: true, ..old(self)@ }),
    {
        self.dormant = true;
    }

    /// Compares one generation's observations.
    pub(crate) fn evaluate(&mut self, ordinal: u64, row: &OrdMap<SlotId, SyncObservation>) -> (r: Option<SyncDivergence>)
        ensures
            divergence_view(r) == old(self)@.verdict(ordinal, row@),
            final(self)@ == old(self)@.judged(ordinal, row@),
    {
        let slots = find_comparable(row, ordinal);
        if !find_disagreement(row, ordinal, &slots) {
            return None;
        }
        let game_frame = find_latest_stamp(row);
        let mut diverged_set: OrdSet<SlotId> = OrdSet::new();
        let majority = find_majority(row, ordinal, &slots);
        let no_majority = majority.is_none();
        match majority {
            Some(majority) => {
                let all = slots.keys();
                let mut i: usize = 0;
                while i < all.len()
                    invariant
                        i <= all@.len(),
                        crate::ordmap::lists(all@, slots@),
                        forall|s: SlotId| #[trigger]
                            diverged_set@.contains(s) <==> all@.take(i as int).contains(s) && !majority@.contains(s),
                    decreases all@.len() - i,
                {
                    let slot = all[i];
                    if !majority.contains(slot) {
                        diverged_set.insert(slot);
                    }
                    proof {
                        lemma_take_contains(all@, i as int);
                    }
                    i += 1;
                }
                assert(all@.take(all@.len() as int) =~= all@);
                assert(diverged_set@ =~= outvoted(row@, ordinal)) by {
                    assert forall|s: SlotId| outvoted(row@, ordinal).contains(s) implies #[trigger] diverged_set@.contains(
                        s,
                    ) by {
                        assert(slots@.contains(s));
                    }
                    assert forall|s: SlotId| #[trigger] diverged_set@.contains(s) implies outvoted(
                        row@,
                        ordinal,
                    ).contains(s) by {
                        assert(slots@.contains(s));
                    }
                }
                self.exclude_all(&diverged_set);
                if self.members.len() < 2 {
                    self.dormant = true;
                }
            },
            None => {
                self.dormant = true;
            },
        }
        let diverged = diverged_set.keys();
        Some(SyncDivergence { sync_ordinal: ordinal, game_frame, no_majority, diverged })
    }

    /// Excludes every one of `slots` for good.
    fn exclude_all(&mut self, slots: &OrdSet<SlotId>)
        ensures
            final(self)@ == old(self)@.exclude(slots@),
    {
        let keys = slots.keys();
        let mut i: usize = 0;
        let ghost mut done = Set::<SlotId>::empty();
        assert(self@ =~~= old(self)@.exclude(done));
        while i < keys.len()
            invariant
                i <= keys@.len(),
                crate::ordmap::lists(keys@, slots@),
                forall|s: SlotId| #[trigger] done.contains(s) <==> keys@.take(i as int).contains(s),
                self@ == old(self)@.exclude(done),
            decreases keys@.len() - i,
        {
            let slot = keys[i];
            let ghost before = self@;
            self.exclude_member(slot);
            proof {
                lemma_take_contains(keys@, i as int);
                assert(self@ =~~= old(self)@.exclude(done.insert(slot)));
                done = done.insert(slot);
            }
            i += 1;
        }
        assert(keys@.take(keys@.len() as int) =~= keys@);
        assert(done =~= slots@);
    }

    /// Takes every one of `slots` out of the comparison.
    pub(crate) fn remove_members(&mut self, slots: &OrdSet<SlotId>)
        ensures
            final(self)@ == old(self)@.remove_members(slots@),
    {
        let keys = slots.keys();
        let mut i: usize = 0;
        let ghost mut done = Set::<SlotId>::empty();
        assert(self@ =~~= old(self)@.remove_members(done));
        while i < keys.len()
            invariant
                i <= keys@.len(),
                crate::ordmap::lists(keys@, slots@),
                forall|s: SlotId| #[trigger] done.contains(s) <==> keys@.take(i as int).contains(s),
                self@ == old(self)@.remove_members(done),
            decreases keys@.len() - i,
        {
            let slot = keys[i];
            self.remove_member(slot);
            proof {
                lemma_take_contains(keys@, i as int);
                assert(self@ =~~= old(self)@.remove_members(done.insert(slot)));
                done = done.insert(slot);
            }
            i += 1;
        }
        assert(keys@.take(keys@.len() as int) =~= keys@);
        assert(done =~= slots@);
    }

    /// Gives up the oldest generations past the window's cap.
    pub(crate) fn evict_over_window(&mut self)
        ensures
            final(self)@ == old(self)@.evict_over_window(),
    {
        let ghost mut gone: nat = 0;
        let ghost held = old(self)@.pending.dom().len();
        while self.pending.len() > 64
            invariant
                self@ == old(self)@.evict(gone),
                self@.pending.dom().len() + gone == held,
                held == old(self)@.pending.dom().len(),
                gone > 0 ==> gone <= held - 64,
            decreases self@.pending.dom().len(),
        {
            let n: usize = self.pending.len();
            assert(n > 0);
            let oldest: u64 = self.pending.key_at(0);
            let _row = self.pending.remove(oldest);
            if oldest >= self.base_ordinal {
                self.base_ordinal = oldest.saturating_add(1);
            }
            proof {
                gone = gone + 1;
            }
        }
    }

    /// Excludes `slot` from the comparison for good.
    pub(crate) fn exclude_member(&mut self, slot: SlotId)
        ensures
            final(self)@ == (TrackerView {
                excluded: old(self)@.excluded.insert(slot),
                ..old(self)@.remove_member(slot)
            }),
    {
        self.excluded.insert(slot);
        self.remove_member(slot);
    }

    /// Takes `slot` out of the comparison, with everything it reported.
    pub(crate) fn remove_member(&mut self, slot: SlotId)
        ensures
            final(self)@ == old(self)@.remove_member(slot),
    {
        let _member = self.members.remove(slot);
        let ordinals = self.pending.keys();
        let mut i: usize = 0;
        while i < ordinals.len()
            invariant
                i <= ordinals@.len(),
                crate::ordmap::lists(ordinals@, old(self)@.pending.dom()),
                self@ == (TrackerView {
                    members: old(self)@.members.remove(slot),
                    pending: self@.pending,
                    ..old(self)@
                }),
                self@.pending.dom() == old(self)@.pending.dom(),
                forall|j: int|
                    0 <= j < i ==> self@.pending[#[trigger] ordinals@[j]] == old(self)@.pending[ordinals@[j]].remove(slot),
                forall|j: int|
                    i <= j < ordinals@.len() ==> self@.pending[#[trigger] ordinals@[j]] == old(
                        self,
                    )@.pending[ordinals@[j]],
            decreases ordinals@.len() - i,
        {
            let ordinal: u64 = ordinals[i];
            assert(ordinals@.contains(ordinal));
            assert(old(self)@.pending.dom().contains(ordinal));
            let ghost before = self@.pending;
            if let Some(mut row) = self.pending.remove(ordinal) {
                let _gone = row.remove(slot);
                self.pending.insert(ordinal, row);
            }
            assert(self@.pending.dom() =~= before.dom());
            assert forall|j: int| 0 <= j < ordinals@.len() && j != i implies #[trigger] ordinals@[j] != ordinal by {
                if j < i {
                    assert(crate::ordmap::OrdKey::rank(ordinals@[j]) < crate::ordmap::OrdKey::rank(ordinals@[i as int]));
                } else {
                    assert(crate::ordmap::OrdKey::rank(ordinals@[i as int]) < crate::ordmap::OrdKey::rank(ordinals@[j]));
                }
            }
            i += 1;
        }
        assert(self@.pending =~= old(self)@.remove_member(slot).pending) by {
            assert forall|o: u64| #[trigger] old(self)@.pending.contains_key(o) implies self@.pending[o] == old(
                self,
            )@.pending[o].remove(slot) by {
                assert(old(self)@.pending.dom().contains(o));
                assert(ordinals@.contains(o));
            }
        }
    }
}

impl TrackerView {
    spec fn record_low(self, since: u64, gap: SyncGap) -> u64 {
        let low = if gap.first >= self.base { gap.first } else { self.base };
        if low >= since { low } else { since }
    }
}

} // verus!
