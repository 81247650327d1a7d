//! Checksum reports: from a turn's commands to the desync comparator.
use crate::ids::SlotId;
use crate::maker::DecisionMaker;
use crate::maker::MakerView;
use crate::ordmap::OrdSet;
use crate::sync::sync_eval_margin;
use crate::sync::tracker::DivergenceView;
use crate::sync::tracker::SyncDivergence;
use crate::sync::tracker::SyncReport;
use crate::sync::tracker::TrackerView;
use crate::sync::turns::SlotTurnsView;
use crate::sync::turns::SyncCommand;
use crate::sync::turns::SyncTurn;
use crate::sync::SYNC_ABSURD_BUFFER_MAX;
use crate::sync::SYNC_COMMAND;
use crate::sync::SYNC_COMMAND_LEN;
use crate::wire::SyncCoverage;
use vstd::prelude::*;

verus! {

/// The checksum report that the command starting at `offset` holds: its ring position and
/// kind share a byte, and two bytes of checksum follow.
pub open spec fn report_at(commands: Seq<u8>, offset: int) -> SyncCommand {
    SyncCommand {
        ring: (commands[offset + 1] / 16) as u8,
        kind: (commands[offset + 1] % 16) as u8,
        value: [commands[offset + 2], commands[offset + 3]],
    }
}

/// The length of the command that starts at `offset`, where the command table knows it and
/// the turn holds all of it.
pub open spec fn whole_command(commands: Seq<u8>, lengths: Seq<Option<usize>>, offset: int) -> Option<int> {
    if offset < lengths.len() && lengths[offset] is Some && 0 < lengths[offset]->0 && offset + lengths[offset]->0
        <= commands.len() {
        Some(lengths[offset]->0 as int)
    } else {
        None
    }
}

/// The first checksum report among the commands from `offset` on. The walk ends at a
/// command that is unknown or cut short.
pub open spec fn first_report(commands: Seq<u8>, lengths: Seq<Option<usize>>, offset: int) -> Option<SyncCommand>
    decreases commands.len() - offset,
{
    if offset >= commands.len() {
        None
    } else {
        match whole_command(commands, lengths, offset) {
            None => None,
            Some(len) => if commands[offset] == SYNC_COMMAND && len == SYNC_COMMAND_LEN {
                Some(report_at(commands, offset))
            } else {
                first_report(commands, lengths, offset + len)
            },
        }
    }
}

/// Reads the first checksum report out of a turn's commands. `lengths` gives, for each
/// offset, the length the command table reads there.
pub fn parse_sync(commands: &[u8], lengths: &[Option<usize>]) -> (r: Option<SyncCommand>)
    ensures
        r == first_report(commands@, lengths@, 0),
{
    let end: usize = commands.len();
    let mut offset: usize = 0;
    while offset < end
        invariant
            end == commands@.len(),
            offset <= end,
            first_report(commands@, lengths@, 0) == first_report(commands@, lengths@, offset as int),
        decreases end - offset,
    {
        if offset >= lengths.len() {
            return None;
        }
        let len: usize = match lengths[offset] {
            Some(len) => len,
            None => {
                return None;
            },
        };
        if len == 0 || len > end - offset {
            return None;
        }
        if commands[offset] == SYNC_COMMAND && len == SYNC_COMMAND_LEN {
            let tag: u8 = commands[offset + 1];
            return Some(
                SyncCommand { ring: tag / 16, kind: tag % 16, value: [commands[offset + 2], commands[offset + 3]] },
            );
        }
        offset = offset + len;
    }
    None
}

impl MakerView {
    /// `slot`'s turns as the comparator orders them.
    pub open spec fn origin(self, slot: SlotId) -> SlotTurnsView {
        crate::sync::turns::origin(self.sync_turns, slot)
    }

    pub open spec fn with_origin(self, slot: SlotId, origin: SlotTurnsView) -> MakerView {
        MakerView { sync_turns: self.sync_turns.insert(slot, origin), ..self }
    }

    pub open spec fn without_member(self, slot: SlotId) -> MakerView {
        MakerView { sync: self.sync.remove_member(slot), ..self }
    }

    /// The comparator off where the buffer's bounds leave it no room.
    pub open spec fn bounded_sync(self) -> TrackerView {
        if self.bounds.max >= SYNC_ABSURD_BUFFER_MAX {
            TrackerView { dormant: true, ..self.sync }
        } else {
            self.sync
        }
    }

    /// One turn in order compared; only the authority compares, and no departed slot.
    pub open spec fn compare_sync_turn(self, slot: SlotId, turn: SyncTurn) -> (MakerView, Option<DivergenceView>) {
        let sync = self.bounded_sync();
        if !self.is_authority() || self.departures.contains_key(slot) {
            (self, None)
        } else if sync.dormant || turn.command is None || turn.ordinal is None {
            (MakerView { sync, ..self }, None)
        } else {
            let command = turn.command->0;
            let (next, verdict) = sync.record(
                slot,
                turn.ordinal->0,
                SyncReport { kind: command.kind, value: command.value, game_frame: turn.frame },
                turn.skipped,
                crate::sync::eval_margin(self.bounds.max),
            );
            (MakerView { sync: next, ..self }, verdict)
        }
    }

    /// `slot`'s next turn taken from those that arrived early and compared.
    pub open spec fn sync_step(self, slot: SlotId) -> (MakerView, Option<DivergenceView>) {
        let popped = self.with_origin(slot, self.origin(slot).pop());
        match self.origin(slot).popped() {
            Ok(None) => (self, None),
            Err(_) => (popped.without_member(slot), None),
            Ok(Some(turn)) => popped.compare_sync_turn(slot, turn),
        }
    }

    /// Whether another turn may be in order after a step that brought nothing to light.
    pub open spec fn sync_continues(self, slot: SlotId) -> bool {
        self.origin(slot).popped() is Ok && (self.origin(slot).popped()->Ok_0) is Some
    }

    /// Every turn that is now in order compared in turn, up to the first disagreement.
    pub open spec fn drain_sync(self, slot: SlotId) -> (MakerView, Option<DivergenceView>)
        decreases u64::MAX - self.origin(slot).next,
    {
        let (next, verdict) = self.sync_step(slot);
        if self.sync_continues(slot) && verdict is None {
            next.drain_sync(slot)
        } else {
            (next, verdict)
        }
    }

    /// Whether a turn's checksums are looked at: not an observer's, nor those of an origin
    /// that can no longer be ordered.
    pub open spec fn follows_sync(self, slot: SlotId) -> bool {
        !self.observers.contains(slot) && self.origin(slot).failure is None
    }

    /// One turn taken in, and what it brings to light.
    pub open spec fn observe_sync(self, slot: SlotId, seq: u64, turn: SyncTurn) -> (MakerView, Option<DivergenceView>) {
        let pushed = self.with_origin(slot, self.origin(slot).push(seq, turn));
        if !self.follows_sync(slot) {
            (self, None)
        } else {
            match self.origin(slot).pushed(seq, turn) {
                Ok(None) => pushed.drain_sync(slot),
                Err(_) => (pushed.without_member(slot), None),
                Ok(Some(read)) => {
                    let (next, verdict) = pushed.compare_sync_turn(slot, read);
                    if verdict is Some {
                        (next, verdict)
                    } else {
                        next.drain_sync(slot)
                    }
                },
            }
        }
    }

    /// The slots whose checksums are to be compared.
    pub open spec fn sync_players(self) -> Set<SlotId> {
        self.expected.union(self.sync_turns.dom()).difference(self.observers).difference(self.departures.dom())
    }

    pub open spec fn sync_unavailable(self, slot: SlotId) -> bool {
        self.origin(slot).failure is Some
    }

    pub open spec fn sync_ordered(self, slot: SlotId) -> bool {
        self.origin(slot).failure is None && self.origin(slot).ordinal is Some && self.origin(slot).pending.dom()
            =~= Set::empty()
    }

    pub open spec fn sync_comparable(self, slot: SlotId) -> bool {
        self.sync_ordered(slot) && self.is_authority() && !self.sync.dormant && self.sync.members.contains_key(slot)
    }

    pub open spec fn sync_coverage(self) -> SyncCoverage {
        let players = self.sync_players();
        SyncCoverage {
            expected_players: players.len() as u32,
            authority: self.is_authority(),
            dormant: self.sync.dormant,
            unavailable_slots: players.filter(|s: SlotId| self.sync_unavailable(s)).len() as u32,
            ordered_slots: players.filter(|s: SlotId| self.sync_ordered(s)).len() as u32,
            comparable_slots: players.filter(|s: SlotId| self.sync_comparable(s)).len() as u32,
            waiting_slots: players.filter(
                |s: SlotId| !self.sync_unavailable(s) && !self.sync_ordered(s),
            ).len() as u32,
        }
    }
}

/// What a turn with these commands says about checksums.
pub open spec fn sync_turn(
    game_frame: Option<u32>,
    commands: Seq<u8>,
    lengths: Seq<Option<usize>>,
    sync_generation: Option<u64>,
) -> SyncTurn {
    SyncTurn {
        frame: game_frame,
        ordinal: None,
        command: first_report(commands, lengths, 0),
        generation: sync_generation,
        skipped: None,
    }
}

/// There are no more slots than slot ids.
pub proof fn lemma_slot_count(s: Seq<SlotId>, n: int)
    requires
        crate::ordmap::ascending(s),
        0 <= n < s.len(),
    ensures
        crate::ordmap::OrdKey::rank(s[n]) >= n,
        n < 256,
    decreases n,
{
    if n > 0 {
        lemma_slot_count(s, n - 1);
        assert(crate::ordmap::OrdKey::rank(s[n - 1]) < crate::ordmap::OrdKey::rank(s[n]));
    }
}

/// How many slots the set holds.
fn count_slots(slots: &OrdSet<SlotId>) -> (r: u32)
    ensures
        r == slots@.len(),
{
    let n: usize = slots.len();
    proof {
        let keys = crate::ordmap::listing(slots@);
        if keys.len() > 0 {
            lemma_slot_count(keys, keys.len() - 1);
        }
    }
    n as u32
}

impl DecisionMaker {
    /// Takes one turn's checksum report in, from an origin that does not tag its reports.
    pub fn observe_sync(
        &mut self,
        slot: SlotId,
        seq: u64,
        game_frame: Option<u32>,
        commands: &[u8],
        lengths: &[Option<usize>],
    ) -> (r: Option<SyncDivergence>)
        ensures
            crate::sync::tracker::divergence_view(r) == old(self)@.observe_sync(
                slot,
                seq,
                sync_turn(game_frame, commands@, lengths@, None),
            ).1,
            final(self)@ == old(self)@.observe_sync(slot, seq, sync_turn(game_frame, commands@, lengths@, None)).0,
    {
        self.observe_sync_with_generation(slot, seq, game_frame, commands, lengths, None)
    }

    /// Takes one turn's checksum report in, and compares everything it puts in order.
    pub fn observe_sync_with_generation(
        &mut self,
        slot: SlotId,
        seq: u64,
        game_frame: Option<u32>,
        commands: &[u8],
        lengths: &[Option<usize>],
        sync_generation: Option<u64>,
    ) -> (r: Option<SyncDivergence>)
        ensures
            crate::sync::tracker::divergence_view(r) == old(self)@.observe_sync(
                slot,
                seq,
                sync_turn(game_frame, commands@, lengths@, sync_generation),
            ).1,
            final(self)@ == old(self)@.observe_sync(
                slot,
                seq,
                sync_turn(game_frame, commands@, lengths@, sync_generation),
            ).0,
    {
        if self.observers.contains(slot) {
            return None;
        }
        if self.sync_turns.unavailable(slot) {
            return None;
        }
        let turn = SyncTurn {
            frame: game_frame,
            ordinal: None,
            command: parse_sync(commands, lengths),
            generation: sync_generation,
            skipped: None,
        };
        match self.sync_turns.push(slot, seq, turn) {
            Ok(None) => {},
            Ok(Some(read)) => {
                let verdict = self.compare_sync_turn(slot, read);
                if verdict.is_some() {
                    return verdict;
                }
            },
            Err(_) => {
                self.sync.remove_member(slot);
                return None;
            },
        }
        self.drain_sync(slot)
    }

    /// Compares every turn of `slot` that is now in order, up to the first disagreement.
    fn drain_sync(&mut self, slot: SlotId) -> (r: Option<SyncDivergence>)
        requires
            old(self)@.sync_turns.contains_key(slot),
        ensures
            crate::sync::tracker::divergence_view(r) == old(self)@.drain_sync(slot).1,
            final(self)@ == old(self)@.drain_sync(slot).0,
    {
        loop
            invariant
                self@.sync_turns.contains_key(slot),
                self@.drain_sync(slot) == old(self)@.drain_sync(slot),
            decreases u64::MAX - self@.origin(slot).next,
        {
            let (more, verdict) = self.step_sync(slot);
            if !more || verdict.is_some() {
                return verdict;
            }
        }
    }

    /// Takes `slot`'s next turn from those that arrived early and compares it.
    #[verifier::rlimit(50)]
    #[verifier::spinoff_prover]
    fn step_sync(&mut self, slot: SlotId) -> (r: (bool, Option<SyncDivergence>))
        requires
            old(self)@.sync_turns.contains_key(slot),
        ensures
            r.0 == old(self)@.sync_continues(slot),
            crate::sync::tracker::divergence_view(r.1) == old(self)@.sync_step(slot).1,
            final(self)@ == old(self)@.sync_step(slot).0,
            r.0 ==> final(self)@.origin(slot).next == old(self)@.origin(slot).next + 1,
            final(self)@.sync_turns.contains_key(slot),
    {
        match self.sync_turns.pop_ready(slot) {
            Ok(None) => {
                assert(self@.sync_turns =~= old(self)@.sync_turns);
                (false, None)
            },
            Ok(Some(turn)) => {
                let verdict = self.compare_sync_turn(slot, turn);
                (true, verdict)
            },
            Err(_) => {
                self.sync.remove_member(slot);
                (false, None)
            },
        }
    }

    /// Compares one turn in order.
    fn compare_sync_turn(&mut self, slot: SlotId, turn: SyncTurn) -> (r: Option<SyncDivergence>)
        ensures
            crate::sync::tracker::divergence_view(r) == old(self)@.compare_sync_turn(slot, turn).1,
            final(self)@ == old(self)@.compare_sync_turn(slot, turn).0,
    {
        if !self.is_authority() || self.departures.contains_key(slot) {
            return None;
        }
        if self.bounds.max >= SYNC_ABSURD_BUFFER_MAX {
            self.sync.disable_for_absurd_bounds();
        }
        if self.sync.dormant {
            return None;
        }
        match (turn.command, turn.ordinal) {
            (Some(command), Some(ordinal)) => self.sync.record(
                slot,
                ordinal,
                SyncReport { kind: command.kind, value: command.value, game_frame: turn.frame },
                turn.skipped,
                sync_eval_margin(self.bounds.max),
            ),
            _ => None,
        }
    }

    /// The slots whose checksums are to be compared.
    fn sync_players(&self) -> (r: OrdSet<SlotId>)
        ensures
            r@ == self@.sync_players(),
    {
        let mut out: OrdSet<SlotId> = OrdSet::new();
        self.add_sync_players(&mut out, &self.expected_slots.keys());
        self.add_sync_players(&mut out, &self.sync_turns.slots());
        assert(out@ =~= self@.sync_players());
        out
    }

    fn add_sync_players(&self, out: &mut OrdSet<SlotId>, slots: &Vec<SlotId>)
        ensures
            forall|s: SlotId| #[trigger]
                final(out)@.contains(s) <==> old(out)@.contains(s) || (slots@.contains(s) && !self@.observers.contains(s)
                    && !self@.departures.contains_key(s)),
    {
        let mut i: usize = 0;
        while i < slots.len()
            invariant
                i <= slots@.len(),
                forall|s: SlotId| #[trigger]
                    out@.contains(s) <==> old(out)@.contains(s) || (slots@.take(i as int).contains(s)
                        && !self@.observers.contains(s) && !self@.departures.contains_key(s)),
            decreases slots@.len() - i,
        {
            let slot = slots[i];
            if !self.observers.contains(slot) && !self.departures.contains_key(slot) {
                out.insert(slot);
            }
            proof {
                crate::sync::tracker::lemma_take_contains(slots@, i as int);
            }
            i += 1;
        }
        assert(slots@.take(slots@.len() as int) =~= slots@);
    }

    /// How far the desync comparator covers the session's players.
    pub fn sync_coverage(&self) -> (r: SyncCoverage)
        ensures
            r == self@.sync_coverage(),
    {
        let players = self.sync_players();
        let authority = self.is_authority();
        let dormant = self.sync.dormant;
        let mut unavailable: OrdSet<SlotId> = OrdSet::new();
        let mut ordered: OrdSet<SlotId> = OrdSet::new();
        let mut comparable: OrdSet<SlotId> = OrdSet::new();
        let mut waiting: OrdSet<SlotId> = OrdSet::new();
        let keys = players.keys();
        let mut i: usize = 0;
        while i < keys.len()
            invariant
                i <= keys@.len(),
                crate::ordmap::lists(keys@, players@),
                authority == self@.is_authority(),
                dormant == self@.sync.dormant,
                forall|s: SlotId| #[trigger]
                    unavailable@.contains(s) <==> keys@.take(i as int).contains(s) && self@.sync_unavailable(s),
                forall|s: SlotId| #[trigger]
                    ordered@.contains(s) <==> keys@.take(i as int).contains(s) && self@.sync_ordered(s),
                forall|s: SlotId| #[trigger]
                    comparable@.contains(s) <==> keys@.take(i as int).contains(s) && self@.sync_comparable(s),
                forall|s: SlotId| #[trigger]
                    waiting@.contains(s) <==> keys@.take(i as int).contains(s) && !self@.sync_unavailable(s)
                        && !self@.sync_ordered(s),
            decreases keys@.len() - i,
        {
            let slot = keys[i];
            if self.sync_turns.unavailable(slot) {
                unavailable.insert(slot);
            } else if self.sync_turns.ordered(slot) {
                ordered.insert(slot);
                if authority && !dormant && self.sync.members.contains_key(slot) {
                    comparable.insert(slot);
                }
            } else {
                waiting.insert(slot);
            }
            proof {
                crate::sync::tracker::lemma_take_contains(keys@, i as int);
            }
            i += 1;
        }
        proof {
            assert(keys@.take(keys@.len() as int) =~= keys@);
            let all = self@.sync_players();
            assert(unavailable@ =~= all.filter(|s: SlotId| self@.sync_unavailable(s)));
            assert(ordered@ =~= all.filter(|s: SlotId| self@.sync_ordered(s)));
            assert(comparable@ =~= all.filter(|s: SlotId| self@.sync_comparable(s)));
            assert(waiting@ =~= all.filter(|s: SlotId| !self@.sync_unavailable(s) && !self@.sync_ordered(s)));
        }
        SyncCoverage {
            expected_players: count_slots(&players),
            authority,
            dormant,
            unavailable_slots: count_slots(&unavailable),
            ordered_slots: count_slots(&ordered),
            comparable_slots: count_slots(&comparable),
            waiting_slots: count_slots(&waiting),
        }
    }
}

} // verus!
