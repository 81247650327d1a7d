//! The silence watch over every session, and what a restarted coordinator is told.
use crate::ids::SessionKey;
use crate::ids::SessionKeyView;
use crate::ids::SlotId;
use crate::maker::session_start::LoadView;
use crate::maker::session_start::RetainedLoadState;
use crate::maker::silence::SilentSlot;
use crate::maker::MakerView;
use crate::registry::DecisionMakers;
use crate::registry::RegistryView;
use crate::slot::SlotView;
use crate::time::Duration;
use crate::time::Instant;
use vstd::prelude::*;

verus! {

/// What a retained load state of one session says.
pub open spec fn load_entry(entry: (SessionKey, RetainedLoadState)) -> (SessionKeyView, LoadView) {
    (entry.0@, entry.1@)
}

/// What a restarted coordinator is told: every session once, in no particular order.
pub fn retained_load_states(registry: &DecisionMakers) -> (r: Vec<(SessionKey, RetainedLoadState)>)
    ensures
        forall|i: int|
            0 <= i < r@.len() ==> registry@.makers.contains_key(load_entry(#[trigger] r@[i]).0) && load_entry(r@[i]).1
                == registry@.makers[load_entry(r@[i]).0].load_state(),
        forall|i: int, j: int|
            0 <= i < j < r@.len() ==> load_entry(#[trigger] r@[i]).0 != load_entry(#[trigger] r@[j]).0,
        forall|k: SessionKeyView| #[trigger]
            registry@.makers.contains_key(k) ==> exists|i: int| 0 <= i < r@.len() && load_entry(#[trigger] r@[i]).0 == k,
{
    let keys = registry.makers.sessions();
    let ghost views = crate::session_map::key_views(keys@);
    let mut out: Vec<(SessionKey, RetainedLoadState)> = Vec::new();
    let mut i: usize = 0;
    while i < keys.len()
        invariant
            i <= keys@.len(),
            views == crate::session_map::key_views(keys@),
            forall|k: SessionKeyView| #[trigger] registry@.makers.contains_key(k) <==> views.contains(k),
            out@.len() == i,
            forall|j: int|
                0 <= j < i ==> load_entry(#[trigger] out@[j]) == (views[j], registry@.makers[views[j]].load_state()),
        decreases keys@.len() - i,
    {
        assert(views[i as int] == keys@[i as int]@);
        assert(views.contains(views[i as int]));
        let state = match registry.makers.get(&keys[i]) {
            Some(maker) => maker.load_state(),
            None => RetainedLoadState::default(),
        };
        out.push((keys[i].duplicate(), state));
        i += 1;
    }
    assert forall|k: SessionKeyView| #[trigger] registry@.makers.contains_key(k) implies exists|i: int|
        0 <= i < out@.len() && load_entry(#[trigger] out@[i]).0 == k by {
        let j = choose|j: int| 0 <= j < views.len() && views[j] == k;
        assert(load_entry(out@[j]).0 == k);
    }
    assert forall|i: int| 0 <= i < out@.len() implies registry@.makers.contains_key(load_entry(#[trigger] out@[i]).0) by {
        assert(views.contains(views[i]));
    }
    out
}

/// What a restarted coordinator is told of one session.
pub fn retained_load_state(registry: &DecisionMakers, key: &SessionKey) -> (r: RetainedLoadState)
    ensures
        r@ == match registry@.maker(key@) {
            Some(m) => m.load_state(),
            None => LoadView::blank(),
        },
{
    match registry.makers.get(key) {
        Some(maker) => maker.load_state(),
        None => RetainedLoadState::default(),
    }
}

/// Notes that `slot`'s forwarded turns advanced.
pub fn note_forward_advance(registry: &mut DecisionMakers, key: &SessionKey, slot: SlotId, now: Instant)
    ensures
        final(registry)@ == match old(registry)@.maker(key@) {
            Some(m) => old(registry)@.with_maker(
                key@,
                if m.slots.contains_key(slot) {
                    m.with_slot(slot, SlotView { last_forward_advance_at: Some(now), ..m.slots[slot] })
                } else {
                    m
                },
            ),
            None => old(registry)@,
        },
{
    if let Some(maker) = registry.makers.get_mut(key) {
        maker.note_forward_advance(slot, now);
    }
}

/// A session after the silence watch looked at it: the slot it names is marked evicted.
pub open spec fn claimed(m: MakerView, found: Option<SilentSlot>) -> MakerView {
    match found {
        Some(s) => MakerView { silence_evicted: m.recovering().silence_evicted.insert(s.slot), ..m.recovering() },
        None => m.recovering(),
    }
}

/// The slot claimed in session `k`, if any was.
pub open spec fn claim_of(r: Seq<(SessionKey, SilentSlot)>, k: SessionKeyView, found: Option<SilentSlot>) -> bool {
    match found {
        Some(s) => exists|i: int| 0 <= i < r.len() && (#[trigger] r[i]).0@ == k && r[i].1 == s,
        None => forall|i: int| 0 <= i < r.len() ==> (#[trigger] r[i]).0@ != k,
    }
}

/// Whether session `k` was looked at: the claim, if any, is what the watch says, and the
/// session's state afterwards records it.
pub open spec fn was_watched(
    before: RegistryView,
    after: RegistryView,
    r: Seq<(SessionKey, SilentSlot)>,
    k: SessionKeyView,
    now: Instant,
    window: Duration,
) -> bool {
    exists|found: Option<SilentSlot>|
        {
            &&& before.makers[k].recovering().silence_answer(now, window, found)
            &&& #[trigger] claim_of(r, k, found)
            &&& after.makers[k] == claimed(before.makers[k], found)
        }
}

/// Claims, in every session, the slot that the silence watch names, at most once per slot:
/// a claimed slot is marked evicted and never named again.
pub fn claim_silent_slots(registry: &mut DecisionMakers, now: Instant, window: Duration) -> (r: Vec<(SessionKey, SilentSlot)>)
    ensures
        final(registry)@ == (RegistryView { makers: final(registry)@.makers, ..old(registry)@ }),
        final(registry)@.makers.dom() == old(registry)@.makers.dom(),
        forall|k: SessionKeyView| #[trigger]
            old(registry)@.makers.contains_key(k) ==> was_watched(
                old(registry)@,
                final(registry)@,
                r@,
                k,
                now,
                window,
            ),
        forall|i: int| 0 <= i < r@.len() ==> old(registry)@.makers.contains_key((#[trigger] r@[i]).0@),
        forall|i: int, j: int| 0 <= i < j < r@.len() ==> (#[trigger] r@[i]).0@ != (#[trigger] r@[j]).0@,
{
    let keys = registry.makers.sessions();
    let ghost views = crate::session_map::key_views(keys@);
    let ghost before = registry@;
    let mut out: Vec<(SessionKey, SilentSlot)> = Vec::new();
    let mut i: usize = 0;
    while i < keys.len()
        invariant
            i <= keys@.len(),
            views == crate::session_map::key_views(keys@),
            views.no_duplicates(),
            forall|k: SessionKeyView| #[trigger] before.makers.contains_key(k) <==> views.contains(k),
            registry@ == (RegistryView { makers: registry@.makers, ..before }),
            registry@.makers.dom() == before.makers.dom(),
            forall|j: int| 0 <= j < i ==> was_watched(before, registry@, out@, #[trigger] views[j], now, window),
            forall|j: int| i <= j < views.len() ==> registry@.makers[#[trigger] views[j]] == before.makers[views[j]],
            forall|n: int| 0 <= n < out@.len() ==> views.take(i as int).contains((#[trigger] out@[n]).0@),
            forall|m: int, n: int| 0 <= m < n < out@.len() ==> (#[trigger] out@[m]).0@ != (#[trigger] out@[n]).0@,
        decreases keys@.len() - i,
    {
        let ghost key = views[i as int];
        assert(key == keys@[i as int]@);
        assert(views.contains(key));
        let ghost prior = registry@;
        let ghost shorter = out@;
        let found = match registry.makers.get_mut(&keys[i]) {
            Some(maker) => {
                let found = maker.silent_slot(now, window);
                if let Some(silent) = found {
                    maker.mark_silence_evicted(silent.slot);
                }
                found
            },
            None => None,
        };
        assert forall|n: int| 0 <= n < shorter.len() implies (#[trigger] shorter[n]).0@ != key by {
            let t = views.take(i as int);
            let j = choose|j: int| 0 <= j < t.len() && t[j] == shorter[n].0@;
            assert(views[j] != views[i as int]);
        }
        if let Some(silent) = found {
            out.push((keys[i].duplicate(), silent));
            assert(out@[shorter.len() as int].0@ == key);
        }
        proof {
            crate::sync::tracker::lemma_take_contains(views, i as int);
            assert(registry@.makers.dom() =~= before.makers.dom());
            assert(claim_of(out@, key, found));
            assert forall|j: int| 0 <= j < i implies was_watched(before, registry@, out@, #[trigger] views[j], now, window) by {
                assert(was_watched(before, prior, shorter, views[j], now, window));
                assert(views[j] != key);
                let f = choose|f: Option<SilentSlot>|
                    {
                        &&& before.makers[views[j]].recovering().silence_answer(now, window, f)
                        &&& #[trigger] claim_of(shorter, views[j], f)
                        &&& prior.makers[views[j]] == claimed(before.makers[views[j]], f)
                    };
                assert(claim_of(out@, views[j], f)) by {
                    if f is Some {
                        let n = choose|n: int| 0 <= n < shorter.len() && (#[trigger] shorter[n]).0@ == views[j] && shorter[n].1 == f->0;
                        assert(out@[n].0@ == views[j] && out@[n].1 == f->0);
                    } else {
                        assert forall|n: int| 0 <= n < out@.len() implies (#[trigger] out@[n]).0@ != views[j] by {
                            if n < shorter.len() {
                                assert(shorter[n] == out@[n]);
                            }
                        }
                    }
                }
            }
            assert(was_watched(before, registry@, out@, views[i as int], now, window));
        }
        i += 1;
    }
    assert forall|k: SessionKeyView| #[trigger] before.makers.contains_key(k) implies was_watched(
        before,
        registry@,
        out@,
        k,
        now,
        window,
    ) by {
        let j = choose|j: int| 0 <= j < views.len() && views[j] == k;
        assert(was_watched(before, registry@, out@, views[j], now, window));
    }
    assert forall|n: int| 0 <= n < out@.len() implies before.makers.contains_key((#[trigger] out@[n]).0@) by {
        let t = views.take(keys@.len() as int);
        let j = choose|j: int| 0 <= j < t.len() && t[j] == out@[n].0@;
        assert(views[j] == out@[n].0@);
    }
    out
}

} // verus!
