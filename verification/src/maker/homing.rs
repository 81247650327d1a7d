//! Which slots play, which are homed here, and their region labels.
use crate::ids::RelayId;
use crate::ids::SlotId;
use crate::maker::DecisionMaker;
use crate::maker::MakerView;
use crate::ordmap::OrdSet;
use crate::time::Duration;
use crate::time::Instant;
use crate::wire::copy_labels;
use crate::wire::same_labels;
use crate::wire::LabelView;
use crate::wire::RegionLabel;
use vstd::prelude::*;

verus! {

impl MakerView {
    /// Whether this relay would admit `slot`: it homes it, or nothing says what it homes.
    pub open spec fn admits_slot(self, slot: SlotId) -> bool {
        self.homed =~= Set::empty() || self.homed.contains(slot)
    }

    /// The labels players may see: none before their release, and never an empty list.
    pub open spec fn released_labels(self) -> Option<Seq<LabelView>> {
        if self.region_labels_released && self.region_labels.len() > 0 { Some(self.region_labels) } else { None }
    }

    /// Whether the labels' release is due.
    pub open spec fn labels_due(self, delay: Duration, now: Instant) -> bool {
        !self.region_labels_released && self.started_at is Some && now.spec_since(self.started_at->0).nanos >= delay.nanos
    }
}

impl DecisionMaker {
    /// Replaces the observers, whose checksums count for nothing.
    pub fn set_observers(&mut self, observers: OrdSet<SlotId>)
        ensures
            final(self)@ == (MakerView {
                observers: observers@,
                sync: old(self)@.sync.remove_members(observers@),
                ..old(self)@
            }),
    {
        self.sync.remove_members(&observers);
        self.observers = observers;
    }

    /// Replaces the slots the session waits for before it starts.
    pub fn set_expected_slots(&mut self, expected: OrdSet<SlotId>)
        ensures
            final(self)@ == (MakerView { expected: expected@, ..old(self)@ }),
    {
        self.expected_slots = expected;
    }

    /// Replaces the slots homed on this relay.
    pub fn set_homed_slots(&mut self, homed: OrdSet<SlotId>)
        ensures
            final(self)@ == (MakerView { homed: homed@, ..old(self)@ }),
    {
        self.homed_slots = homed;
    }

    /// Sets the relay id that this relay's directives carry.
    pub fn set_own_relay_id(&mut self, id: RelayId)
        ensures
            final(self)@ == (MakerView { own_relay_id: Some(id), ..old(self)@ }),
    {
        self.own_relay_id = Some(id);
    }

    /// Whether this relay would admit `slot`.
    pub(crate) fn admits_slot(&self, slot: SlotId) -> (r: bool)
        ensures
            r == self@.admits_slot(slot),
    {
        self.homed_slots.is_empty() || self.homed_slots.contains(slot)
    }

    /// Whether `slot` is known to be homed here.
    pub(crate) fn strictly_homes(&self, slot: SlotId) -> (r: bool)
        ensures
            r == self@.homed.contains(slot),
    {
        self.homed_slots.contains(slot)
    }

    /// Replaces the region labels, handing the new ones out where labels are already
    /// released and these differ.
    #[must_use]
    pub fn set_region_labels(&mut self, labels: Vec<RegionLabel>) -> (r: Option<Vec<RegionLabel>>)
        ensures
            final(self)@ == (MakerView { region_labels: crate::wire::label_views(labels@), ..old(self)@ }),
            crate::wire::optional_label_views(r) == if crate::wire::label_views(labels@) == old(self)@.region_labels {
                None
            } else {
                final(self)@.released_labels()
            },
    {
        if same_labels(&self.region_labels, &labels) {
            return None;
        }
        self.region_labels = labels;
        self.released_region_labels()
    }

    /// Releases the region labels once the session has run for `delay`.
    #[must_use]
    pub fn maybe_release_region_labels(&mut self, delay: Duration, now: Instant) -> (r: Option<Vec<RegionLabel>>)
        ensures
            final(self)@ == (MakerView {
                region_labels_released: old(self)@.region_labels_released || old(self)@.labels_due(delay, now),
                ..old(self)@
            }),
            crate::wire::optional_label_views(r) == if old(self)@.labels_due(delay, now) {
                final(self)@.released_labels()
            } else {
                None
            },
    {
        if self.region_labels_released {
            return None;
        }
        match self.started_at {
            None => {
                return None;
            },
            Some(at) => {
                if now.since(at).nanos < delay.nanos {
                    return None;
                }
            },
        }
        self.region_labels_released = true;
        self.released_region_labels()
    }

    /// The labels players may see.
    pub fn released_region_labels(&self) -> (r: Option<Vec<RegionLabel>>)
        ensures
            crate::wire::optional_label_views(r) == self@.released_labels(),
    {
        if self.region_labels_released && self.region_labels.len() > 0 {
            Some(copy_labels(&self.region_labels))
        } else {
            None
        }
    }
}

} // verus!
