//! Relay identity and region labels, for any session of the registry.
use crate::ids::RelayId;
use crate::ids::SessionKey;
use crate::maker::MakerView;
use crate::registry::DecisionMakers;
use crate::time::Instant;
use crate::wire::RegionLabel;
use vstd::prelude::*;

verus! {

impl DecisionMakers {
    /// Sets the relay id that this relay's directives carry.
    pub fn set_own_relay_id(&mut self, key: &SessionKey, id: RelayId)
        ensures
            final(self)@ == match old(self)@.maker(key@) {
                Some(m) => old(self)@.with_maker(key@, MakerView { own_relay_id: Some(id), ..m }),
                None => old(self)@,
            },
    {
        if let Some(maker) = self.makers.get_mut(key) {
            maker.set_own_relay_id(id);
        }
    }

    /// Replaces the region labels, handing the new ones out where labels are already
    /// released and these differ.
    #[must_use]
    pub fn set_region_labels(&mut self, key: &SessionKey, labels: Vec<RegionLabel>) -> (r: Option<Vec<RegionLabel>>)
        ensures
            match old(self)@.maker(key@) {
                Some(m) => {
                    let next = MakerView { region_labels: crate::wire::label_views(labels@), ..m };
                    &&& final(self)@ == old(self)@.with_maker(key@, next)
                    &&& crate::wire::optional_label_views(r) == if next.region_labels == m.region_labels {
                        None
                    } else {
                        next.released_labels()
                    }
                },
                None => r is None && final(self)@ == old(self)@,
            },
    {
        match self.makers.get_mut(key) {
            Some(maker) => maker.set_region_labels(labels),
            None => None,
        }
    }

    /// Releases the region labels once the session has run long enough.
    #[must_use]
    pub fn maybe_release_region_labels(&mut self, key: &SessionKey, now: Instant) -> (r: Option<Vec<RegionLabel>>)
        ensures
            match old(self)@.maker(key@) {
                Some(m) => {
                    let due = m.labels_due(old(self)@.region_release_delay, now);
                    let next = MakerView { region_labels_released: m.region_labels_released || due, ..m };
                    &&& final(self)@ == old(self)@.with_maker(key@, next)
                    &&& crate::wire::optional_label_views(r) == if due { next.released_labels() } else { None }
                },
                None => r is None && final(self)@ == old(self)@,
            },
    {
        let delay = self.region_release_delay;
        match self.makers.get_mut(key) {
            Some(maker) => maker.maybe_release_region_labels(delay, now),
            None => None,
        }
    }

    /// The labels players may see.
    pub fn released_region_labels(&self, key: &SessionKey) -> (r: Option<Vec<RegionLabel>>)
        ensures
            crate::wire::optional_label_views(r) == match self@.maker(key@) {
                Some(m) => m.released_labels(),
                None => None,
            },
    {
        match self.makers.get(key) {
            Some(maker) => maker.released_region_labels(),
            None => None,
        }
    }
}

} // verus!
