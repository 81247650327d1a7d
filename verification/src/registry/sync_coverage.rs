//! Coverage of the desync comparator, for any session of the registry.
use crate::ids::SessionKey;
use crate::registry::DecisionMakers;
use crate::wire::SyncCoverage;
use vstd::prelude::*;

verus! {

impl DecisionMakers {
    /// How far the desync comparator covers the session's players.
    pub fn sync_coverage(&self, key: &SessionKey) -> (r: Option<SyncCoverage>)
        ensures
            r == match self@.maker(key@) {
                Some(m) => Some(m.sync_coverage()),
                None => None,
            },
    {
        match self.makers.get(key) {
            Some(maker) => Some(maker.sync_coverage()),
            None => None,
        }
    }
}

} // verus!
