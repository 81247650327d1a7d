//! Coverage of the desync comparator.
use crate::ids::SessionKey;
use crate::registry::DecisionMakers;
use crate::wire::SyncCoverage;
use vstd::prelude::*;

verus! {

/// How far the desync comparator covers the session's players.
pub fn sync_coverage(registry: &DecisionMakers, key: &SessionKey) -> (r: Option<SyncCoverage>)
    ensures
        r == match registry@.maker(key@) {
            Some(m) => Some(m.sync_coverage()),
            None => None,
        },
{
    registry.sync_coverage(key)
}

} // verus!
