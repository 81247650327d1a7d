//! Identifiers shared by every part of the library.
use crate::ordmap::OrdKey;
use vstd::prelude::*;

verus! {

/// A player or observer seat in a session.
#[derive(Clone, Copy, Debug, PartialEq, Eq, PartialOrd, Ord, Hash, Structural)]
pub struct SlotId(pub u8);

/// A game's own frame counter.
#[derive(Clone, Copy, Debug, PartialEq, Eq, PartialOrd, Ord, Hash, Structural)]
pub struct GameFrameCount(pub u32);

/// A relay.
#[derive(Clone, Copy, Debug, PartialEq, Eq, PartialOrd, Ord, Hash, Structural)]
pub struct RelayId(pub u64);

/// A session within a tenant.
#[derive(Clone, Copy, Debug, PartialEq, Eq, PartialOrd, Ord, Hash, Structural)]
pub struct SessionId(pub u64);

/// A tenant's name.
#[derive(Clone, Debug, PartialEq, Eq, PartialOrd, Ord, Hash)]
pub struct TenantId(pub String);

/// A session, named within its tenant.
#[derive(Clone, Debug, PartialEq, Eq, PartialOrd, Ord, Hash)]
pub struct SessionKey {
    pub tenant: TenantId,
    pub session: SessionId,
}

/// What a [`SessionKey`] names.
#[verifier::ext_equal]
pub struct SessionKeyView {
    pub tenant: Seq<char>,
    pub session: SessionId,
}

impl View for SlotId {
    type V = SlotId;

    open spec fn view(&self) -> SlotId {
        *self
    }
}

impl View for GameFrameCount {
    type V = GameFrameCount;

    open spec fn view(&self) -> GameFrameCount {
        *self
    }
}

impl View for SessionKey {
    type V = SessionKeyView;

    open spec fn view(&self) -> SessionKeyView {
        SessionKeyView { tenant: self.tenant.0@, session: self.session }
    }
}

impl OrdKey for SlotId {
    open spec fn rank(self) -> int {
        self.0 as int
    }

    proof fn rank_is_injective(a: Self, b: Self) {
    }

    fn to_rank(self) -> (r: u64) {
        self.0 as u64
    }
}

impl TenantId {
    /// A copy of the name.
    pub fn duplicate(&self) -> (r: TenantId)
        ensures
            r.0@ == self.0@,
    {
        TenantId(self.0.clone())
    }
}

impl SessionKey {
    /// A copy of the key.
    pub fn duplicate(&self) -> (r: SessionKey)
        ensures
            r@ == self@,
    {
        SessionKey { tenant: self.tenant.duplicate(), session: self.session }
    }

    /// Whether both keys name the same session.
    pub fn same_as(&self, other: &SessionKey) -> (r: bool)
        ensures
            r == (self@ == other@),
    {
        let r = self.session == other.session && self.tenant.0 == other.tenant.0;
        assert(r == (self@ =~= other@));
        r
    }
}

/// The greater of two optional frames, where a frame is greater than none.
pub open spec fn later_frame(a: Option<GameFrameCount>, b: Option<GameFrameCount>) -> Option<GameFrameCount> {
    match (a, b) {
        (Some(x), Some(y)) => Some(if x.0 >= y.0 { x } else { y }),
        (Some(x), None) => Some(x),
        (None, y) => y,
    }
}

/// The greater of two optional frames, where a frame is greater than none.
pub fn max_frame(a: Option<GameFrameCount>, b: Option<GameFrameCount>) -> (r: Option<GameFrameCount>)
    ensures
        r == later_frame(a, b),
{
    match (a, b) {
        (Some(x), Some(y)) => Some(if x.0 >= y.0 { x } else { y }),
        (Some(x), None) => Some(x),
        (None, y) => y,
    }
}

} // verus!
