//! The decision-making core of a lockstep game relay.
//!
//! A relay serves players whose games advance in lockstep. It decides how deep the latency
//! buffer is, which relay decides it, when a departed player leaves the game and from which
//! frame on, whether the players' games still agree, and when a session starts.
//!
//! [`DecisionMaker`] is one session's rules; [`DecisionMakers`] holds a relay's sessions,
//! and [`ops`] is what can be done to them. Nothing here reads a clock, blocks or sends:
//! readings are parameters, and what is to be sent or recorded is handed out.
//!
//! Each type has a view that says what it knows, and each contract is stated over views;
//! [`laws`] relates them.
use vstd::prelude::*;

pub mod delivery;
pub mod ids;
pub mod law;
pub mod laws;
pub mod maker;
pub mod notice;
pub mod ops;
pub mod ordmap;
pub mod phase;
pub mod registry;
pub mod session_map;
pub mod slot;
pub mod sync;
pub mod time;
pub mod wire;

pub use law::ControlLaw;
pub use maker::departure::DepartureStamps;
pub use maker::departure::RecordedDeparture;
pub use maker::leave::FinalizeOutcome;
pub use maker::session_start::RetainedLoadState;
pub use maker::silence::SilentSlot;
pub use maker::DecisionMaker;
pub use notice::RelayNotice;
pub use ops::authority::MakerSync;
pub use registry::new_decision_makers;
pub use registry::new_decision_makers_with_region_delay;
pub use registry::DecisionMakers;
pub use sync::tracker::SyncDivergence;

verus! {

} // verus!
