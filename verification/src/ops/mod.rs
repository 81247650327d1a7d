//! The operations a relay runs on its registry of decision-makers.
pub mod authority;
pub mod buffer;
pub mod departure;
pub mod silence;
pub mod start;
pub mod sync_coverage;
