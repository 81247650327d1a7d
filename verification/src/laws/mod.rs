//! What holds of the library as a whole: laws over the views that the functions' contracts
//! speak of.
use vstd::prelude::*;

pub mod absence;
pub mod accounts;
pub mod buffer;
pub mod comparison;
pub mod control;
pub mod counters;
pub mod departure;
pub mod handover;
pub mod history;
pub mod leaving;
pub mod link;
pub mod phase;
pub mod registry;
pub mod reports;
pub mod session;
pub mod silence;
pub mod standing;
pub mod start;
pub mod sync;

verus! {

} // verus!
