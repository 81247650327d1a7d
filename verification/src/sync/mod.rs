//! The desync comparator: ordering of the players' checksum reports, comparison of
//! what they report for the same game step, and rate limiting.
use vstd::prelude::*;

pub mod rate_limit;
pub mod tracker;
pub mod turns;

verus! {

/// The command byte of a game's checksum report.
pub const SYNC_COMMAND: u8 = 0x37;

/// The length of a checksum report, command byte included.
pub const SYNC_COMMAND_LEN: usize = 7;

/// A report over unit state.
pub const SYNC_KIND_UNITS: u8 = 1;

/// A report over header state.
pub const SYNC_KIND_HEADER: u8 = 2;

/// How many generations the game's own checksum ring tells apart.
pub const SYNC_RING_MODULUS: u64 = 16;

/// Floor of the evaluation margin.
pub const SYNC_EVAL_MARGIN_MIN: u64 = 8;

/// Cap on checksum generations awaiting evaluation.
pub const SYNC_WINDOW: usize = 64;

/// Buffer bounds at or past this leave no room to compare checksums.
pub const SYNC_ABSURD_BUFFER_MAX: u32 = 32;

/// The latency buffer depth past which the game's own checksum validation would drop
/// its players.
pub const GAME_SYNC_SAFE_BUFFER_MAX: u32 = 10;

/// A 16-bit checksum, as its two bytes.
pub type SyncValue = [u8; 2];

/// The checksum as a number.
pub open spec fn word(value: SyncValue) -> int {
    value@[0] * 256 + value@[1]
}

/// The checksum as a number.
pub fn to_word(value: SyncValue) -> (r: u32)
    ensures
        r == word(value),
{
    value[0] as u32 * 256 + value[1] as u32
}

pub open spec fn eval_margin(bounds_max: u32) -> u64 {
    if bounds_max + 2 >= SYNC_EVAL_MARGIN_MIN { (bounds_max + 2) as u64 } else { SYNC_EVAL_MARGIN_MIN }
}

/// How far past a generation the newest report must be before that generation is
/// compared: beyond any depth the session's buffer can reach.
pub fn sync_eval_margin(bounds_max: u32) -> (r: u64)
    ensures
        r == eval_margin(bounds_max),
        r >= SYNC_EVAL_MARGIN_MIN,
{
    let margin: u64 = bounds_max as u64 + 2;
    if margin >= SYNC_EVAL_MARGIN_MIN { margin } else { SYNC_EVAL_MARGIN_MIN }
}

/// The kind of state a generation's reports cover.
pub open spec fn kind_for(ordinal: u64) -> u8 {
    if ordinal % 2 == 0 { SYNC_KIND_UNITS } else { SYNC_KIND_HEADER }
}

/// The kind of state a generation's reports cover: units on even ones, the header on
/// odd ones.
pub fn expected_kind_for_ordinal(ordinal: u64) -> (r: u8)
    ensures
        r == kind_for(ordinal),
{
    if ordinal % 2 == 0 { SYNC_KIND_UNITS } else { SYNC_KIND_HEADER }
}

} // verus!
