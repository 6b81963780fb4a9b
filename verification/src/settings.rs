//! Tunable constants of the engine.
use vstd::prelude::*;

verus! {

/// Base length of one gravity tick, in milliseconds; the interval shrinks as
/// the speed level rises.
pub const OPTION_TICK_BASE_MS: usize = 4;

/// The piece supply is refilled up to this many queued pieces.
pub const OPTION_BUCKET_MAX_SIZE: usize = 20;

/// The piece supply is refilled once it falls below this many queued pieces.
pub const OPTION_BUCKET_MINIMUM_SIZE: usize = 3;

} // verus!
