use vstd::prelude::*;

pub mod trig;
pub mod kernel;
pub mod resampler;
pub mod queue;
pub mod stream;
pub mod laws;

verus! {

/// Largest sample amplitude the library accepts, in fixed-point units.
/// Keeping amplitudes within this bound lets every interpolation sum fit
/// in a 64-bit signed word.
pub const AMP_LIMIT: i64 = 1099511627776;

/// Largest sample rate, in Hz, that a resampling call accepts.
pub const MAX_RATE_HZ: u64 = 1048576;

} // verus!
