//! The settings check of the memory profiler.

use vstd::prelude::*;

verus! {

/// The largest sampling interval, as a power of two of bytes, that the
/// allocator accepts.
pub const MAX_SAMPLE_INTERVAL: u8 = 64;

/// Why the memory profiler cannot be set up with the given settings.
#[derive(Clone, Copy, Debug, PartialEq, Eq, Structural)]
pub enum ProfilerSettingsError {
    /// The sampling interval is above `MAX_SAMPLE_INTERVAL`.
    SampleIntervalOutOfRange,
}

impl ProfilerSettingsError {
    /// The error's message.
    pub fn message(self) -> (r: &'static str)
        ensures
            r@ == "`sample_interval` value should be in the range [0, 64]"@,
    {
        "`sample_interval` value should be in the range [0, 64]"
    }
}

/// Checks the sampling interval of the memory profiler's settings: an error
/// exactly when it is above `MAX_SAMPLE_INTERVAL`.
pub fn check_sample_interval(sample_interval: u8) -> (r: Result<(), ProfilerSettingsError>)
    ensures
        r is Err <==> sample_interval > MAX_SAMPLE_INTERVAL,
        r matches Err(e) ==> e == ProfilerSettingsError::SampleIntervalOutOfRange,
{
    if sample_interval > MAX_SAMPLE_INTERVAL {
        Err(ProfilerSettingsError::SampleIntervalOutOfRange)
    } else {
        Ok(())
    }
}

} // verus!
