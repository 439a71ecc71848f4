//! Default values used when neither the command line nor the configuration
//! file provides a setting.
use vstd::prelude::*;

verus! {

/// Minimum number of historical measurements an audit needs.
pub const DEFAULT_MIN_MEASUREMENTS: u16 = 2;

/// Upper bound, in seconds, for the retry backoff of git operations.
pub const DEFAULT_BACKOFF_MAX_ELAPSED_SECONDS: u64 = 60;

/// Epoch of a measurement series when none is configured.
pub const DEFAULT_EPOCH: u32 = 0;

/// Number of commit hash characters shown in report metadata.
pub const DEFAULT_COMMIT_HASH_DISPLAY_LENGTH_METADATA: usize = 7;

/// Number of commit hash characters shown on the report's x-axis.
pub const DEFAULT_COMMIT_HASH_DISPLAY_LENGTH_AXIS: usize = 6;

/// The default minimum number of measurements for an audit.
pub fn default_min_measurements() -> (r: u16)
    ensures
        r == DEFAULT_MIN_MEASUREMENTS,
        r == 2,
{
    DEFAULT_MIN_MEASUREMENTS
}

/// The default maximum elapsed time of the retry backoff.
pub fn default_backoff_max_elapsed_seconds() -> (r: u64)
    ensures
        r == DEFAULT_BACKOFF_MAX_ELAPSED_SECONDS,
        r == 60,
{
    DEFAULT_BACKOFF_MAX_ELAPSED_SECONDS
}

/// The default epoch.
pub fn default_epoch() -> (r: u32)
    ensures
        r == DEFAULT_EPOCH,
        r == 0,
{
    DEFAULT_EPOCH
}

/// The default commit hash length in report metadata.
pub fn default_commit_hash_display_length_metadata() -> (r: usize)
    ensures
        r == DEFAULT_COMMIT_HASH_DISPLAY_LENGTH_METADATA,
        r == 7,
{
    DEFAULT_COMMIT_HASH_DISPLAY_LENGTH_METADATA
}

/// The default commit hash length on the report's x-axis.
pub fn default_commit_hash_display_length_axis() -> (r: usize)
    ensures
        r == DEFAULT_COMMIT_HASH_DISPLAY_LENGTH_AXIS,
        r == 6,
{
    DEFAULT_COMMIT_HASH_DISPLAY_LENGTH_AXIS
}

} // verus!
