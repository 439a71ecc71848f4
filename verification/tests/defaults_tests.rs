use git_perf::defaults::{
    default_backoff_max_elapsed_seconds, default_commit_hash_display_length_axis,
    default_commit_hash_display_length_metadata, default_epoch, default_min_measurements,
    DEFAULT_BACKOFF_MAX_ELAPSED_SECONDS, DEFAULT_COMMIT_HASH_DISPLAY_LENGTH_AXIS,
    DEFAULT_COMMIT_HASH_DISPLAY_LENGTH_METADATA, DEFAULT_EPOCH, DEFAULT_MIN_MEASUREMENTS,
};

#[test]
fn test_default_min_measurements() {
    assert_eq!(DEFAULT_MIN_MEASUREMENTS, 2);
    assert_eq!(default_min_measurements(), 2);
}

#[test]
fn test_default_backoff_max_elapsed_seconds() {
    assert_eq!(DEFAULT_BACKOFF_MAX_ELAPSED_SECONDS, 60);
    assert_eq!(default_backoff_max_elapsed_seconds(), 60);
}

#[test]
fn test_default_epoch() {
    assert_eq!(DEFAULT_EPOCH, 0);
    assert_eq!(default_epoch(), 0);
}

#[test]
fn test_default_commit_hash_display_length_metadata() {
    assert_eq!(DEFAULT_COMMIT_HASH_DISPLAY_LENGTH_METADATA, 7);
    assert_eq!(default_commit_hash_display_length_metadata(), 7);
}

#[test]
fn test_default_commit_hash_display_length_axis() {
    assert_eq!(DEFAULT_COMMIT_HASH_DISPLAY_LENGTH_AXIS, 6);
    assert_eq!(default_commit_hash_display_length_axis(), 6);
}
