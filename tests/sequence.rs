use exr_denoise::image::ImageError;
use exr_denoise::sequence::{check_sequence_counts, denoised_path, sequence_pattern};

#[test]
fn mismatched_sequences_fail() {
    assert_eq!(check_sequence_counts(3, Some(2), Some(3)), Err(ImageError::SequenceMismatch));
    assert_eq!(check_sequence_counts(3, Some(2), None), Err(ImageError::SequenceMismatch));
    assert_eq!(check_sequence_counts(3, Some(3), Some(4)), Err(ImageError::SequenceMismatch));
}

#[test]
fn matching_sequences_pass() {
    assert_eq!(check_sequence_counts(3, Some(3), Some(3)), Ok(()));
    assert_eq!(check_sequence_counts(3, None, None), Ok(()));
    assert_eq!(check_sequence_counts(0, Some(0), None), Ok(()));
}

#[test]
fn hash_run_becomes_wildcards() {
    assert_eq!(sequence_pattern("tests/beauty.####.exr"), Some("tests/beauty.????.exr".to_string()));
    assert_eq!(sequence_pattern("#.exr"), Some("?.exr".to_string()));
}

#[test]
fn path_without_hash_is_no_sequence() {
    assert_eq!(sequence_pattern("tests/beauty.0001.exr"), None);
    assert_eq!(sequence_pattern(""), None);
}

#[test]
fn broken_hash_run_is_left_alone() {
    // the span from first to last `#` is not one run, so nothing matches it
    assert_eq!(sequence_pattern("a#b##c"), Some("a#b##c".to_string()));
}

#[test]
fn output_path_gets_suffix() {
    assert_eq!(denoised_path("shots/beauty.0001.exr"), "shots/beauty.0001_denoised.exr");
    assert_eq!(denoised_path("plain"), "plain");
}
