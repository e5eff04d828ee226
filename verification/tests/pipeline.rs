//! Unit tests for the pure pipeline stages: frame geometry, peak
//! extraction, landmark hashing, and offset-histogram scoring.

use sivana::hashing::{
    create_hashes, Fingerprint, HASH_DELTA_TIME_BITS, HASH_FREQ_BITS, MAX_PAIRS_PER_ANCHOR,
    TARGET_ZONE_DF_ABS_MAX_BINS, TARGET_ZONE_DT_MAX_FRAMES, TARGET_ZONE_DT_MIN_FRAMES,
};
use sivana::matching::{best_match, MatchResult};
use sivana::peaks::{find_peaks, Peak};
use sivana::spectrogram::num_frames;

fn peak(t: usize, f: usize, m: u32) -> Peak {
    Peak {
        time_idx: t,
        freq_bin_idx: f,
        magnitude: m,
    }
}

fn expected_hash(f1: u64, f2: u64, dt: u64) -> u64 {
    let fmask = (1u64 << HASH_FREQ_BITS) - 1;
    let tmask = (1u64 << HASH_DELTA_TIME_BITS) - 1;
    ((f1 & fmask) << (HASH_FREQ_BITS + HASH_DELTA_TIME_BITS)) | ((f2 & fmask)
        << HASH_DELTA_TIME_BITS) | (dt & tmask)
}

#[test]
fn num_frames_default_geometry() {
    // One second at the design rate: 22050 samples, window 2048, hop 1024.
    assert_eq!(num_frames(22050, 2048, 1024), 20);
}

#[test]
fn num_frames_short_input_is_zero() {
    assert_eq!(num_frames(2047, 2048, 1024), 0);
    assert_eq!(num_frames(0, 2048, 1024), 0);
}

#[test]
fn num_frames_exact_window() {
    assert_eq!(num_frames(2048, 2048, 1024), 1);
    assert_eq!(num_frames(3071, 2048, 1024), 1);
    assert_eq!(num_frames(3072, 2048, 1024), 2);
}

#[test]
fn find_peaks_empty_spectrogram() {
    let s: Vec<Vec<u32>> = vec![];
    assert!(find_peaks(&s, 2, 5, 1).is_empty());
}

#[test]
fn find_peaks_empty_frames() {
    let s: Vec<Vec<u32>> = vec![vec![], vec![]];
    assert!(find_peaks(&s, 2, 5, 1).is_empty());
}

#[test]
fn find_peaks_single_maximum() {
    let s = vec![
        vec![1u32, 2, 1],
        vec![2u32, 9, 2],
        vec![1u32, 2, 1],
    ];
    let peaks = find_peaks(&s, 1, 1, 3);
    assert_eq!(peaks.len(), 1);
    assert_eq!(peaks[0].time_idx, 1);
    assert_eq!(peaks[0].freq_bin_idx, 1);
    assert_eq!(peaks[0].magnitude, 9);
}

#[test]
fn find_peaks_threshold_excludes_low_cells() {
    let s = vec![
        vec![1u32, 2, 1],
        vec![2u32, 9, 2],
        vec![1u32, 2, 1],
    ];
    // The maximum is 9; with a threshold of 10 nothing survives.
    assert!(find_peaks(&s, 1, 1, 10).is_empty());
}

#[test]
fn find_peaks_plateau_keeps_row_major_first() {
    // A 2x2 plateau of equal values: only the row-major-first cell wins.
    let s = vec![
        vec![7u32, 7, 0],
        vec![7u32, 7, 0],
        vec![0u32, 0, 0],
    ];
    let peaks = find_peaks(&s, 1, 1, 1);
    assert_eq!(peaks.len(), 1);
    assert_eq!(peaks[0].time_idx, 0);
    assert_eq!(peaks[0].freq_bin_idx, 0);
}

#[test]
fn find_peaks_distant_cells_both_survive() {
    // Two equal maxima farther apart than the neighborhood: both kept,
    // in row-major order.
    let s = vec![
        vec![9u32, 0, 0, 0, 0, 0, 9],
        vec![0u32, 0, 0, 0, 0, 0, 0],
    ];
    let peaks = find_peaks(&s, 1, 2, 1);
    assert_eq!(peaks.len(), 2);
    assert_eq!((peaks[0].time_idx, peaks[0].freq_bin_idx), (0, 0));
    assert_eq!((peaks[1].time_idx, peaks[1].freq_bin_idx), (0, 6));
}

#[test]
fn find_peaks_edge_cells_are_legal() {
    let s = vec![
        vec![9u32, 1],
        vec![1u32, 1],
    ];
    let peaks = find_peaks(&s, 2, 2, 1);
    assert_eq!(peaks.len(), 1);
    assert_eq!((peaks[0].time_idx, peaks[0].freq_bin_idx), (0, 0));
}

#[test]
fn create_hashes_exact_values() {
    let peaks = vec![peak(0, 10, 5), peak(1, 12, 5), peak(2, 300, 5)];
    let fps = create_hashes(&peaks, 1, 50, 200, 5);
    // Anchor (0,10): pairs with (1,12) at dt=1 and (2,300)? |df|=290>200, skipped.
    // Anchor (1,12): |df|=288>200, no pair. Anchor (2,300): nothing after.
    assert_eq!(fps.len(), 1);
    assert_eq!(fps[0].hash, expected_hash(10, 12, 1));
    assert_eq!(fps[0].anchor_time_idx, 0);
}

#[test]
fn create_hashes_needs_two_peaks() {
    assert!(create_hashes(&vec![], 1, 50, 200, 5).is_empty());
    assert!(create_hashes(&vec![peak(0, 1, 5)], 1, 50, 200, 5).is_empty());
}

#[test]
fn create_hashes_respects_dt_window() {
    let peaks = vec![peak(0, 10, 5), peak(0, 20, 5), peak(60, 10, 5)];
    // dt=0 to the same-frame peak is below dt_min=1; dt=60 exceeds dt_max=50.
    let fps = create_hashes(&peaks, 1, 50, 200, 5);
    // Only anchor (0,20) pairs... dt to (60,10) is 60 > 50; nothing survives
    // except pairs between the two frame-0 peaks are rejected too.
    assert!(fps.is_empty());
}

#[test]
fn create_hashes_skips_then_continues() {
    // A too-close target does not stop the anchor from pairing with a
    // later eligible target.
    let peaks = vec![peak(0, 10, 5), peak(0, 11, 5), peak(3, 10, 5)];
    let fps = create_hashes(&peaks, 1, 50, 200, 5);
    assert_eq!(fps.len(), 2);
    assert_eq!(fps[0].hash, expected_hash(10, 10, 3));
    assert_eq!(fps[0].anchor_time_idx, 0);
    assert_eq!(fps[1].hash, expected_hash(11, 10, 3));
    assert_eq!(fps[1].anchor_time_idx, 0);
}

#[test]
fn create_hashes_limits_pairs_per_anchor() {
    let mut peaks = vec![peak(0, 100, 5)];
    for t in 1..=10 {
        peaks.push(peak(t, 100 + t, 5));
    }
    let fps = create_hashes(&peaks, 1, 50, 200, 3);
    let anchor0: Vec<&Fingerprint> = fps.iter().filter(|fp| fp.anchor_time_idx == 0).collect();
    assert_eq!(anchor0.len(), 3);
    // The three pairs are with the first three eligible targets.
    assert_eq!(anchor0[0].hash, expected_hash(100, 101, 1));
    assert_eq!(anchor0[1].hash, expected_hash(100, 102, 2));
    assert_eq!(anchor0[2].hash, expected_hash(100, 103, 3));
}

#[test]
fn create_hashes_width_is_28_bits() {
    let mut peaks = Vec::new();
    for t in 0..40 {
        peaks.push(peak(t, (t * 37) % 1025, 5));
        peaks.push(peak(t, 1020, 5));
    }
    let fps = create_hashes(
        &peaks,
        TARGET_ZONE_DT_MIN_FRAMES,
        TARGET_ZONE_DT_MAX_FRAMES,
        TARGET_ZONE_DF_ABS_MAX_BINS,
        MAX_PAIRS_PER_ANCHOR,
    );
    assert!(!fps.is_empty());
    for fp in &fps {
        assert!(fp.hash < (1u64 << 28));
    }
}

#[test]
fn create_hashes_masks_out_of_range_fields() {
    // Frequency bins above 2^10 - 1 are masked to their low ten bits.
    let peaks = vec![peak(0, 1030, 5), peak(1, 1030, 5)];
    let fps = create_hashes(&peaks, 1, 50, 200, 5);
    assert_eq!(fps.len(), 1);
    assert_eq!(fps[0].hash, expected_hash(1030 % 1024, 1030 % 1024, 1));
}

#[test]
fn best_match_empty_is_none() {
    assert!(best_match(&vec![], 1).is_none());
}

#[test]
fn best_match_exact_score_and_offset() {
    let pairs = vec![(1u32, 4isize), (1, 4), (1, 4), (1, 7), (2, 4)];
    let m = best_match(&pairs, 3).expect("a match");
    assert_eq!(m.song_id, 1);
    assert_eq!(m.score, 3);
    assert_eq!(m.time_offset_in_song_frames, 4);
}

#[test]
fn best_match_below_threshold_is_none() {
    let pairs = vec![(1u32, 4isize), (1, 4), (2, 5)];
    assert!(best_match(&pairs, 3).is_none());
}

#[test]
fn best_match_at_threshold_is_some() {
    let pairs = vec![(1u32, 4isize), (1, 4), (2, 5)];
    let m = best_match(&pairs, 2).expect("a match");
    assert_eq!(m.score, 2);
    assert_eq!(m.song_id, 1);
}

#[test]
fn best_match_tie_prefers_lowest_song_id() {
    let pairs = vec![(7u32, 1isize), (7, 1), (3, 9), (3, 9)];
    let m = best_match(&pairs, 1).expect("a match");
    assert_eq!(m.song_id, 3);
    assert_eq!(m.score, 2);
    assert_eq!(m.time_offset_in_song_frames, 9);
}

#[test]
fn best_match_tie_same_song_prefers_lowest_offset() {
    let pairs = vec![(3u32, 9isize), (3, 9), (3, 2), (3, 2)];
    let m = best_match(&pairs, 1).expect("a match");
    assert_eq!(m.song_id, 3);
    assert_eq!(m.time_offset_in_song_frames, 2);
}

#[test]
fn match_result_is_plain_data() {
    let m = MatchResult {
        song_id: 5,
        score: 10,
        time_offset_in_song_frames: -3,
    };
    let m2 = m;
    assert_eq!(m2.song_id, 5);
    assert_eq!(m2.score, 10);
    assert_eq!(m2.time_offset_in_song_frames, -3);
}
