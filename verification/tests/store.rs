//! End-to-end scenarios over synthesized audio and the persistent
//! fingerprint store.

use rustfft::num_complex::Complex;
use rustfft::FftPlanner;
use sivana::database::{
    enroll_song, get_song_info, init_db, list_recordings, lookup, open_db_connection,
    query_db_and_match, FingerprintIndex, IndexError,
};
use sivana::hashing::{create_hashes, Fingerprint};
use sivana::peaks::find_peaks;

const RATE: u32 = 22050;
const WINDOW: usize = 2048;
const HOP: usize = 1024;
const TIME_RADIUS: usize = 2;
const FREQ_RADIUS: usize = 5;
const DT_MIN: usize = 1;
const DT_MAX: usize = 50;
const DF_MAX: usize = 200;
const P_MAX: usize = 5;
const MIN_SCORE: usize = 100;
/// The design note fixes a threshold of 3 for unit tests: a one-second
/// synthetic tone yields only a few dozen fingerprints in total.
const UNIT_MIN_SCORE: usize = 3;

/// Magnitude threshold of 2.0 as an order-preserving key.
fn min_magnitude_key() -> u32 {
    2.0f32.to_bits()
}

fn tmp_db_path(tag: &str) -> String {
    let nanos = std::time::SystemTime::now()
        .duration_since(std::time::UNIX_EPOCH)
        .unwrap()
        .as_nanos();
    format!("/tmp/sivana_test_{}_{}.sqlite", tag, nanos)
}

/// Sum of sinusoids, each `(amplitude, frequency)` in Hz, sampled for
/// `n` samples at `RATE`.
fn synth(components: &[(f32, f32)], n: usize) -> Vec<f32> {
    (0..n)
        .map(|i| {
            let t = i as f32 / RATE as f32;
            components
                .iter()
                .map(|&(a, f)| a * (2.0 * std::f32::consts::PI * f * t).sin())
                .sum::<f32>()
        })
        .collect()
}

/// Deterministic white-ish noise from a linear congruential generator.
fn noise(n: usize, mut state: u64) -> Vec<f32> {
    (0..n)
        .map(|_| {
            state = state
                .wrapping_mul(6364136223846793005)
                .wrapping_add(1442695040888963407);
            ((state >> 33) as f32 / (1u64 << 31) as f32 - 0.5) * 0.9
        })
        .collect()
}

/// Hann-windowed magnitude spectrogram, each magnitude as an
/// order-preserving `u32` key.
fn spectrogram_keys(samples: &[f32]) -> Vec<Vec<u32>> {
    if samples.len() < WINDOW {
        return vec![];
    }
    let frames = (samples.len() - WINDOW) / HOP + 1;
    let mut planner = FftPlanner::<f32>::new();
    let fft = planner.plan_fft_forward(WINDOW);
    let hann: Vec<f32> = (0..WINDOW)
        .map(|i| {
            0.5 * (1.0
                - (2.0 * std::f32::consts::PI * i as f32 / (WINDOW as f32 - 1.0)).cos())
        })
        .collect();
    let bins = WINDOW / 2 + 1;
    let mut out = Vec::with_capacity(frames);
    for i in 0..frames {
        let mut buffer: Vec<Complex<f32>> = (0..WINDOW)
            .map(|j| Complex::new(samples[i * HOP + j] * hann[j], 0.0))
            .collect();
        fft.process(&mut buffer);
        out.push((0..bins).map(|k| buffer[k].norm().to_bits()).collect());
    }
    out
}

fn fingerprints_for(samples: &[f32]) -> Vec<Fingerprint> {
    let keys = spectrogram_keys(samples);
    let peaks = find_peaks(&keys, TIME_RADIUS, FREQ_RADIUS, min_magnitude_key());
    create_hashes(&peaks, DT_MIN, DT_MAX, DF_MAX, P_MAX)
}

fn enroll_samples(
    index: &mut FingerprintIndex,
    name: &str,
    path: Option<&str>,
    samples: &[f32],
) -> Result<u32, IndexError> {
    let keys = spectrogram_keys(samples);
    enroll_song(
        index,
        name,
        path,
        &keys,
        TIME_RADIUS,
        FREQ_RADIUS,
        min_magnitude_key(),
        DT_MIN,
        DT_MAX,
        DF_MAX,
        P_MAX,
    )
}

fn open_store(path: &str) -> FingerprintIndex {
    let index = open_db_connection(path).expect("open store");
    init_db(&index).expect("init schema");
    index
}

#[test]
fn s1_self_identification() {
    let mut index = open_store(":memory:");
    let samples = synth(&[(0.3, 440.0), (0.21, 880.0)], RATE as usize);
    let id = enroll_samples(&mut index, "tone-a", Some("/audio/tone-a.wav"), &samples)
        .expect("enroll");
    // Query with a snippet starting 0.19 s in, at a frame boundary
    // (4 hops): the snippet's frames reproduce the recording's frames
    // exactly, so the histogram peaks at offset 4.
    let query = fingerprints_for(&samples[4 * HOP..]);
    let m = query_db_and_match(&index, &query, UNIT_MIN_SCORE).expect("a match");
    assert_eq!(m.song_id, id);
    assert!(m.score >= UNIT_MIN_SCORE);
    assert!(
        m.time_offset_in_song_frames == 4 || m.time_offset_in_song_frames == 5,
        "offset was {}",
        m.time_offset_in_song_frames
    );
}

#[test]
fn s2_disambiguation() {
    let mut index = open_store(":memory:");
    let r0 = synth(&[(0.3, 440.0), (0.21, 880.0)], RATE as usize);
    let r1 = synth(&[(0.3, 660.0), (0.21, 1100.0)], RATE as usize);
    let id0 = enroll_samples(&mut index, "tone-a", Some("/audio/tone-a.wav"), &r0)
        .expect("enroll r0");
    let id1 = enroll_samples(&mut index, "tone-b", Some("/audio/tone-b.wav"), &r1)
        .expect("enroll r1");
    assert_ne!(id0, id1);
    let query = fingerprints_for(&r1[2 * HOP..]);
    let m = query_db_and_match(&index, &query, UNIT_MIN_SCORE).expect("a match");
    assert_eq!(m.song_id, id1);
}

#[test]
fn s3_rejection_of_noise() {
    let mut index = open_store(":memory:");
    let samples = synth(&[(0.3, 440.0), (0.21, 880.0)], RATE as usize);
    enroll_samples(&mut index, "tone-a", Some("/audio/tone-a.wav"), &samples).expect("enroll");
    let query = fingerprints_for(&noise(RATE as usize, 12345));
    assert!(query_db_and_match(&index, &query, MIN_SCORE).is_none());
}

#[test]
fn s4_reenrollment_keeps_row_counts() {
    let path = tmp_db_path("s4");
    let mut index = open_store(&path);
    let samples = synth(&[(0.3, 440.0), (0.21, 880.0)], RATE as usize);
    let id1 = enroll_samples(&mut index, "tone-a", Some("/audio/tone-a.wav"), &samples)
        .expect("first enroll");

    let raw = rusqlite::Connection::open(&path).expect("raw open");
    let count_all = |raw: &rusqlite::Connection| -> i64 {
        raw.query_row("SELECT COUNT(*) FROM fingerprints", (), |row| row.get(0))
            .expect("count")
    };
    let count_songs = |raw: &rusqlite::Connection| -> i64 {
        raw.query_row("SELECT COUNT(*) FROM songs", (), |row| row.get(0))
            .expect("count songs")
    };
    let n_rows = count_all(&raw);
    let n_songs = count_songs(&raw);
    assert!(n_rows > 0);

    let id2 = enroll_samples(&mut index, "tone-a", Some("/audio/tone-a.wav"), &samples)
        .expect("second enroll");
    assert_eq!(id1, id2);
    assert_eq!(count_all(&raw), n_rows);
    assert_eq!(count_songs(&raw), n_songs);
}

#[test]
fn s5_empty_snippet_no_match_no_mutation() {
    let path = tmp_db_path("s5");
    let mut index = open_store(&path);
    let samples = synth(&[(0.3, 440.0), (0.21, 880.0)], RATE as usize);
    enroll_samples(&mut index, "tone-a", Some("/audio/tone-a.wav"), &samples).expect("enroll");

    let raw = rusqlite::Connection::open(&path).expect("raw open");
    let before: i64 = raw
        .query_row("SELECT COUNT(*) FROM fingerprints", (), |row| row.get(0))
        .expect("count");

    // Fewer samples than one window: the pipeline yields no
    // fingerprints, the query yields no match, and nothing is written.
    let short = synth(&[(0.3, 440.0)], WINDOW - 1);
    let query = fingerprints_for(&short);
    assert!(query.is_empty());
    assert!(query_db_and_match(&index, &query, MIN_SCORE).is_none());

    let after: i64 = raw
        .query_row("SELECT COUNT(*) FROM fingerprints", (), |row| row.get(0))
        .expect("count");
    assert_eq!(before, after);
}

#[test]
fn s6_hash_reproducibility() {
    let samples = synth(&[(0.3, 440.0), (0.21, 880.0)], RATE as usize);
    let first = fingerprints_for(&samples);
    let second = fingerprints_for(&samples);
    assert!(!first.is_empty());
    assert_eq!(first.len(), second.len());
    for (a, b) in first.iter().zip(second.iter()) {
        assert_eq!(a.hash, b.hash);
        assert_eq!(a.anchor_time_idx, b.anchor_time_idx);
    }
}

#[test]
fn enroll_reports_empty_spectrogram() {
    let mut index = open_store(":memory:");
    let keys: Vec<Vec<u32>> = vec![];
    let r = enroll_song(
        &mut index,
        "empty",
        None,
        &keys,
        TIME_RADIUS,
        FREQ_RADIUS,
        min_magnitude_key(),
        DT_MIN,
        DT_MAX,
        DF_MAX,
        P_MAX,
    );
    assert_eq!(r, Err(IndexError::EmptySpectrogram));
}

#[test]
fn enroll_reports_no_peaks() {
    let mut index = open_store(":memory:");
    // All-zero magnitudes stay below the threshold.
    let keys: Vec<Vec<u32>> = vec![vec![0; 16]; 4];
    let r = enroll_song(
        &mut index,
        "silent",
        None,
        &keys,
        TIME_RADIUS,
        FREQ_RADIUS,
        min_magnitude_key(),
        DT_MIN,
        DT_MAX,
        DF_MAX,
        P_MAX,
    );
    assert_eq!(r, Err(IndexError::NoPeaks));
}

#[test]
fn enroll_reports_no_fingerprints() {
    let mut index = open_store(":memory:");
    // A single isolated peak cannot form a pair.
    let mut keys: Vec<Vec<u32>> = vec![vec![0; 16]; 4];
    keys[1][4] = min_magnitude_key() + 10;
    let r = enroll_song(
        &mut index,
        "lonely",
        None,
        &keys,
        TIME_RADIUS,
        FREQ_RADIUS,
        min_magnitude_key(),
        DT_MIN,
        DT_MAX,
        DF_MAX,
        P_MAX,
    );
    assert_eq!(r, Err(IndexError::NoFingerprints));
}

#[test]
fn open_fails_in_missing_directory() {
    let r = open_db_connection("/no_such_directory_sivana/store.sqlite");
    assert_eq!(r.err(), Some(IndexError::Storage));
}

#[test]
fn enroll_rejects_out_of_range_recording_id() {
    let path = tmp_db_path("bigid");
    let mut index = open_store(&path);

    // Plant a recording whose id exceeds the u32 range; the upsert for
    // the same path then returns that id and enrollment must refuse it.
    let raw = rusqlite::Connection::open(&path).expect("raw open");
    raw.execute(
        "INSERT INTO songs (song_id, name, file_path) VALUES (5000000000, 'planted', '/audio/planted.wav')",
        (),
    )
    .expect("plant row");

    let samples = synth(&[(0.3, 440.0), (0.21, 880.0)], RATE as usize);
    let r = enroll_samples(&mut index, "planted", Some("/audio/planted.wav"), &samples);
    assert_eq!(r, Err(IndexError::InvalidRecordingId));
}

#[test]
fn get_song_info_roundtrip() {
    let mut index = open_store(":memory:");
    let samples = synth(&[(0.3, 440.0), (0.21, 880.0)], RATE as usize);
    let id = enroll_samples(&mut index, "My Tone", Some("/audio/mine.wav"), &samples)
        .expect("enroll");
    let song = get_song_info(&index, id).expect("query").expect("present");
    assert_eq!(song.id, id);
    assert_eq!(song.name, "My Tone");
    assert_eq!(song.file_path.as_deref(), Some("/audio/mine.wav"));

    assert!(get_song_info(&index, id + 1).expect("query").is_none());
}

#[test]
fn reenrollment_updates_name() {
    let mut index = open_store(":memory:");
    let samples = synth(&[(0.3, 440.0), (0.21, 880.0)], RATE as usize);
    let id1 = enroll_samples(&mut index, "old name", Some("/audio/t.wav"), &samples)
        .expect("enroll");
    let id2 = enroll_samples(&mut index, "new name", Some("/audio/t.wav"), &samples)
        .expect("re-enroll");
    assert_eq!(id1, id2);
    let song = get_song_info(&index, id1).expect("query").expect("present");
    assert_eq!(song.name, "new name");
}

#[test]
fn enroll_without_path_always_inserts() {
    let mut index = open_store(":memory:");
    let samples = synth(&[(0.3, 440.0), (0.21, 880.0)], RATE as usize);
    let id1 = enroll_samples(&mut index, "anon", None, &samples).expect("enroll");
    let id2 = enroll_samples(&mut index, "anon", None, &samples).expect("enroll again");
    assert_ne!(id1, id2);
}

#[test]
fn list_recordings_sorted_by_name() {
    let mut index = open_store(":memory:");
    let samples = synth(&[(0.3, 440.0), (0.21, 880.0)], RATE as usize);
    enroll_samples(&mut index, "zeta", Some("/audio/z.wav"), &samples).expect("enroll");
    enroll_samples(&mut index, "alpha", Some("/audio/a.wav"), &samples).expect("enroll");
    enroll_samples(&mut index, "miD", Some("/audio/m.wav"), &samples).expect("enroll");
    let songs = list_recordings(&index).expect("list");
    let names: Vec<&str> = songs.iter().map(|s| s.name.as_str()).collect();
    assert_eq!(names, vec!["alpha", "miD", "zeta"]);
}

#[test]
fn lookup_returns_inserted_rows() {
    let mut index = open_store(":memory:");
    let fps = vec![
        Fingerprint { hash: 0x123456, anchor_time_idx: 7 },
        Fingerprint { hash: 0x123456, anchor_time_idx: 9 },
        Fingerprint { hash: 0x0000ff, anchor_time_idx: 1 },
    ];
    let id = index.enroll("handmade", Some("/audio/h.wav"), &fps).expect("enroll");

    let mut rows = lookup(&index, 0x123456).expect("lookup");
    rows.sort();
    assert_eq!(rows, vec![(id as i64, 7), (id as i64, 9)]);

    let rows2 = lookup(&index, 0x0000ff).expect("lookup");
    assert_eq!(rows2, vec![(id as i64, 1)]);

    assert!(lookup(&index, 0xdead).expect("lookup").is_empty());
}

#[test]
fn reenrollment_replaces_fingerprints() {
    let mut index = open_store(":memory:");
    let fps1 = vec![
        Fingerprint { hash: 10, anchor_time_idx: 0 },
        Fingerprint { hash: 11, anchor_time_idx: 1 },
    ];
    let fps2 = vec![Fingerprint { hash: 12, anchor_time_idx: 2 }];
    let id1 = index.enroll("r", Some("/audio/r.wav"), &fps1).expect("enroll");
    let id2 = index.enroll("r", Some("/audio/r.wav"), &fps2).expect("re-enroll");
    assert_eq!(id1, id2);
    assert!(lookup(&index, 10).expect("lookup").is_empty());
    assert!(lookup(&index, 11).expect("lookup").is_empty());
    assert_eq!(lookup(&index, 12).expect("lookup"), vec![(id1 as i64, 2)]);
}

#[test]
fn query_empty_fingerprints_is_none() {
    let index = open_store(":memory:");
    assert!(query_db_and_match(&index, &vec![], MIN_SCORE).is_none());
}

#[test]
fn lookup_roundtrips_large_hashes() {
    // A hash with the top bit set is stored through the signed column
    // by two's-complement reinterpretation and must come back intact.
    let mut index = open_store(":memory:");
    let fps = vec![Fingerprint { hash: u64::MAX, anchor_time_idx: 3 }];
    let id = index.enroll("wide", Some("/audio/w.wav"), &fps).expect("enroll");
    assert_eq!(lookup(&index, u64::MAX).expect("lookup"), vec![(id as i64, 3)]);
    assert!(lookup(&index, u64::MAX - 1).expect("lookup").is_empty());
}

#[test]
fn offset_grows_linearly_with_snippet_start() {
    // A snippet starting s samples in aligns at about s / hop frames.
    let mut index = open_store(":memory:");
    let samples = synth(&[(0.3, 440.0), (0.21, 880.0)], 2 * RATE as usize);
    let id = enroll_samples(&mut index, "tone-a", Some("/audio/tone-a.wav"), &samples)
        .expect("enroll");
    for start_hops in [4usize, 8, 12] {
        let query = fingerprints_for(&samples[start_hops * HOP..]);
        let m = query_db_and_match(&index, &query, UNIT_MIN_SCORE).expect("a match");
        assert_eq!(m.song_id, id);
        let offset = m.time_offset_in_song_frames;
        assert!(
            offset == start_hops as isize || offset == start_hops as isize + 1,
            "offset {} for start {}",
            offset,
            start_hops
        );
    }
}
