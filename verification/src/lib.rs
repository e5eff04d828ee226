//! Landmark audio fingerprinting.
//!
//! The pipeline turns a magnitude spectrogram into spectral peaks
//! ([`peaks`]), turns peaks into combinatorial landmark hashes
//! ([`hashing`]), stores the resulting fingerprints in a persistent
//! index backed by SQLite ([`database`]), and identifies query snippets
//! by scoring histograms of time offsets ([`matching`]).
//!
//! Spectral magnitudes are carried as order-preserving `u32` keys: the
//! bit pattern of a non-negative IEEE 754 single-precision magnitude
//! compares the same way as the magnitude itself, so peak picking and
//! thresholding on keys decide exactly what they would decide on the
//! underlying magnitudes. Producing the spectrogram itself (windowing
//! and the FFT) is the caller's concern.

pub mod database;
pub mod hashing;
pub mod matching;
pub mod peaks;
pub mod spectrogram;
