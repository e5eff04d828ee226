//! Frame geometry of the short-time spectrogram.
//!
//! The spectrogram itself is computed by the caller (it is floating-point
//! work); this module pins down the integer geometry that the rest of the
//! pipeline depends on: how many full analysis windows fit into a sample
//! stream, given a window size and a hop size.

use vstd::prelude::*;

verus! {

/// Design-default sample rate in Hz.
pub const DEFAULT_SAMPLE_RATE: u32 = 22050;

/// Design-default FFT window size in samples.
pub const DEFAULT_WINDOW_SIZE: usize = 2048;

/// Design-default hop size in samples between consecutive frame starts.
pub const DEFAULT_HOP_SIZE: usize = 1024;

/// Number of frames of a spectrogram over `n` samples with window `w`
/// and hop `h`: frame `i` covers samples `[i*h, i*h + w)`, and only full
/// windows are analysed.
pub open spec fn num_frames_spec(n: int, w: int, h: int) -> int {
    if n < w {
        0
    } else {
        (n - w) / h + 1
    }
}

/// How many full analysis windows fit into `num_samples` samples.
pub fn num_frames(num_samples: usize, window_size: usize, hop_size: usize) -> (r: usize)
    requires
        window_size >= 1,
        hop_size >= 1,
    ensures
        r == num_frames_spec(num_samples as int, window_size as int, hop_size as int),
{
    if num_samples < window_size {
        0
    } else {
        let q = (num_samples - window_size) / hop_size;
        assert(q <= num_samples - window_size) by (nonlinear_arith)
            requires
                q == (num_samples as int - window_size as int) / hop_size as int,
                hop_size >= 1,
                num_samples >= window_size,
        ;
        q + 1
    }
}

} // verus!
