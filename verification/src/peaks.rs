//! Local-maximum peak extraction over time-frequency neighborhoods.
//!
//! A cell of the spectrogram is a peak when its magnitude reaches the
//! configured threshold and strictly dominates every other cell of its
//! clipped time-frequency neighborhood; on an equal-magnitude plateau
//! only the row-major-first cell survives. Peaks are returned in
//! ascending row-major order of `(time_idx, freq_bin_idx)`.

use vstd::prelude::*;

verus! {

/// Design-default neighborhood half-width along the time axis, in frames.
pub const DEFAULT_TIME_RADIUS: usize = 2;

/// Design-default neighborhood half-width along the frequency axis, in bins.
pub const DEFAULT_FREQ_RADIUS: usize = 5;

/// A spectral peak. The magnitude is carried as an order-preserving
/// `u32` key (the bit pattern of the non-negative single-precision
/// magnitude), so comparisons on keys agree with comparisons on the
/// underlying magnitudes.
#[derive(Debug, Clone, Copy, PartialEq, Eq, Structural)]
pub struct Peak {
    /// Frame index of the peak.
    pub time_idx: usize,
    /// Frequency bin index of the peak.
    pub freq_bin_idx: usize,
    /// Magnitude key of the peak cell.
    pub magnitude: u32,
}

/// Mathematical view of a spectrogram: the sequence of frames, each a
/// sequence of magnitude keys.
pub open spec fn grid(s: Seq<Vec<u32>>) -> Seq<Seq<u32>> {
    s.map_values(|row: Vec<u32>| row@)
}

/// Every frame has the same number of bins.
pub open spec fn rect(s: Seq<Seq<u32>>) -> bool {
    forall|t: int| 0 <= t < s.len() ==> (#[trigger] s[t]).len() == s[0].len()
}

/// Number of frequency bins per frame (0 for an empty spectrogram).
pub open spec fn bins(s: Seq<Seq<u32>>) -> int {
    if s.len() == 0 {
        0
    } else {
        s[0].len() as int
    }
}

/// Cell `(t2, f2)` lies in the neighborhood of cell `(t, f)` with
/// half-widths `tr` (time) and `fr` (frequency).
pub open spec fn in_neighborhood(tr: usize, fr: usize, t: int, f: int, t2: int, f2: int) -> bool {
    &&& t - tr <= t2 <= t + tr
    &&& f - fr <= f2 <= f + fr
}

/// Row-major order on cells: `(t1, f1)` comes before `(t2, f2)`.
pub open spec fn row_major_before(t1: int, f1: int, t2: int, f2: int) -> bool {
    t1 < t2 || (t1 == t2 && f1 < f2)
}

/// The neighbor `(t2, f2)` does not disqualify `(t, f)`: it is strictly
/// smaller, or equal but later in row-major order.
pub open spec fn dominates(s: Seq<Seq<u32>>, t: int, f: int, t2: int, f2: int) -> bool {
    s[t2][f2] < s[t][f] || (s[t2][f2] == s[t][f] && row_major_before(t, f, t2, f2))
}

/// Cell `(t, f)` is a retained peak: in bounds, at or above the
/// threshold, and dominating every other cell of its neighborhood.
pub open spec fn is_peak(
    s: Seq<Seq<u32>>,
    tr: usize,
    fr: usize,
    m_min: u32,
    t: int,
    f: int,
) -> bool {
    &&& 0 <= t < s.len()
    &&& 0 <= f < bins(s)
    &&& s[t][f] >= m_min
    &&& forall|t2: int, f2: int|
        0 <= t2 < s.len() && 0 <= f2 < bins(s) && #[trigger] in_neighborhood(
            tr,
            fr,
            t,
            f,
            t2,
            f2,
        ) && !(t2 == t && f2 == f) ==> dominates(s, t, f, t2, f2)
}

/// The peak record for cell `(t, f)`.
pub open spec fn peak_at(s: Seq<Seq<u32>>, t: int, f: int) -> Peak {
    Peak { time_idx: t as usize, freq_bin_idx: f as usize, magnitude: s[t][f] }
}

/// Peaks of row `t` among columns `[0, f)`, in ascending column order.
pub open spec fn row_peaks(
    s: Seq<Seq<u32>>,
    tr: usize,
    fr: usize,
    m_min: u32,
    t: int,
    f: int,
) -> Seq<Peak>
    decreases f,
{
    if f <= 0 {
        Seq::empty()
    } else {
        row_peaks(s, tr, fr, m_min, t, f - 1) + if is_peak(s, tr, fr, m_min, t, f - 1) {
            seq![peak_at(s, t, f - 1)]
        } else {
            Seq::empty()
        }
    }
}

/// Peaks of rows `[0, t)`, in ascending row-major order.
pub open spec fn peaks_upto(s: Seq<Seq<u32>>, tr: usize, fr: usize, m_min: u32, t: int) -> Seq<
    Peak,
>
    decreases t,
{
    if t <= 0 {
        Seq::empty()
    } else {
        peaks_upto(s, tr, fr, m_min, t - 1) + row_peaks(s, tr, fr, m_min, t - 1, bins(s))
    }
}

/// All retained peaks of the spectrogram, in ascending row-major order.
pub open spec fn peaks_spec(s: Seq<Seq<u32>>, tr: usize, fr: usize, m_min: u32) -> Seq<Peak> {
    peaks_upto(s, tr, fr, m_min, s.len() as int)
}

/// Every element of `row_peaks` is a retained peak of row `t` with
/// column below `f`, carrying the magnitude of its cell.
proof fn lemma_row_peaks_sound(s: Seq<Seq<u32>>, tr: usize, fr: usize, m_min: u32, t: int, f: int)
    requires
        s.len() <= usize::MAX,
        bins(s) <= usize::MAX,
    ensures
        forall|k: int|
            0 <= k < row_peaks(s, tr, fr, m_min, t, f).len() ==> {
                let p = #[trigger] row_peaks(s, tr, fr, m_min, t, f)[k];
                &&& p.time_idx == t
                &&& p.freq_bin_idx < f
                &&& is_peak(s, tr, fr, m_min, p.time_idx as int, p.freq_bin_idx as int)
                &&& p.magnitude == s[p.time_idx as int][p.freq_bin_idx as int]
            },
    decreases f,
{
    if f > 0 {
        lemma_row_peaks_sound(s, tr, fr, m_min, t, f - 1);
        let prev = row_peaks(s, tr, fr, m_min, t, f - 1);
        let cur = row_peaks(s, tr, fr, m_min, t, f);
        if is_peak(s, tr, fr, m_min, t, f - 1) {
            assert(cur == prev + seq![peak_at(s, t, f - 1)]);
            assert forall|k: int| 0 <= k < cur.len() implies {
                let p = #[trigger] cur[k];
                &&& p.time_idx == t
                &&& p.freq_bin_idx < f
                &&& is_peak(s, tr, fr, m_min, p.time_idx as int, p.freq_bin_idx as int)
                &&& p.magnitude == s[p.time_idx as int][p.freq_bin_idx as int]
            } by {
                if k < prev.len() {
                    assert(cur[k] == prev[k]);
                } else {
                    assert(cur[k] == peak_at(s, t, f - 1));
                    assert(0 <= t < s.len() && 0 <= f - 1 < bins(s));
                }
            }
        } else {
            assert(cur =~= prev);
        }
    }
}

/// Every element of `peaks_upto` is a retained peak of a row below `t`,
/// carrying the magnitude of its cell.
proof fn lemma_peaks_upto_sound(s: Seq<Seq<u32>>, tr: usize, fr: usize, m_min: u32, t: int)
    requires
        s.len() <= usize::MAX,
        bins(s) <= usize::MAX,
    ensures
        forall|k: int|
            0 <= k < peaks_upto(s, tr, fr, m_min, t).len() ==> {
                let p = #[trigger] peaks_upto(s, tr, fr, m_min, t)[k];
                &&& p.time_idx < t
                &&& is_peak(s, tr, fr, m_min, p.time_idx as int, p.freq_bin_idx as int)
                &&& p.magnitude == s[p.time_idx as int][p.freq_bin_idx as int]
            },
    decreases t,
{
    if t > 0 {
        lemma_peaks_upto_sound(s, tr, fr, m_min, t - 1);
        lemma_row_peaks_sound(s, tr, fr, m_min, t - 1, bins(s));
        let prev = peaks_upto(s, tr, fr, m_min, t - 1);
        let row = row_peaks(s, tr, fr, m_min, t - 1, bins(s));
        let cur = peaks_upto(s, tr, fr, m_min, t);
        assert(cur == prev + row);
        assert forall|k: int| 0 <= k < cur.len() implies {
            let p = #[trigger] cur[k];
            &&& p.time_idx < t
            &&& is_peak(s, tr, fr, m_min, p.time_idx as int, p.freq_bin_idx as int)
            &&& p.magnitude == s[p.time_idx as int][p.freq_bin_idx as int]
        } by {
            if k < prev.len() {
                assert(cur[k] == prev[k]);
            } else {
                assert(cur[k] == row[k - prev.len()]);
            }
        }
    }
}

/// Every returned peak is a retained peak of the spectrogram: at or
/// above the threshold, with no strictly greater neighbor, and first in
/// row-major order on any equal-magnitude plateau of its neighborhood.
pub proof fn lemma_peaks_spec_sound(s: Seq<Seq<u32>>, tr: usize, fr: usize, m_min: u32)
    requires
        s.len() <= usize::MAX,
        bins(s) <= usize::MAX,
    ensures
        forall|k: int|
            0 <= k < peaks_spec(s, tr, fr, m_min).len() ==> {
                let p = #[trigger] peaks_spec(s, tr, fr, m_min)[k];
                &&& is_peak(s, tr, fr, m_min, p.time_idx as int, p.freq_bin_idx as int)
                &&& p.magnitude == s[p.time_idx as int][p.freq_bin_idx as int]
            },
{
    lemma_peaks_upto_sound(s, tr, fr, m_min, s.len() as int);
}

/// The elements of `row_peaks` appear in strictly ascending column
/// order.
proof fn lemma_row_peaks_sorted(s: Seq<Seq<u32>>, tr: usize, fr: usize, m_min: u32, t: int, f: int)
    requires
        s.len() <= usize::MAX,
        bins(s) <= usize::MAX,
    ensures
        forall|k1: int, k2: int|
            0 <= k1 < k2 < row_peaks(s, tr, fr, m_min, t, f).len()
                ==> (#[trigger] row_peaks(s, tr, fr, m_min, t, f)[k1]).freq_bin_idx < (
            #[trigger] row_peaks(s, tr, fr, m_min, t, f)[k2]).freq_bin_idx,
    decreases f,
{
    if f > 0 {
        lemma_row_peaks_sorted(s, tr, fr, m_min, t, f - 1);
        lemma_row_peaks_sound(s, tr, fr, m_min, t, f - 1);
        let prev = row_peaks(s, tr, fr, m_min, t, f - 1);
        let cur = row_peaks(s, tr, fr, m_min, t, f);
        if is_peak(s, tr, fr, m_min, t, f - 1) {
            assert(cur == prev + seq![peak_at(s, t, f - 1)]);
            assert forall|k1: int, k2: int| 0 <= k1 < k2 < cur.len() implies (
            #[trigger] cur[k1]).freq_bin_idx < (#[trigger] cur[k2]).freq_bin_idx by {
                assert(cur[k1] == prev[k1]);
                if k2 < prev.len() {
                    assert(cur[k2] == prev[k2]);
                } else {
                    assert(cur[k2] == peak_at(s, t, f - 1));
                    assert(prev[k1].freq_bin_idx < f - 1);
                }
            }
        } else {
            assert(cur =~= prev);
        }
    }
}

/// The peaks of the whole spectrogram appear in strictly ascending
/// row-major order of `(time_idx, freq_bin_idx)`.
pub proof fn lemma_peaks_spec_sorted(s: Seq<Seq<u32>>, tr: usize, fr: usize, m_min: u32)
    requires
        s.len() <= usize::MAX,
        bins(s) <= usize::MAX,
    ensures
        forall|k1: int, k2: int|
            0 <= k1 < k2 < peaks_spec(s, tr, fr, m_min).len() ==> row_major_before(
                (#[trigger] peaks_spec(s, tr, fr, m_min)[k1]).time_idx as int,
                peaks_spec(s, tr, fr, m_min)[k1].freq_bin_idx as int,
                (#[trigger] peaks_spec(s, tr, fr, m_min)[k2]).time_idx as int,
                peaks_spec(s, tr, fr, m_min)[k2].freq_bin_idx as int,
            ),
{
    lemma_peaks_upto_sorted(s, tr, fr, m_min, s.len() as int);
}

/// The elements of `peaks_upto` appear in strictly ascending row-major
/// order.
proof fn lemma_peaks_upto_sorted(s: Seq<Seq<u32>>, tr: usize, fr: usize, m_min: u32, t: int)
    requires
        s.len() <= usize::MAX,
        bins(s) <= usize::MAX,
    ensures
        forall|k1: int, k2: int|
            0 <= k1 < k2 < peaks_upto(s, tr, fr, m_min, t).len() ==> row_major_before(
                (#[trigger] peaks_upto(s, tr, fr, m_min, t)[k1]).time_idx as int,
                peaks_upto(s, tr, fr, m_min, t)[k1].freq_bin_idx as int,
                (#[trigger] peaks_upto(s, tr, fr, m_min, t)[k2]).time_idx as int,
                peaks_upto(s, tr, fr, m_min, t)[k2].freq_bin_idx as int,
            ),
    decreases t,
{
    if t > 0 {
        lemma_peaks_upto_sorted(s, tr, fr, m_min, t - 1);
        lemma_peaks_upto_sound(s, tr, fr, m_min, t - 1);
        lemma_row_peaks_sorted(s, tr, fr, m_min, t - 1, bins(s));
        lemma_row_peaks_sound(s, tr, fr, m_min, t - 1, bins(s));
        let prev = peaks_upto(s, tr, fr, m_min, t - 1);
        let row = row_peaks(s, tr, fr, m_min, t - 1, bins(s));
        let cur = peaks_upto(s, tr, fr, m_min, t);
        assert(cur == prev + row);
        assert forall|k1: int, k2: int| 0 <= k1 < k2 < cur.len() implies row_major_before(
            (#[trigger] cur[k1]).time_idx as int,
            cur[k1].freq_bin_idx as int,
            (#[trigger] cur[k2]).time_idx as int,
            cur[k2].freq_bin_idx as int,
        ) by {
            if k2 < prev.len() {
                assert(cur[k1] == prev[k1] && cur[k2] == prev[k2]);
            } else if k1 < prev.len() {
                assert(cur[k1] == prev[k1] && cur[k2] == row[k2 - prev.len()]);
                assert(cur[k1].time_idx < t - 1 + 1);
                assert(cur[k2].time_idx == t - 1);
            } else {
                assert(cur[k1] == row[k1 - prev.len()] && cur[k2] == row[k2 - prev.len()]);
            }
        }
    }
}

/// Every cell in the peak columns of row `t` below column `f` appears
/// in `row_peaks`.
proof fn lemma_row_peaks_complete(
    s: Seq<Seq<u32>>,
    tr: usize,
    fr: usize,
    m_min: u32,
    t: int,
    f: int,
    f2: int,
)
    requires
        0 <= f2 < f,
        is_peak(s, tr, fr, m_min, t, f2),
    ensures
        row_peaks(s, tr, fr, m_min, t, f).contains(peak_at(s, t, f2)),
    decreases f,
{
    let cur = row_peaks(s, tr, fr, m_min, t, f);
    if f2 == f - 1 {
        assert(cur.last() == peak_at(s, t, f - 1));
    } else {
        lemma_row_peaks_complete(s, tr, fr, m_min, t, f - 1, f2);
        let prev = row_peaks(s, tr, fr, m_min, t, f - 1);
        let k = choose|k: int| 0 <= k < prev.len() && prev[k] == peak_at(s, t, f2);
        assert(cur[k] == peak_at(s, t, f2));
    }
}

/// Completeness: every retained peak of the spectrogram appears in the
/// peak sequence.
pub proof fn lemma_peaks_spec_complete(
    s: Seq<Seq<u32>>,
    tr: usize,
    fr: usize,
    m_min: u32,
    t: int,
    f: int,
)
    requires
        is_peak(s, tr, fr, m_min, t, f),
    ensures
        peaks_spec(s, tr, fr, m_min).contains(peak_at(s, t, f)),
{
    lemma_peaks_upto_complete(s, tr, fr, m_min, s.len() as int, t, f);
}

/// Every peak of a row below `t` appears in `peaks_upto`.
proof fn lemma_peaks_upto_complete(
    s: Seq<Seq<u32>>,
    tr: usize,
    fr: usize,
    m_min: u32,
    t: int,
    t2: int,
    f2: int,
)
    requires
        t2 < t,
        is_peak(s, tr, fr, m_min, t2, f2),
    ensures
        peaks_upto(s, tr, fr, m_min, t).contains(peak_at(s, t2, f2)),
    decreases t,
{
    let cur = peaks_upto(s, tr, fr, m_min, t);
    let prev = peaks_upto(s, tr, fr, m_min, t - 1);
    let row = row_peaks(s, tr, fr, m_min, t - 1, bins(s));
    assert(cur == prev + row);
    if t2 == t - 1 {
        lemma_row_peaks_complete(s, tr, fr, m_min, t2, bins(s), f2);
        let k = choose|k: int| 0 <= k < row.len() && row[k] == peak_at(s, t2, f2);
        assert(cur[prev.len() + k] == peak_at(s, t2, f2));
    } else {
        lemma_peaks_upto_complete(s, tr, fr, m_min, t - 1, t2, f2);
        let k = choose|k: int| 0 <= k < prev.len() && prev[k] == peak_at(s, t2, f2);
        assert(cur[k] == peak_at(s, t2, f2));
    }
}

/// On an equal-magnitude plateau at most one cell of a shared
/// neighborhood survives: two retained peaks that are neighbors with
/// equal magnitude are the same cell.
pub proof fn lemma_plateau_single_survivor(
    s: Seq<Seq<u32>>,
    tr: usize,
    fr: usize,
    m_min: u32,
    t1: int,
    f1: int,
    t2: int,
    f2: int,
)
    requires
        is_peak(s, tr, fr, m_min, t1, f1),
        is_peak(s, tr, fr, m_min, t2, f2),
        in_neighborhood(tr, fr, t1, f1, t2, f2),
        s[t1][f1] == s[t2][f2],
    ensures
        t1 == t2 && f1 == f2,
{
    if !(t1 == t2 && f1 == f2) {
        assert(in_neighborhood(tr, fr, t2, f2, t1, f1));
        assert(dominates(s, t1, f1, t2, f2));
        assert(dominates(s, t2, f2, t1, f1));
        assert(false);
    }
}

/// All cells of the neighborhood of `(t, f)` that come strictly before
/// `(ct, cf)` in row-major order dominate, i.e. do not disqualify,
/// `(t, f)`.
spec fn checked_before(
    s: Seq<Seq<u32>>,
    tr: usize,
    fr: usize,
    t: int,
    f: int,
    ct: int,
    cf: int,
) -> bool {
    forall|t2: int, f2: int|
        0 <= t2 < s.len() && 0 <= f2 < bins(s) && #[trigger] in_neighborhood(tr, fr, t, f, t2, f2)
            && !(t2 == t && f2 == f) && row_major_before(t2, f2, ct, cf) ==> dominates(
            s,
            t,
            f,
            t2,
            f2,
        )
}

/// Whether cell `(t, f)` dominates its whole clipped neighborhood.
fn neighborhood_clear(s: &Vec<Vec<u32>>, t: usize, f: usize, tr: usize, fr: usize) -> (ok: bool)
    requires
        rect(grid(s@)),
        t < s@.len(),
        f < bins(grid(s@)),
    ensures
        ok == forall|t2: int, f2: int|
            0 <= t2 < s@.len() && 0 <= f2 < bins(grid(s@)) && #[trigger] in_neighborhood(
                tr,
                fr,
                t as int,
                f as int,
                t2,
                f2,
            ) && !(t2 == t as int && f2 == f as int) ==> dominates(
                grid(s@),
                t as int,
                f as int,
                t2,
                f2,
            ),
{
    let ghost g = grid(s@);
    let num_frames = s.len();
    let num_bins = s[0].len();
    assert(g[t as int].len() == num_bins);
    let current = s[t][f];
    assert(current == g[t as int][f as int]);

    let t_start = if t >= tr {
        t - tr
    } else {
        0
    };
    let t_end = if num_frames - t > tr {
        t + tr + 1
    } else {
        num_frames
    };
    let f_start = if f >= fr {
        f - fr
    } else {
        0
    };
    let f_end = if num_bins - f > fr {
        f + fr + 1
    } else {
        num_bins
    };

    let mut nt = t_start;
    while nt < t_end
        invariant
            rect(g),
            g == grid(s@),
            t < s@.len(),
            f < bins(g),
            current == g[t as int][f as int],
            num_frames == s@.len(),
            num_bins == bins(g),
            t_start <= nt <= t_end,
            t_start == if t >= tr { t - tr } else { 0 },
            t_end == if t + tr + 1 <= num_frames { t + tr + 1 } else { num_frames as int },
            f_start == if f >= fr { f - fr } else { 0 },
            f_end == if f + fr + 1 <= num_bins { f + fr + 1 } else { num_bins as int },
            checked_before(g, tr, fr, t as int, f as int, nt as int, f_start as int),
        decreases t_end - nt,
    {
        let mut nf = f_start;
        while nf < f_end
            invariant
                rect(g),
                g == grid(s@),
                t < s@.len(),
                f < bins(g),
                current == g[t as int][f as int],
                num_frames == s@.len(),
                num_bins == bins(g),
                t_start <= nt < t_end,
                f_start <= nf <= f_end,
                t_start == if t >= tr { t - tr } else { 0 },
                t_end == if t + tr + 1 <= num_frames { t + tr + 1 } else { num_frames as int },
                f_start == if f >= fr { f - fr } else { 0 },
                f_end == if f + fr + 1 <= num_bins { f + fr + 1 } else { num_bins as int },
                checked_before(g, tr, fr, t as int, f as int, nt as int, nf as int),
            decreases f_end - nf,
        {
            if !(nt == t && nf == f) {
                assert(g[nt as int] == s@[nt as int]@);
                assert(g[nt as int].len() == num_bins);
                let v = s[nt][nf];
                assert(v == g[nt as int][nf as int]);
                let disqualified = v > current || (v == current && (nt < t || (nt == t && nf
                    < f)));
                if disqualified {
                    assert(in_neighborhood(tr, fr, t as int, f as int, nt as int, nf as int));
                    assert(!dominates(g, t as int, f as int, nt as int, nf as int));
                    return false;
                }
                assert(dominates(g, t as int, f as int, nt as int, nf as int));
            }
            nf += 1;
        }
        proof {
            assert forall|t2: int, f2: int|
                0 <= t2 < g.len() && 0 <= f2 < bins(g) && #[trigger] in_neighborhood(
                    tr,
                    fr,
                    t as int,
                    f as int,
                    t2,
                    f2,
                ) && !(t2 == t as int && f2 == f as int) && row_major_before(
                    t2,
                    f2,
                    nt + 1,
                    f_start as int,
                ) implies dominates(g, t as int, f as int, t2, f2) by {
                assert(row_major_before(t2, f2, nt as int, f_end as int));
            }
        }
        nt += 1;
    }
    proof {
        assert forall|t2: int, f2: int|
            0 <= t2 < g.len() && 0 <= f2 < bins(g) && #[trigger] in_neighborhood(
                tr,
                fr,
                t as int,
                f as int,
                t2,
                f2,
            ) && !(t2 == t as int && f2 == f as int) implies dominates(
            g,
            t as int,
            f as int,
            t2,
            f2,
        ) by {
            assert(row_major_before(t2, f2, t_end as int, f_start as int));
        }
    }
    true
}

/// Extracts every retained peak of the spectrogram, in ascending
/// row-major order of `(time_idx, freq_bin_idx)`.
///
/// An empty spectrogram, or one whose frames are empty, yields an empty
/// peak list; that is a signal, not an error.
pub fn find_peaks(
    spectrogram: &Vec<Vec<u32>>,
    neighborhood_time_radius: usize,
    neighborhood_freq_radius: usize,
    min_magnitude_threshold: u32,
) -> (r: Vec<Peak>)
    requires
        rect(grid(spectrogram@)),
    ensures
        r@ == peaks_spec(
            grid(spectrogram@),
            neighborhood_time_radius,
            neighborhood_freq_radius,
            min_magnitude_threshold,
        ),
        forall|k: int|
            0 <= k < r@.len() ==> {
                let p = #[trigger] r@[k];
                &&& is_peak(
                    grid(spectrogram@),
                    neighborhood_time_radius,
                    neighborhood_freq_radius,
                    min_magnitude_threshold,
                    p.time_idx as int,
                    p.freq_bin_idx as int,
                )
                &&& p.magnitude == grid(spectrogram@)[p.time_idx as int][p.freq_bin_idx as int]
            },
{
    let ghost g = grid(spectrogram@);
    let tr = neighborhood_time_radius;
    let fr = neighborhood_freq_radius;
    let m_min = min_magnitude_threshold;
    let mut r: Vec<Peak> = Vec::new();

    let num_frames = spectrogram.len();
    let num_bins = if num_frames == 0 {
        0
    } else {
        spectrogram[0].len()
    };
    assert(num_bins == bins(g));

    let mut t: usize = 0;
    while t < num_frames
        invariant
            rect(g),
            g == grid(spectrogram@),
            num_frames == spectrogram@.len(),
            num_bins == bins(g),
            t <= num_frames,
            r@ == peaks_upto(g, tr, fr, m_min, t as int),
        decreases num_frames - t,
    {
        let mut f: usize = 0;
        while f < num_bins
            invariant
                rect(g),
                g == grid(spectrogram@),
                num_frames == spectrogram@.len(),
                num_bins == bins(g),
                t < num_frames,
                f <= num_bins,
                r@ == peaks_upto(g, tr, fr, m_min, t as int) + row_peaks(
                    g,
                    tr,
                    fr,
                    m_min,
                    t as int,
                    f as int,
                ),
            decreases num_bins - f,
        {
            assert(g[t as int].len() == num_bins);
            let magnitude = spectrogram[t][f];
            assert(magnitude == g[t as int][f as int]);
            if magnitude >= m_min && neighborhood_clear(spectrogram, t, f, tr, fr) {
                assert(is_peak(g, tr, fr, m_min, t as int, f as int));
                r.push(Peak { time_idx: t, freq_bin_idx: f, magnitude });
                proof {
                    assert(peak_at(g, t as int, f as int) == Peak {
                        time_idx: t,
                        freq_bin_idx: f,
                        magnitude,
                    });
                    assert(row_peaks(g, tr, fr, m_min, t as int, f as int + 1) == row_peaks(
                        g,
                        tr,
                        fr,
                        m_min,
                        t as int,
                        f as int,
                    ) + seq![peak_at(g, t as int, f as int)]);
                    assert(r@ == peaks_upto(g, tr, fr, m_min, t as int) + row_peaks(
                        g,
                        tr,
                        fr,
                        m_min,
                        t as int,
                        f as int + 1,
                    ));
                }
            } else {
                proof {
                    assert(!is_peak(g, tr, fr, m_min, t as int, f as int));
                    assert(row_peaks(g, tr, fr, m_min, t as int, f as int + 1) == row_peaks(
                        g,
                        tr,
                        fr,
                        m_min,
                        t as int,
                        f as int,
                    ) + Seq::<Peak>::empty());
                    assert(r@ == peaks_upto(g, tr, fr, m_min, t as int) + row_peaks(
                        g,
                        tr,
                        fr,
                        m_min,
                        t as int,
                        f as int + 1,
                    ));
                }
            }
            f += 1;
        }
        t += 1;
        proof {
            assert(r@ == peaks_upto(g, tr, fr, m_min, t as int));
        }
    }
    proof {
        assert(g.len() == spectrogram@.len());
        assert(r@ == peaks_spec(g, tr, fr, m_min));
        lemma_peaks_spec_sound(g, tr, fr, m_min);
        assert forall|k: int| 0 <= k < r@.len() implies {
            let p = #[trigger] r@[k];
            &&& is_peak(g, tr, fr, m_min, p.time_idx as int, p.freq_bin_idx as int)
            &&& p.magnitude == g[p.time_idx as int][p.freq_bin_idx as int]
        } by {
            assert(r@[k] == peaks_spec(g, tr, fr, m_min)[k]);
        }
    }
    r
}

} // verus!
