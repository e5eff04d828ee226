//! Combinatorial landmark hashing of spectral peaks.
//!
//! Each peak acts in turn as an anchor; subsequent peaks inside the
//! configured target zone (a bounded window of time deltas and absolute
//! frequency deltas) are paired with it, at most a fixed number of
//! pairs per anchor. Every accepted pair emits a fingerprint whose
//! 28-bit hash packs the two masked frequency bins and the masked time
//! delta, and whose anchor time is stored alongside so the hash itself
//! is offset-invariant.

use crate::peaks::{peaks_spec, Peak};
use vstd::prelude::*;

verus! {

/// Smallest accepted anchor-to-target time delta, in frames.
pub const TARGET_ZONE_DT_MIN_FRAMES: usize = 1;

/// Largest accepted anchor-to-target time delta, in frames.
pub const TARGET_ZONE_DT_MAX_FRAMES: usize = 50;

/// Largest accepted absolute anchor-to-target frequency delta, in bins.
pub const TARGET_ZONE_DF_ABS_MAX_BINS: usize = 200;

/// Largest number of fingerprints emitted per anchor peak.
pub const MAX_PAIRS_PER_ANCHOR: usize = 5;

/// Width in bits of each frequency field of the hash.
pub const HASH_FREQ_BITS: u32 = 10;

/// Width in bits of the time-delta field of the hash.
pub const HASH_DELTA_TIME_BITS: u32 = 8;

/// A landmark fingerprint: the packed hash of a peak pair, and the
/// frame index of the pair's anchor peak.
#[derive(Debug, Clone, Copy, PartialEq, Eq, Structural)]
pub struct Fingerprint {
    /// Packed `(f_anchor, f_target, delta_t)` hash; only the low 28
    /// bits are ever populated.
    pub hash: u64,
    /// Frame index of the anchor peak.
    pub anchor_time_idx: usize,
}

/// Time delta from anchor `a` to target `b`, saturating at zero when
/// the target does not come later.
pub open spec fn delta_t(a: Peak, b: Peak) -> int {
    if b.time_idx >= a.time_idx {
        b.time_idx - a.time_idx
    } else {
        0
    }
}

/// Absolute frequency-bin delta between anchor `a` and target `b`.
pub open spec fn delta_f(a: Peak, b: Peak) -> int {
    if b.freq_bin_idx >= a.freq_bin_idx {
        b.freq_bin_idx - a.freq_bin_idx
    } else {
        a.freq_bin_idx - b.freq_bin_idx
    }
}

/// The pair `(a, b)` falls inside the target zone.
pub open spec fn pair_ok(a: Peak, b: Peak, dt_min: usize, dt_max: usize, df_max: usize) -> bool {
    &&& dt_min <= delta_t(a, b)
    &&& delta_t(a, b) <= dt_max
    &&& delta_f(a, b) <= df_max
}

/// The packed hash of the pair `(a, b)`: anchor frequency bin and
/// target frequency bin masked to `HASH_FREQ_BITS` (10) bits each, the
/// time delta masked to `HASH_DELTA_TIME_BITS` (8) bits, laid out as
/// `f_anchor << 18 | f_target << 8 | delta_t`.
pub open spec fn hash_of(a: Peak, b: Peak) -> u64 {
    (((a.freq_bin_idx as u64) & 0x3ff) << 18) | (((b.freq_bin_idx as u64) & 0x3ff) << 8) | ((
    delta_t(a, b) as u64) & 0xff)
}

/// The fingerprint emitted for the pair `(a, b)`.
pub open spec fn fp_of(a: Peak, b: Peak) -> Fingerprint {
    Fingerprint { hash: hash_of(a, b), anchor_time_idx: a.time_idx }
}

/// `fp` is the fingerprint of some target-zone pair of `ps` whose
/// anchor is `ps[i]` and whose target has index at least `j_lo`.
pub open spec fn from_anchor_pair(
    ps: Seq<Peak>,
    i: int,
    j_lo: int,
    fp: Fingerprint,
    dt_min: usize,
    dt_max: usize,
    df_max: usize,
) -> bool {
    exists|b: int|
        j_lo <= b < ps.len() && #[trigger] pair_ok(ps[i], ps[b], dt_min, dt_max, df_max) && fp
            == fp_of(ps[i], ps[b])
}

/// `fp` is the fingerprint of some target-zone pair `(ps[a], ps[b])`
/// with `lo <= a < b`.
pub open spec fn from_valid_pair(
    ps: Seq<Peak>,
    lo: int,
    fp: Fingerprint,
    dt_min: usize,
    dt_max: usize,
    df_max: usize,
) -> bool {
    exists|a: int, b: int|
        lo <= a < b < ps.len() && #[trigger] pair_ok(ps[a], ps[b], dt_min, dt_max, df_max) && fp
            == fp_of(ps[a], ps[b])
}

/// Fingerprints emitted for anchor `ps[i]` while scanning targets from
/// index `j` on, with `found` pairs already accepted for this anchor.
pub open spec fn anchor_hashes(
    ps: Seq<Peak>,
    i: int,
    j: int,
    found: int,
    dt_min: usize,
    dt_max: usize,
    df_max: usize,
    p_max: usize,
) -> Seq<Fingerprint>
    decreases ps.len() - j,
{
    if !(0 <= i < ps.len()) || !(0 <= j) || j >= ps.len() || found >= p_max {
        Seq::empty()
    } else if pair_ok(ps[i], ps[j], dt_min, dt_max, df_max) {
        seq![fp_of(ps[i], ps[j])] + anchor_hashes(
            ps,
            i,
            j + 1,
            found + 1,
            dt_min,
            dt_max,
            df_max,
            p_max,
        )
    } else {
        anchor_hashes(ps, i, j + 1, found, dt_min, dt_max, df_max, p_max)
    }
}

/// Fingerprints emitted for anchors `ps[i..]`, each anchor scanning the
/// peaks after it.
pub open spec fn hashes_from(
    ps: Seq<Peak>,
    i: int,
    dt_min: usize,
    dt_max: usize,
    df_max: usize,
    p_max: usize,
) -> Seq<Fingerprint>
    decreases ps.len() - i,
{
    if !(0 <= i) || i >= ps.len() {
        Seq::empty()
    } else {
        anchor_hashes(ps, i, i + 1, 0, dt_min, dt_max, df_max, p_max) + hashes_from(
            ps,
            i + 1,
            dt_min,
            dt_max,
            df_max,
            p_max,
        )
    }
}

/// All fingerprints emitted for the peak sequence `ps`, anchors in
/// order.
pub open spec fn hashes_spec(
    ps: Seq<Peak>,
    dt_min: usize,
    dt_max: usize,
    df_max: usize,
    p_max: usize,
) -> Seq<Fingerprint> {
    hashes_from(ps, 0, dt_min, dt_max, df_max, p_max)
}

/// The fingerprint sequence of a whole spectrogram under the given
/// peak and target-zone parameters: the composition of peak extraction
/// and landmark hashing.
pub open spec fn fingerprints_of(
    s: Seq<Seq<u32>>,
    tr: usize,
    fr: usize,
    m_min: u32,
    dt_min: usize,
    dt_max: usize,
    df_max: usize,
    p_max: usize,
) -> Seq<Fingerprint> {
    hashes_spec(peaks_spec(s, tr, fr, m_min), dt_min, dt_max, df_max, p_max)
}

/// The packed hash of any pair fits in 28 bits.
proof fn lemma_hash_fits(x: u64, y: u64, z: u64)
    ensures
        (((x & 0x3ff) << 18) | ((y & 0x3ff) << 8) | (z & 0xff)) < 0x10000000,
{
    assert((((x & 0x3ff) << 18) | ((y & 0x3ff) << 8) | (z & 0xff)) < 0x10000000) by (bit_vector);
}

/// Every fingerprint emitted for one anchor comes from a target-zone
/// pair with that anchor, and at most `p_max - found` more are emitted.
proof fn lemma_anchor_hashes_sound(
    ps: Seq<Peak>,
    i: int,
    j: int,
    found: int,
    dt_min: usize,
    dt_max: usize,
    df_max: usize,
    p_max: usize,
)
    requires
        found >= 0,
    ensures
        forall|k: int|
            0 <= k < anchor_hashes(ps, i, j, found, dt_min, dt_max, df_max, p_max).len()
                ==> from_anchor_pair(
                ps,
                i,
                j,
                #[trigger] anchor_hashes(ps, i, j, found, dt_min, dt_max, df_max, p_max)[k],
                dt_min,
                dt_max,
                df_max,
            ),
        anchor_hashes(ps, i, j, found, dt_min, dt_max, df_max, p_max).len() + found <= p_max
            || anchor_hashes(ps, i, j, found, dt_min, dt_max, df_max, p_max).len() == 0,
    decreases ps.len() - j,
{
    let cur = anchor_hashes(ps, i, j, found, dt_min, dt_max, df_max, p_max);
    if !(0 <= i < ps.len()) || !(0 <= j) || j >= ps.len() || found >= p_max {
    } else if pair_ok(ps[i], ps[j], dt_min, dt_max, df_max) {
        lemma_anchor_hashes_sound(ps, i, j + 1, found + 1, dt_min, dt_max, df_max, p_max);
        let rest = anchor_hashes(ps, i, j + 1, found + 1, dt_min, dt_max, df_max, p_max);
        assert(cur == seq![fp_of(ps[i], ps[j])] + rest);
        assert forall|k: int| 0 <= k < cur.len() implies from_anchor_pair(
            ps,
            i,
            j,
            cur[k],
            dt_min,
            dt_max,
            df_max,
        ) by {
            if k == 0 {
                assert(cur[0] == fp_of(ps[i], ps[j]));
                assert(j <= j < ps.len() && pair_ok(ps[i], ps[j], dt_min, dt_max, df_max) && cur[0]
                    == fp_of(ps[i], ps[j]));
            } else {
                assert(cur[k] == rest[k - 1]);
                assert(from_anchor_pair(ps, i, j + 1, rest[k - 1], dt_min, dt_max, df_max));
                let b = choose|b: int|
                    j + 1 <= b < ps.len() && #[trigger] pair_ok(ps[i], ps[b], dt_min, dt_max, df_max)
                        && rest[k - 1] == fp_of(ps[i], ps[b]);
                assert(j <= b < ps.len() && pair_ok(ps[i], ps[b], dt_min, dt_max, df_max) && cur[k]
                    == fp_of(ps[i], ps[b]));
            }
        }
    } else {
        lemma_anchor_hashes_sound(ps, i, j + 1, found, dt_min, dt_max, df_max, p_max);
        let rest = anchor_hashes(ps, i, j + 1, found, dt_min, dt_max, df_max, p_max);
        assert(cur == rest);
        assert forall|k: int| 0 <= k < cur.len() implies from_anchor_pair(
            ps,
            i,
            j,
            cur[k],
            dt_min,
            dt_max,
            df_max,
        ) by {
            assert(from_anchor_pair(ps, i, j + 1, rest[k], dt_min, dt_max, df_max));
            let b = choose|b: int|
                j + 1 <= b < ps.len() && #[trigger] pair_ok(ps[i], ps[b], dt_min, dt_max, df_max)
                    && rest[k] == fp_of(ps[i], ps[b]);
            assert(j <= b < ps.len() && pair_ok(ps[i], ps[b], dt_min, dt_max, df_max) && cur[k]
                == fp_of(ps[i], ps[b]));
        }
    }
}

/// Pair bounds: every fingerprint emitted for anchors `ps[i..]` comes
/// from a target-zone pair `(ps[a], ps[b])` with `i <= a < b`, and it
/// records that anchor's time index.
pub proof fn lemma_pair_bounds(
    ps: Seq<Peak>,
    i: int,
    dt_min: usize,
    dt_max: usize,
    df_max: usize,
    p_max: usize,
)
    ensures
        forall|k: int|
            0 <= k < hashes_from(ps, i, dt_min, dt_max, df_max, p_max).len() ==> from_valid_pair(
                ps,
                i,
                #[trigger] hashes_from(ps, i, dt_min, dt_max, df_max, p_max)[k],
                dt_min,
                dt_max,
                df_max,
            ),
    decreases ps.len() - i,
{
    if !(0 <= i) || i >= ps.len() {
    } else {
        lemma_pair_bounds(ps, i + 1, dt_min, dt_max, df_max, p_max);
        lemma_anchor_hashes_sound(ps, i, i + 1, 0, dt_min, dt_max, df_max, p_max);
        let mine = anchor_hashes(ps, i, i + 1, 0, dt_min, dt_max, df_max, p_max);
        let rest = hashes_from(ps, i + 1, dt_min, dt_max, df_max, p_max);
        let cur = hashes_from(ps, i, dt_min, dt_max, df_max, p_max);
        assert(cur == mine + rest);
        assert forall|k: int| 0 <= k < cur.len() implies from_valid_pair(
            ps,
            i,
            cur[k],
            dt_min,
            dt_max,
            df_max,
        ) by {
            if k < mine.len() {
                assert(cur[k] == mine[k]);
                assert(from_anchor_pair(ps, i, i + 1, mine[k], dt_min, dt_max, df_max));
                let b = choose|b: int|
                    i + 1 <= b < ps.len() && #[trigger] pair_ok(ps[i], ps[b], dt_min, dt_max, df_max)
                        && mine[k] == fp_of(ps[i], ps[b]);
                assert(i <= i < b < ps.len() && pair_ok(ps[i], ps[b], dt_min, dt_max, df_max)
                    && cur[k] == fp_of(ps[i], ps[b]));
            } else {
                assert(cur[k] == rest[k - mine.len()]);
                assert(from_valid_pair(ps, i + 1, rest[k - mine.len()], dt_min, dt_max, df_max));
                let (a, b) = choose|a: int, b: int|
                    i + 1 <= a < b < ps.len() && #[trigger] pair_ok(
                        ps[a],
                        ps[b],
                        dt_min,
                        dt_max,
                        df_max,
                    ) && rest[k - mine.len()] == fp_of(ps[a], ps[b]);
                assert(i <= a < b < ps.len() && pair_ok(ps[a], ps[b], dt_min, dt_max, df_max)
                    && cur[k] == fp_of(ps[a], ps[b]));
            }
        }
    }
}

/// At most `p_max` fingerprints are emitted for any one anchor.
pub proof fn lemma_pairs_per_anchor_bounded(
    ps: Seq<Peak>,
    i: int,
    dt_min: usize,
    dt_max: usize,
    df_max: usize,
    p_max: usize,
)
    ensures
        anchor_hashes(ps, i, i + 1, 0, dt_min, dt_max, df_max, p_max).len() <= p_max,
{
    lemma_anchor_hashes_sound(ps, i, i + 1, 0, dt_min, dt_max, df_max, p_max);
}

/// Hash width: every emitted hash is below `2^28`, the total width of
/// the two frequency fields and the time-delta field.
pub proof fn lemma_hash_width(
    ps: Seq<Peak>,
    dt_min: usize,
    dt_max: usize,
    df_max: usize,
    p_max: usize,
)
    ensures
        forall|k: int|
            0 <= k < hashes_spec(ps, dt_min, dt_max, df_max, p_max).len() ==> (
            #[trigger] hashes_spec(ps, dt_min, dt_max, df_max, p_max)[k]).hash < 0x10000000,
{
    lemma_pair_bounds(ps, 0, dt_min, dt_max, df_max, p_max);
    assert forall|k: int| 0 <= k < hashes_spec(ps, dt_min, dt_max, df_max, p_max).len() implies (
    #[trigger] hashes_spec(ps, dt_min, dt_max, df_max, p_max)[k]).hash < 0x10000000 by {
        let fp = hashes_spec(ps, dt_min, dt_max, df_max, p_max)[k];
        assert(from_valid_pair(ps, 0, fp, dt_min, dt_max, df_max));
        let (a, b) = choose|a: int, b: int|
            0 <= a < b < ps.len() && #[trigger] pair_ok(ps[a], ps[b], dt_min, dt_max, df_max) && fp
                == fp_of(ps[a], ps[b]);
        lemma_hash_fits(
            ps[a].freq_bin_idx as u64,
            ps[b].freq_bin_idx as u64,
            delta_t(ps[a], ps[b]) as u64,
        );
    }
}

/// Determinism: the fingerprint sequence is a function of the
/// spectrogram and the parameters alone, so two independent runs of the
/// pipeline over the same input agree bit for bit.
pub proof fn lemma_pipeline_deterministic(
    s: Seq<Seq<u32>>,
    tr: usize,
    fr: usize,
    m_min: u32,
    dt_min: usize,
    dt_max: usize,
    df_max: usize,
    p_max: usize,
    r1: Seq<Fingerprint>,
    r2: Seq<Fingerprint>,
)
    requires
        r1 == fingerprints_of(s, tr, fr, m_min, dt_min, dt_max, df_max, p_max),
        r2 == fingerprints_of(s, tr, fr, m_min, dt_min, dt_max, df_max, p_max),
    ensures
        r1 == r2,
{
}

/// Emits the landmark fingerprints of `peaks`, anchors in input order,
/// targets drawn from the peaks after each anchor, at most
/// `max_pairs_per_anchor` pairs per anchor and only pairs inside the
/// target zone `[dt_min_frames, dt_max_frames] x [0, df_abs_max_bins]`.
///
/// Fewer than two peaks yield no fingerprints; that is a signal, not an
/// error.
pub fn create_hashes(
    peaks: &Vec<Peak>,
    dt_min_frames: usize,
    dt_max_frames: usize,
    df_abs_max_bins: usize,
    max_pairs_per_anchor: usize,
) -> (r: Vec<Fingerprint>)
    ensures
        r@ == hashes_spec(
            peaks@,
            dt_min_frames,
            dt_max_frames,
            df_abs_max_bins,
            max_pairs_per_anchor,
        ),
        forall|k: int| 0 <= k < r@.len() ==> (#[trigger] r@[k]).hash < 0x10000000,
        forall|k: int|
            0 <= k < r@.len() ==> from_valid_pair(
                peaks@,
                0,
                #[trigger] r@[k],
                dt_min_frames,
                dt_max_frames,
                df_abs_max_bins,
            ),
{
    let ghost ps = peaks@;
    let mut r: Vec<Fingerprint> = Vec::new();
    let n = peaks.len();

    let mut i: usize = 0;
    while i < n
        invariant
            n == ps.len(),
            ps == peaks@,
            i <= n,
            hashes_spec(ps, dt_min_frames, dt_max_frames, df_abs_max_bins, max_pairs_per_anchor)
                == r@ + hashes_from(
                ps,
                i as int,
                dt_min_frames,
                dt_max_frames,
                df_abs_max_bins,
                max_pairs_per_anchor,
            ),
        decreases n - i,
    {
        let anchor = peaks[i];
        let mut found: usize = 0;
        let mut j: usize = i + 1;
        proof {
            assert(hashes_from(
                ps,
                i as int,
                dt_min_frames,
                dt_max_frames,
                df_abs_max_bins,
                max_pairs_per_anchor,
            ) == anchor_hashes(
                ps,
                i as int,
                i as int + 1,
                0,
                dt_min_frames,
                dt_max_frames,
                df_abs_max_bins,
                max_pairs_per_anchor,
            ) + hashes_from(
                ps,
                i as int + 1,
                dt_min_frames,
                dt_max_frames,
                df_abs_max_bins,
                max_pairs_per_anchor,
            ));
        }
        while j < n && found < max_pairs_per_anchor
            invariant
                n == ps.len(),
                ps == peaks@,
                i < n,
                i < j <= n,
                found <= max_pairs_per_anchor,
                anchor == ps[i as int],
                hashes_spec(ps, dt_min_frames, dt_max_frames, df_abs_max_bins, max_pairs_per_anchor)
                    == r@ + anchor_hashes(
                    ps,
                    i as int,
                    j as int,
                    found as int,
                    dt_min_frames,
                    dt_max_frames,
                    df_abs_max_bins,
                    max_pairs_per_anchor,
                ) + hashes_from(
                    ps,
                    i as int + 1,
                    dt_min_frames,
                    dt_max_frames,
                    df_abs_max_bins,
                    max_pairs_per_anchor,
                ),
            decreases n - j,
        {
            let target = peaks[j];
            let delta_time_frames = if target.time_idx >= anchor.time_idx {
                target.time_idx - anchor.time_idx
            } else {
                0
            };
            let delta_freq_bins_abs = if target.freq_bin_idx >= anchor.freq_bin_idx {
                target.freq_bin_idx - anchor.freq_bin_idx
            } else {
                anchor.freq_bin_idx - target.freq_bin_idx
            };
            let accepted = delta_time_frames >= dt_min_frames && delta_time_frames <= dt_max_frames
                && delta_freq_bins_abs <= df_abs_max_bins;
            proof {
                assert(delta_time_frames == delta_t(anchor, target));
                assert(delta_freq_bins_abs == delta_f(anchor, target));
                assert(accepted == pair_ok(
                    ps[i as int],
                    ps[j as int],
                    dt_min_frames,
                    dt_max_frames,
                    df_abs_max_bins,
                ));
            }
            if accepted {
                let f1_masked = (anchor.freq_bin_idx as u64) & 0x3ff;
                let f2_masked = (target.freq_bin_idx as u64) & 0x3ff;
                let dt_masked = (delta_time_frames as u64) & 0xff;
                let robust_hash_val = (f1_masked << 18) | (f2_masked << 8) | dt_masked;
                proof {
                    assert(robust_hash_val == hash_of(anchor, target));
                }
                r.push(Fingerprint { hash: robust_hash_val, anchor_time_idx: anchor.time_idx });
                proof {
                    assert(anchor_hashes(
                        ps,
                        i as int,
                        j as int,
                        found as int,
                        dt_min_frames,
                        dt_max_frames,
                        df_abs_max_bins,
                        max_pairs_per_anchor,
                    ) == seq![fp_of(ps[i as int], ps[j as int])] + anchor_hashes(
                        ps,
                        i as int,
                        j as int + 1,
                        found as int + 1,
                        dt_min_frames,
                        dt_max_frames,
                        df_abs_max_bins,
                        max_pairs_per_anchor,
                    ));
                    assert(r@.last() == fp_of(ps[i as int], ps[j as int]));
                    assert(hashes_spec(
                        ps,
                        dt_min_frames,
                        dt_max_frames,
                        df_abs_max_bins,
                        max_pairs_per_anchor,
                    ) == r@ + anchor_hashes(
                        ps,
                        i as int,
                        j as int + 1,
                        found as int + 1,
                        dt_min_frames,
                        dt_max_frames,
                        df_abs_max_bins,
                        max_pairs_per_anchor,
                    ) + hashes_from(
                        ps,
                        i as int + 1,
                        dt_min_frames,
                        dt_max_frames,
                        df_abs_max_bins,
                        max_pairs_per_anchor,
                    ));
                }
                found += 1;
            } else {
                proof {
                    assert(anchor_hashes(
                        ps,
                        i as int,
                        j as int,
                        found as int,
                        dt_min_frames,
                        dt_max_frames,
                        df_abs_max_bins,
                        max_pairs_per_anchor,
                    ) == anchor_hashes(
                        ps,
                        i as int,
                        j as int + 1,
                        found as int,
                        dt_min_frames,
                        dt_max_frames,
                        df_abs_max_bins,
                        max_pairs_per_anchor,
                    ));
                }
            }
            j += 1;
        }
        proof {
            assert(anchor_hashes(
                ps,
                i as int,
                j as int,
                found as int,
                dt_min_frames,
                dt_max_frames,
                df_abs_max_bins,
                max_pairs_per_anchor,
            ) == Seq::<Fingerprint>::empty());
            assert(r@ + Seq::<Fingerprint>::empty() + hashes_from(
                ps,
                i as int + 1,
                dt_min_frames,
                dt_max_frames,
                df_abs_max_bins,
                max_pairs_per_anchor,
            ) =~= r@ + hashes_from(
                ps,
                i as int + 1,
                dt_min_frames,
                dt_max_frames,
                df_abs_max_bins,
                max_pairs_per_anchor,
            ));
        }
        i += 1;
    }
    proof {
        assert(hashes_from(
            ps,
            n as int,
            dt_min_frames,
            dt_max_frames,
            df_abs_max_bins,
            max_pairs_per_anchor,
        ) == Seq::<Fingerprint>::empty());
        assert(r@ + Seq::<Fingerprint>::empty() =~= r@);
        assert(r@ == hashes_spec(
            ps,
            dt_min_frames,
            dt_max_frames,
            df_abs_max_bins,
            max_pairs_per_anchor,
        ));
        lemma_hash_width(ps, dt_min_frames, dt_max_frames, df_abs_max_bins, max_pairs_per_anchor);
        lemma_pair_bounds(
            ps,
            0,
            dt_min_frames,
            dt_max_frames,
            df_abs_max_bins,
            max_pairs_per_anchor,
        );
    }
    r
}

} // verus!
