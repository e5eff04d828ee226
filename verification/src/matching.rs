//! Offset-histogram scoring of lookup hits.
//!
//! Every index hit contributes one `(recording, offset-delta)` pair;
//! the score of a candidate is the number of pairs that agree with it
//! exactly. The best match is the candidate with the highest score,
//! ties broken towards the lowest recording id and then the lowest
//! offset, and it is reported only when its score reaches the
//! configured minimum.

use vstd::prelude::*;

verus! {

/// Design-default minimum score for a match to be reported.
pub const DEFAULT_MIN_MATCH_SCORE: usize = 100;

/// A successful query: the matched recording, the height of its best
/// histogram bin, and that bin's offset in frames (where in the
/// recording the query snippet starts).
#[derive(Debug, Clone, Copy, PartialEq, Eq, Structural)]
pub struct MatchResult {
    /// Identifier of the matched recording.
    pub song_id: u32,
    /// Number of hash hits that agree on the winning offset.
    pub score: usize,
    /// Offset of the query within the recording, in frames.
    pub time_offset_in_song_frames: isize,
}

/// Number of occurrences of `x` in `s`.
pub open spec fn occurrences<T>(s: Seq<T>, x: T) -> nat
    decreases s.len(),
{
    if s.len() == 0 {
        0
    } else {
        occurrences(s.drop_last(), x) + if s.last() == x {
            1nat
        } else {
            0nat
        }
    }
}

/// Candidate `(a_id, a_delta)` with score `a_cnt` is at least as good
/// as candidate `(b_id, b_delta)` with score `b_cnt`: it scores
/// strictly higher, or scores the same and wins the deterministic
/// tie-break towards the lower id, then the lower offset.
pub open spec fn candidate_beats(
    a_id: u32,
    a_delta: isize,
    a_cnt: nat,
    b_id: u32,
    b_delta: isize,
    b_cnt: nat,
) -> bool {
    ||| a_cnt > b_cnt
    ||| (a_cnt == b_cnt && (a_id < b_id || (a_id == b_id && a_delta <= b_delta)))
}

/// What the offset-histogram matcher returns for the pair sequence
/// `pairs` and minimum score `min_score`: nothing when no candidate
/// reaches the minimum, otherwise the best candidate, its exact score,
/// and the guarantee that it beats every other candidate.
pub open spec fn match_post(pairs: Seq<(u32, isize)>, min_score: usize, r: Option<
    MatchResult,
>) -> bool {
    match r {
        None => forall|k: int|
            0 <= k < pairs.len() ==> occurrences(pairs, #[trigger] pairs[k]) < min_score,
        Some(m) => {
            &&& pairs.contains((m.song_id, m.time_offset_in_song_frames))
            &&& m.score == occurrences(pairs, (m.song_id, m.time_offset_in_song_frames))
            &&& m.score >= min_score
            &&& forall|k: int|
                0 <= k < pairs.len() ==> candidate_beats(
                    m.song_id,
                    m.time_offset_in_song_frames,
                    m.score as nat,
                    (#[trigger] pairs[k]).0,
                    pairs[k].1,
                    occurrences(pairs, pairs[k]),
                )
        },
    }
}

/// Counts how many pairs equal `p`.
fn count_pair(pairs: &Vec<(u32, isize)>, p: (u32, isize)) -> (c: usize)
    ensures
        c == occurrences(pairs@, p),
{
    let mut c: usize = 0;
    let mut k: usize = 0;
    while k < pairs.len()
        invariant
            k <= pairs@.len(),
            c <= k,
            c == occurrences(pairs@.take(k as int), p),
        decreases pairs@.len() - k,
    {
        let q = pairs[k];
        proof {
            assert(pairs@.take(k as int + 1).drop_last() =~= pairs@.take(k as int));
            assert(pairs@.take(k as int + 1).last() == pairs@[k as int]);
        }
        if q.0 == p.0 && q.1 == p.1 {
            c += 1;
        }
        k += 1;
    }
    proof {
        assert(pairs@.take(pairs@.len() as int) =~= pairs@);
    }
    c
}

/// Scores every `(recording, offset-delta)` pair by its number of
/// occurrences and returns the best candidate if it reaches
/// `min_score`, breaking score ties towards the lowest recording id and
/// then the lowest offset. An empty pair sequence yields no match.
pub fn best_match(pairs: &Vec<(u32, isize)>, min_score: usize) -> (r: Option<MatchResult>)
    ensures
        match_post(pairs@, min_score, r),
        pairs@.len() == 0 ==> r is None,
{
    let mut best_id: u32 = 0;
    let mut best_delta: isize = 0;
    let mut best_score: usize = 0;
    let mut have_best = false;

    let mut k: usize = 0;
    while k < pairs.len()
        invariant
            k <= pairs@.len(),
            have_best == (k > 0 && pairs@.len() > 0),
            have_best ==> {
                &&& pairs@.contains((best_id, best_delta))
                &&& best_score == occurrences(pairs@, (best_id, best_delta))
                &&& forall|x: int|
                    0 <= x < k ==> candidate_beats(
                        best_id,
                        best_delta,
                        best_score as nat,
                        (#[trigger] pairs@[x]).0,
                        pairs@[x].1,
                        occurrences(pairs@, pairs@[x]),
                    )
            },
        decreases pairs@.len() - k,
    {
        let cand = pairs[k];
        let cand_score = count_pair(pairs, cand);
        proof {
            assert(pairs@.contains(pairs@[k as int]));
        }
        let replace = if !have_best {
            true
        } else if cand_score > best_score {
            true
        } else if cand_score == best_score && (cand.0 < best_id || (cand.0 == best_id && cand.1
            < best_delta)) {
            true
        } else {
            false
        };
        if replace {
            best_id = cand.0;
            best_delta = cand.1;
            best_score = cand_score;
            have_best = true;
        }
        k += 1;
    }

    if !have_best {
        proof {
            assert(pairs@.len() == 0);
        }
        None
    } else if best_score < min_score {
        proof {
            assert forall|x: int| 0 <= x < pairs@.len() implies occurrences(
                pairs@,
                #[trigger] pairs@[x],
            ) < min_score by {
                assert(candidate_beats(
                    best_id,
                    best_delta,
                    best_score as nat,
                    pairs@[x].0,
                    pairs@[x].1,
                    occurrences(pairs@, pairs@[x]),
                ));
            }
        }
        None
    } else {
        Some(
            MatchResult {
                song_id: best_id,
                score: best_score,
                time_offset_in_song_frames: best_delta,
            },
        )
    }
}

} // verus!
