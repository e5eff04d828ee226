//! Persistent fingerprint index, backed by SQLite through `rusqlite`.
//!
//! The store owns two tables: `songs` (recording metadata, with a
//! unique source path) and `fingerprints` (`hash`, `song_id`,
//! `anchor_time_idx`, with a hash index and cascade delete). Its
//! logical content is modelled by [`IndexContents`]: a map from
//! recording id to metadata, and a map from recording id to the
//! sequence of stored `(hash, anchor)` rows. Every SQL statement runs
//! behind a trusted wrapper whose contract states exactly how it moves
//! that model; enrollment and querying are verified against those
//! contracts.

use crate::hashing::{create_hashes, fingerprints_of, from_valid_pair, pair_ok, Fingerprint};
use crate::matching::{match_post, occurrences, MatchResult};
use crate::peaks::{find_peaks, grid, is_peak, peaks_spec, rect};
use rusqlite::OptionalExtension;
use vstd::prelude::*;

verus! {

/// Stable identifier of an enrolled recording.
pub type SongId = u32;

/// Metadata of one enrolled recording.
#[derive(Debug, Clone)]
pub struct Song {
    /// Identifier of the recording.
    pub id: SongId,
    /// Display name of the recording.
    pub name: String,
    /// Source path the recording was enrolled from, when one was given.
    pub file_path: Option<String>,
}

/// How an index operation failed.
#[derive(Debug, Clone, Copy, PartialEq, Eq, Structural)]
pub enum IndexError {
    /// The underlying store reported an I/O or SQL failure.
    Storage,
    /// The store handed back a recording id outside `[1, u32::MAX]`.
    InvalidRecordingId,
    /// The input spectrogram was empty.
    EmptySpectrogram,
    /// No peaks were found in the spectrogram.
    NoPeaks,
    /// No fingerprints could be generated from the peaks.
    NoFingerprints,
}

#[verifier::external_type_specification]
#[verifier::external_body]
/// Connection handle type of the `rusqlite` crate, kept opaque.
pub struct ExConnection(rusqlite::Connection);

#[verifier::external_type_specification]
#[verifier::external_body]
/// Error type of the `rusqlite` crate, kept opaque.
pub struct ExSqlError(rusqlite::Error);

/// Metadata of one recording, as the model sees it.
pub ghost struct RecordingInfo {
    /// Display name.
    pub name: Seq<char>,
    /// Unique source path, when one was given at enrollment.
    pub source_path: Option<Seq<char>>,
}

/// Logical content of the store: recording metadata and stored
/// fingerprint rows, both keyed by recording id.
pub ghost struct IndexContents {
    /// Recording id to metadata.
    pub recordings: Map<i64, RecordingInfo>,
    /// Recording id to its stored `(hash, anchor_time_idx)` rows. A
    /// missing key and an empty sequence both mean "no rows".
    pub fingerprints: Map<i64, Seq<(u64, i64)>>,
}

/// Full model of a store handle: the durable content, and the content
/// as seen inside an open transaction, if one is open.
pub ghost struct IndexView {
    /// Content visible after the last commit.
    pub committed: IndexContents,
    /// Content as modified by the open transaction, if any.
    pub txn: Option<IndexContents>,
}

impl IndexContents {
    /// Some recording carries source path `p`.
    pub open spec fn has_path(self, p: Seq<char>) -> bool {
        exists|id: i64|
            #[trigger] self.recordings.dom().contains(id) && self.recordings[id].source_path
                == Some(p)
    }

    /// Well-formedness: every fingerprint row references a recording,
    /// ids are positive, and source paths are unique.
    pub open spec fn wf(self) -> bool {
        &&& forall|id: i64|
            #[trigger] self.fingerprints.dom().contains(id) ==> self.recordings.dom().contains(id)
        &&& forall|id: i64| #[trigger] self.recordings.dom().contains(id) ==> id >= 1
        &&& forall|id1: i64, id2: i64|
            #[trigger] self.recordings.dom().contains(id1) && #[trigger] self.recordings.dom().contains(id2)
                && id1 != id2 && self.recordings[id1].source_path is Some
                ==> self.recordings[id1].source_path != self.recordings[id2].source_path
    }
}

/// View of an optional borrowed string.
pub open spec fn opt_str_view(p: Option<&str>) -> Option<Seq<char>> {
    match p {
        Some(s) => Some(s@),
        None => None,
    }
}

/// View of an optional owned string.
pub open spec fn opt_string_view(p: Option<String>) -> Option<Seq<char>> {
    match p {
        Some(s) => Some(s@),
        None => None,
    }
}

/// The recordings table of `post` is that of `pre` with `(name, path)`
/// upserted under `id`: when `path` names an existing recording, `id`
/// is that recording (and its name is updated); otherwise `id` is a
/// fresh positive id.
pub open spec fn recordings_upserted(
    pre: IndexContents,
    post: IndexContents,
    name: Seq<char>,
    path: Option<Seq<char>>,
    id: i64,
) -> bool {
    &&& id >= 1
    &&& match path {
        Some(p) => {
            if pre.has_path(p) {
                &&& pre.recordings.dom().contains(id)
                &&& pre.recordings[id].source_path == Some(p)
            } else {
                !pre.recordings.dom().contains(id)
            }
        },
        None => !pre.recordings.dom().contains(id),
    }
    &&& post.recordings == pre.recordings.insert(id, RecordingInfo { name, source_path: path })
}

/// Full effect of a successful enrollment on the store content: the
/// metadata is upserted under `id`, which fits in a `SongId`, and the
/// fingerprint rows of `id` are replaced by `prints`.
pub open spec fn enroll_ok(
    pre: IndexContents,
    post: IndexContents,
    name: Seq<char>,
    path: Option<Seq<char>>,
    prints: Seq<(u64, i64)>,
    id: i64,
) -> bool {
    &&& 1 <= id <= u32::MAX
    &&& recordings_upserted(pre, post, name, path, id)
    &&& post.fingerprints == pre.fingerprints.insert(id, prints)
}

/// The `(hash, anchor)` rows that enrollment stores for a fingerprint
/// sequence.
pub open spec fn prints_of(fps: Seq<Fingerprint>) -> Seq<(u64, i64)> {
    fps.map_values(|fp: Fingerprint| (fp.hash, fp.anchor_time_idx as i64))
}

/// How many rows with hash `hash` and anchor `t` the store holds for
/// recording `id`.
pub open spec fn stored_count(c: IndexContents, hash: u64, id: i64, t: i64) -> nat {
    if c.fingerprints.dom().contains(id) {
        occurrences(c.fingerprints[id], (hash, t))
    } else {
        0
    }
}

/// Lexicographic order on strings by Unicode code point, which for
/// UTF-8 text coincides with binary order on the encoded bytes.
pub open spec fn str_lex_le(a: Seq<char>, b: Seq<char>) -> bool
    decreases a.len(),
{
    if a.len() == 0 {
        true
    } else if b.len() == 0 {
        false
    } else if a[0] == b[0] {
        str_lex_le(a.drop_first(), b.drop_first())
    } else {
        (a[0] as u32) < (b[0] as u32)
    }
}

/// Count of rows in `rows` that belong to recording `id` and whose
/// stored anchor exceeds `anchor` by exactly `d`.
pub open spec fn row_delta_count(rows: Seq<(i64, i64)>, anchor: int, id: i64, d: int) -> nat
    decreases rows.len(),
{
    if rows.len() == 0 {
        0
    } else {
        row_delta_count(rows.drop_last(), anchor, id, d) + if rows.last().0 == id && rows.last().1
            - anchor == d {
            1nat
        } else {
            0nat
        }
    }
}

/// How many stored rows of recording `id` the query fingerprint `fp`
/// hits at offset delta `d`: rows with `fp`'s hash whose anchor is
/// `fp.anchor_time_idx + d`.
pub open spec fn anchor_hit_count(c: IndexContents, fp: Fingerprint, id: i64, d: int) -> nat {
    if i64::MIN <= fp.anchor_time_idx + d <= i64::MAX {
        stored_count(c, fp.hash, id, (fp.anchor_time_idx + d) as i64)
    } else {
        0
    }
}

/// Height of the offset histogram of recording `id` at delta `d`, over
/// the query fingerprints `fps`: the total number of index hits that
/// place the query at offset `d` within `id`.
pub open spec fn hit_delta_count(c: IndexContents, fps: Seq<Fingerprint>, id: i64, d: int) -> nat
    decreases fps.len(),
{
    if fps.len() == 0 {
        0
    } else {
        hit_delta_count(c, fps.drop_last(), id, d) + anchor_hit_count(c, fps.last(), id, d)
    }
}

/// The pair sequence under-approximates the true offset histograms:
/// no candidate is counted more often than the store supports. (It can
/// be an under-approximation because per-hash lookup errors are
/// skipped.)
pub open spec fn sound_pairs(
    c: IndexContents,
    fps: Seq<Fingerprint>,
    pairs: Seq<(u32, isize)>,
) -> bool {
    forall|id: u32, d: isize|
        #[trigger] occurrences(pairs, (id, d)) <= hit_delta_count(c, fps, id as i64, d as int)
}

/// `row_delta_count` over whole lookup results is the stored count at
/// the shifted anchor.
proof fn lemma_row_delta_count_as_occurrences(rows: Seq<(i64, i64)>, anchor: int, id: i64, d: int)
    ensures
        row_delta_count(rows, anchor, id, d) == if i64::MIN <= anchor + d <= i64::MAX {
            occurrences(rows, (id, (anchor + d) as i64))
        } else {
            0nat
        },
    decreases rows.len(),
{
    if rows.len() > 0 {
        lemma_row_delta_count_as_occurrences(rows.drop_last(), anchor, id, d);
    }
}

/// An upsert preserves well-formedness of the content.
proof fn lemma_upsert_preserves_wf(
    pre: IndexContents,
    post: IndexContents,
    name: Seq<char>,
    path: Option<Seq<char>>,
    id: i64,
)
    requires
        pre.wf(),
        recordings_upserted(pre, post, name, path, id),
        post.fingerprints == pre.fingerprints,
    ensures
        post.wf(),
{
    assert forall|id1: i64, id2: i64|
        #[trigger] post.recordings.dom().contains(id1) && #[trigger] post.recordings.dom().contains(
            id2,
        ) && id1 != id2 && post.recordings[id1].source_path is Some implies post.recordings[id1].source_path
        != post.recordings[id2].source_path by {
        if id1 != id && id2 != id {
        } else if id1 == id {
            if post.recordings[id1].source_path == post.recordings[id2].source_path {
                assert(pre.recordings.dom().contains(id2));
                assert(pre.has_path(post.recordings[id2].source_path->Some_0));
            }
        } else {
            if post.recordings[id1].source_path == post.recordings[id2].source_path {
                assert(pre.recordings.dom().contains(id1));
                assert(pre.has_path(post.recordings[id1].source_path->Some_0));
            }
        }
    }
}

/// A whole enrollment preserves well-formedness of the content.
pub proof fn lemma_enroll_preserves_wf(
    pre: IndexContents,
    post: IndexContents,
    name: Seq<char>,
    path: Option<Seq<char>>,
    prints: Seq<(u64, i64)>,
    id: i64,
)
    requires
        pre.wf(),
        enroll_ok(pre, post, name, path, prints, id),
    ensures
        post.wf(),
{
    let mid = IndexContents { recordings: post.recordings, fingerprints: pre.fingerprints };
    lemma_upsert_preserves_wf(pre, mid, name, path, id);
}

/// Enrollment idempotence: enrolling the same source path with the
/// same name and the same fingerprints a second time picks the same
/// recording id and leaves the store content exactly as after the
/// first enrollment.
pub proof fn lemma_enroll_idempotent(
    pre: IndexContents,
    mid: IndexContents,
    post: IndexContents,
    name: Seq<char>,
    p: Seq<char>,
    prints: Seq<(u64, i64)>,
    id1: i64,
    id2: i64,
)
    requires
        pre.wf(),
        enroll_ok(pre, mid, name, Some(p), prints, id1),
        enroll_ok(mid, post, name, Some(p), prints, id2),
    ensures
        id2 == id1,
        post.recordings =~= mid.recordings,
        post.fingerprints =~= mid.fingerprints,
{
    lemma_enroll_preserves_wf(pre, mid, name, Some(p), prints, id1);
    assert(mid.recordings.dom().contains(id1) && mid.recordings[id1].source_path == Some(p));
    assert(mid.has_path(p));
    assert(mid.recordings.dom().contains(id2) && mid.recordings[id2].source_path == Some(p));
    if id2 != id1 {
        assert(mid.recordings[id1].source_path != mid.recordings[id2].source_path);
        assert(false);
    }
    assert(mid.recordings[id1] == RecordingInfo { name, source_path: Some(p) });
    assert(post.recordings =~= mid.recordings);
    assert(post.fingerprints =~= mid.fingerprints);
}

/// A persistent fingerprint index: a SQLite connection together with
/// the ghost model of the store content it governs.
pub struct FingerprintIndex {
    conn: rusqlite::Connection,
    view: Ghost<IndexView>,
}

impl FingerprintIndex {
    /// The committed content of the store.
    pub closed spec fn committed(self) -> IndexContents {
        self.view@.committed
    }

    /// Handle invariant between operations: no transaction is open and
    /// the committed content is well-formed.
    pub closed spec fn inv(self) -> bool {
        &&& self.view@.txn is None
        &&& self.view@.committed.wf()
    }

    /// Placeholder model value for a handle whose content only the
    /// trusted contracts describe.
    fn unknown_view() -> Ghost<IndexView> {
        Ghost(arbitrary())
    }

    /// Relies on `rusqlite::Connection::open` (open or create,
    /// read-write) and `Connection::execute_batch` for the
    /// write-ahead-journaling and foreign-key pragmas. The foreign-key
    /// and unique constraints of the schema keep the content
    /// well-formed on disk, and no transaction is open on a fresh
    /// connection.
    #[verifier::external_body]
    fn open_raw(path: &str) -> (r: Result<FingerprintIndex, rusqlite::Error>)
        ensures
            r is Ok ==> r->Ok_0.inv(),
    {
        let conn = rusqlite::Connection::open(path)?;
        conn.execute_batch("PRAGMA journal_mode = WAL; PRAGMA foreign_keys = ON;")?;
        Ok(FingerprintIndex { conn, view: FingerprintIndex::unknown_view() })
    }

    /// Relies on `Connection::execute_batch`: `CREATE TABLE IF NOT
    /// EXISTS` and `CREATE INDEX IF NOT EXISTS` change the schema only,
    /// never the stored rows, so the content model is untouched.
    #[verifier::external_body]
    fn init_raw(&self) -> (r: Result<(), rusqlite::Error>)
    {
        self.conn.execute_batch(
            "BEGIN;
             CREATE TABLE IF NOT EXISTS songs (
                 song_id INTEGER PRIMARY KEY,
                 name TEXT NOT NULL,
                 file_path TEXT UNIQUE,
                 enrolled_at DATETIME DEFAULT CURRENT_TIMESTAMP
             );
             CREATE TABLE IF NOT EXISTS fingerprints (
                 hash INTEGER NOT NULL,
                 song_id INTEGER NOT NULL,
                 anchor_time_idx INTEGER NOT NULL,
                 FOREIGN KEY (song_id) REFERENCES songs(song_id) ON DELETE CASCADE
             );
             CREATE INDEX IF NOT EXISTS idx_fingerprints_hash ON fingerprints (hash);
             CREATE INDEX IF NOT EXISTS idx_fingerprints_song_id ON fingerprints (song_id);
             COMMIT;",
        )
    }

    /// Relies on `Connection::execute_batch("BEGIN")`: opens a
    /// transaction whose initial view is the committed content; the
    /// committed content itself is untouched.
    #[verifier::external_body]
    fn begin_raw(&mut self) -> (r: Result<(), rusqlite::Error>)
        requires
            old(self).view@.txn is None,
        ensures
            final(self).view@.committed == old(self).view@.committed,
            r is Ok ==> final(self).view@.txn == Some(old(self).view@.committed),
            r is Err ==> final(self).view@.txn is None,
    {
        self.conn.execute_batch("BEGIN")
    }

    /// Relies on `Connection::execute_batch("COMMIT")`: on success the
    /// transaction's view becomes the committed content; on failure
    /// SQLite either keeps the transaction open (e.g. a busy store) or
    /// rolls it back, and the committed content is untouched.
    #[verifier::external_body]
    fn commit_raw(&mut self) -> (r: Result<(), rusqlite::Error>)
        requires
            old(self).view@.txn is Some,
        ensures
            r is Ok ==> final(self).view@.txn is None && final(self).view@.committed
                == old(self).view@.txn->Some_0,
            r is Err ==> final(self).view@.committed == old(self).view@.committed
                && (final(self).view@.txn == old(self).view@.txn || final(self).view@.txn is None),
    {
        self.conn.execute_batch("COMMIT")
    }

    /// Relies on `Connection::execute_batch("ROLLBACK")`: SQLite
    /// abandons any open transaction, so afterwards no transaction is
    /// open and the committed content is untouched (also when the
    /// statement itself reports an error, e.g. because no transaction
    /// was open).
    #[verifier::external_body]
    fn rollback_raw(&mut self)
        ensures
            final(self).view@.committed == old(self).view@.committed,
            final(self).view@.txn is None,
    {
        let _ = self.conn.execute_batch("ROLLBACK");
    }

    /// Relies on `Connection::query_row` running `INSERT INTO songs ..
    /// ON CONFLICT(file_path) DO UPDATE .. RETURNING song_id` inside
    /// the open transaction: with a path that names an existing
    /// recording, that row's name is updated and its id returned;
    /// otherwise a fresh row with a fresh positive id is inserted
    /// (SQLite assigns rowids larger than every id in use, and the
    /// content is well-formed, so ids in use are positive). A failed
    /// statement leaves the transaction view unchanged.
    #[verifier::external_body]
    fn upsert_recording_raw(&mut self, name: &str, source_path: Option<&str>) -> (r: Result<
        i64,
        rusqlite::Error,
    >)
        requires
            old(self).view@.txn is Some,
            old(self).view@.txn->Some_0.wf(),
        ensures
            final(self).view@.committed == old(self).view@.committed,
            r is Err ==> final(self).view@.txn == old(self).view@.txn,
            r is Ok ==> {
                &&& final(self).view@.txn is Some
                &&& recordings_upserted(
                    old(self).view@.txn->Some_0,
                    final(self).view@.txn->Some_0,
                    name@,
                    opt_str_view(source_path),
                    r->Ok_0,
                )
                &&& final(self).view@.txn->Some_0.fingerprints == old(
                    self,
                ).view@.txn->Some_0.fingerprints
            },
    {
        self.conn.query_row(
            "INSERT INTO songs (name, file_path) VALUES (?1, ?2)
             ON CONFLICT(file_path) DO UPDATE SET name = excluded.name, enrolled_at = CURRENT_TIMESTAMP
             RETURNING song_id",
            (name, source_path),
            |row| row.get(0),
        )
    }

    /// Relies on `Connection::execute` running `DELETE FROM
    /// fingerprints WHERE song_id = ?1` inside the open transaction:
    /// afterwards the transaction view holds no rows for `id`. A failed
    /// statement leaves the transaction view unchanged.
    #[verifier::external_body]
    fn delete_fingerprints_raw(&mut self, id: i64) -> (r: Result<(), rusqlite::Error>)
        requires
            old(self).view@.txn is Some,
        ensures
            final(self).view@.committed == old(self).view@.committed,
            r is Err ==> final(self).view@.txn == old(self).view@.txn,
            r is Ok ==> final(self).view@.txn == Some(
                IndexContents {
                    recordings: old(self).view@.txn->Some_0.recordings,
                    fingerprints: old(self).view@.txn->Some_0.fingerprints.insert(
                        id,
                        Seq::empty(),
                    ),
                },
            ),
    {
        self.conn.execute("DELETE FROM fingerprints WHERE song_id = ?1", (id,)).map(|_| ())
    }

    /// Relies on `Connection::execute` running `INSERT INTO
    /// fingerprints (hash, song_id, anchor_time_idx) VALUES (?1, ?2,
    /// ?3)` inside the open transaction; the hash round-trips through
    /// the signed column by two's-complement reinterpretation. On
    /// success one row is appended for `id`, and the enforced foreign
    /// key guarantees `id` references a recording. A failed statement
    /// leaves the transaction view unchanged.
    #[verifier::external_body]
    fn insert_fingerprint_raw(&mut self, hash: u64, id: i64, anchor: i64) -> (r: Result<
        (),
        rusqlite::Error,
    >)
        requires
            old(self).view@.txn is Some,
        ensures
            final(self).view@.committed == old(self).view@.committed,
            r is Err ==> final(self).view@.txn == old(self).view@.txn,
            r is Ok ==> {
                &&& final(self).view@.txn == Some(
                    IndexContents {
                        recordings: old(self).view@.txn->Some_0.recordings,
                        fingerprints: old(self).view@.txn->Some_0.fingerprints.insert(
                            id,
                            (if old(self).view@.txn->Some_0.fingerprints.dom().contains(id) {
                                old(self).view@.txn->Some_0.fingerprints[id]
                            } else {
                                Seq::empty()
                            }).push((hash, anchor)),
                        ),
                    },
                )
                &&& old(self).view@.txn->Some_0.recordings.dom().contains(id)
            },
    {
        self.conn.execute(
            "INSERT INTO fingerprints (hash, song_id, anchor_time_idx) VALUES (?1, ?2, ?3)",
            (hash as i64, id, anchor),
        ).map(|_| ())
    }

    /// Relies on `Connection::prepare` and `Statement::query_map`
    /// running `SELECT song_id, anchor_time_idx FROM fingerprints WHERE
    /// hash = ?1`: the rows are exactly the stored `(recording,
    /// anchor)` entries under that hash, with multiplicity; the hash
    /// round-trips through the signed column by two's-complement
    /// reinterpretation.
    #[verifier::external_body]
    fn lookup_raw(&self, hash: u64) -> (r: Result<Vec<(i64, i64)>, rusqlite::Error>)
        requires
            self.view@.txn is None,
        ensures
            r is Ok ==> forall|id: i64, t: i64|
                #[trigger] occurrences(r->Ok_0@, (id, t)) == stored_count(
                    self.view@.committed,
                    hash,
                    id,
                    t,
                ),
    {
        let mut stmt = self.conn.prepare(
            "SELECT song_id, anchor_time_idx FROM fingerprints WHERE hash = ?1",
        )?;
        let rows = stmt.query_map((hash as i64,), |row| Ok((row.get(0)?, row.get(1)?)))?;
        rows.collect()
    }

    /// Relies on `Connection::query_row` (with `.optional()`) running
    /// `SELECT song_id, name, file_path FROM songs WHERE song_id = ?1`:
    /// no row means no such recording, and a returned row carries that
    /// recording's stored metadata.
    #[verifier::external_body]
    fn select_song_raw(&self, id: i64) -> (r: Result<
        Option<(i64, String, Option<String>)>,
        rusqlite::Error,
    >)
        requires
            self.view@.txn is None,
        ensures
            r is Ok ==> match r->Ok_0 {
                None => !self.view@.committed.recordings.dom().contains(id),
                Some(row) => {
                    &&& row.0 == id
                    &&& self.view@.committed.recordings.dom().contains(id)
                    &&& self.view@.committed.recordings[id].name == row.1@
                    &&& self.view@.committed.recordings[id].source_path == opt_string_view(row.2)
                },
            },
    {
        self.conn.query_row(
            "SELECT song_id, name, file_path FROM songs WHERE song_id = ?1",
            (id,),
            |row| Ok((row.get(0)?, row.get(1)?, row.get(2)?)),
        ).optional()
    }

    /// Relies on `Connection::prepare` and `Statement::query_map`
    /// running `SELECT song_id, name, file_path FROM songs ORDER BY
    /// name ASC`: every recording appears exactly once with its stored
    /// metadata, in ascending binary order of names (which for UTF-8
    /// text is ascending code-point order).
    #[verifier::external_body]
    fn list_songs_raw(&self) -> (r: Result<Vec<(i64, String, Option<String>)>, rusqlite::Error>)
        requires
            self.view@.txn is None,
        ensures
            r is Ok ==> {
                &&& forall|x: int|
                    0 <= x < r->Ok_0@.len() ==> {
                        &&& self.view@.committed.recordings.dom().contains(
                            (#[trigger] r->Ok_0@[x]).0,
                        )
                        &&& self.view@.committed.recordings[r->Ok_0@[x].0].name == r->Ok_0@[x].1@
                        &&& self.view@.committed.recordings[r->Ok_0@[x].0].source_path
                            == opt_string_view(r->Ok_0@[x].2)
                    }
                &&& forall|id: i64|
                    #[trigger] self.view@.committed.recordings.dom().contains(id) ==> exists|x: int|
                        0 <= x < r->Ok_0@.len() && (#[trigger] r->Ok_0@[x]).0 == id
                &&& forall|x1: int, x2: int|
                    0 <= x1 < x2 < r->Ok_0@.len() ==> (#[trigger] r->Ok_0@[x1]).0 != (
                    #[trigger] r->Ok_0@[x2]).0
                &&& forall|x1: int, x2: int|
                    0 <= x1 < x2 < r->Ok_0@.len() ==> str_lex_le(
                        (#[trigger] r->Ok_0@[x1]).1@,
                        (#[trigger] r->Ok_0@[x2]).1@,
                    )
            },
    {
        let mut stmt = self.conn.prepare(
            "SELECT song_id, name, file_path FROM songs ORDER BY name ASC",
        )?;
        let rows = stmt.query_map((), |row| Ok((row.get(0)?, row.get(1)?, row.get(2)?)))?;
        rows.collect()
    }

    /// Enrolls a recording: upserts its metadata keyed by
    /// `source_path`, then atomically replaces all its fingerprint rows
    /// by `fingerprints`. On any error the store content is unchanged.
    pub fn enroll(
        &mut self,
        name: &str,
        source_path: Option<&str>,
        fingerprints: &Vec<Fingerprint>,
    ) -> (r: Result<SongId, IndexError>)
        requires
            old(self).inv(),
            forall|k: int|
                0 <= k < fingerprints@.len() ==> (#[trigger] fingerprints@[k]).anchor_time_idx
                    as int <= i64::MAX as int,
        ensures
            final(self).inv(),
            match r {
                Ok(id) => enroll_ok(
                    old(self).committed(),
                    final(self).committed(),
                    name@,
                    opt_str_view(source_path),
                    prints_of(fingerprints@),
                    id as i64,
                ),
                Err(e) => final(self).committed() == old(self).committed() && (e
                    == IndexError::Storage || e == IndexError::InvalidRecordingId),
            },
    {
        let ghost pre = self.view@.committed;
        if self.begin_raw().is_err() {
            return Err(IndexError::Storage);
        }
        let id = match self.upsert_recording_raw(name, source_path) {
            Ok(id) => id,
            Err(_) => {
                self.rollback_raw();
                return Err(IndexError::Storage);
            },
        };
        if id < 1 || id > u32::MAX as i64 {
            self.rollback_raw();
            return Err(IndexError::InvalidRecordingId);
        }
        proof {
            lemma_upsert_preserves_wf(
                pre,
                self.view@.txn->Some_0,
                name@,
                opt_str_view(source_path),
                id,
            );
        }
        if self.delete_fingerprints_raw(id).is_err() {
            self.rollback_raw();
            return Err(IndexError::Storage);
        }

        let ghost recs_after_upsert = self.view@.txn->Some_0.recordings;
        proof {
            assert(prints_of(fingerprints@.take(0)) =~= Seq::<(u64, i64)>::empty());
        }
        let mut k: usize = 0;
        while k < fingerprints.len()
            invariant
                pre == old(self).view@.committed,
                pre.wf(),
                k <= fingerprints@.len(),
                forall|x: int|
                    0 <= x < fingerprints@.len() ==> (#[trigger] fingerprints@[x]).anchor_time_idx
                        as int <= i64::MAX as int,
                self.view@.committed == pre,
                self.view@.txn is Some,
                self.view@.txn->Some_0.recordings == recs_after_upsert,
                recordings_upserted(
                    pre,
                    self.view@.txn->Some_0,
                    name@,
                    opt_str_view(source_path),
                    id,
                ),
                self.view@.txn->Some_0.fingerprints == pre.fingerprints.insert(
                    id,
                    prints_of(fingerprints@.take(k as int)),
                ),
            decreases fingerprints@.len() - k,
        {
            let fp = fingerprints[k];
            let ghost txn_before = self.view@.txn->Some_0;
            if self.insert_fingerprint_raw(fp.hash, id, fp.anchor_time_idx as i64).is_err() {
                self.rollback_raw();
                return Err(IndexError::Storage);
            }
            proof {
                let old_rows = if txn_before.fingerprints.dom().contains(id) {
                    txn_before.fingerprints[id]
                } else {
                    Seq::empty()
                };
                assert(old_rows == prints_of(fingerprints@.take(k as int)));
                assert(prints_of(fingerprints@.take(k as int + 1)) =~= prints_of(
                    fingerprints@.take(k as int),
                ).push((fp.hash, fp.anchor_time_idx as i64)));
                assert(self.view@.txn->Some_0.fingerprints =~= pre.fingerprints.insert(
                    id,
                    prints_of(fingerprints@.take(k as int + 1)),
                ));
            }
            k += 1;
        }
        proof {
            assert(fingerprints@.take(fingerprints@.len() as int) =~= fingerprints@);
        }
        let ghost txn_final = self.view@.txn->Some_0;
        proof {
            assert(enroll_ok(
                pre,
                txn_final,
                name@,
                opt_str_view(source_path),
                prints_of(fingerprints@),
                id,
            ));
            lemma_enroll_preserves_wf(
                pre,
                txn_final,
                name@,
                opt_str_view(source_path),
                prints_of(fingerprints@),
                id,
            );
        }
        if self.commit_raw().is_err() {
            self.rollback_raw();
            return Err(IndexError::Storage);
        }
        Ok(id as u32)
    }
}

/// Opens (or creates) the fingerprint store at `db_path`, with
/// write-ahead journaling and foreign keys enabled.
pub fn open_db_connection(db_path: &str) -> (r: Result<FingerprintIndex, IndexError>)
    ensures
        r is Ok ==> r->Ok_0.inv(),
        r is Err ==> r->Err_0 == IndexError::Storage,
{
    match FingerprintIndex::open_raw(db_path) {
        Ok(index) => Ok(index),
        Err(_) => Err(IndexError::Storage),
    }
}

/// Idempotently creates the store schema: the two tables and the
/// secondary indexes. The stored content is untouched.
pub fn init_db(index: &FingerprintIndex) -> (r: Result<(), IndexError>)
    ensures
        r is Err ==> r->Err_0 == IndexError::Storage,
{
    match index.init_raw() {
        Ok(()) => Ok(()),
        Err(_) => Err(IndexError::Storage),
    }
}

/// Runs the whole enrollment pipeline on a spectrogram: extracts
/// peaks, hashes them into fingerprints, and enrolls the result under
/// `song_name` / `song_file_path`. Degenerate inputs (an empty
/// spectrogram, no peaks, no fingerprints) are reported as errors
/// without touching the store, exactly when the corresponding pipeline
/// stage comes up empty; on any error the store content is unchanged.
pub fn enroll_song(
    index: &mut FingerprintIndex,
    song_name: &str,
    song_file_path: Option<&str>,
    spectrogram: &Vec<Vec<u32>>,
    neighborhood_time_radius: usize,
    neighborhood_freq_radius: usize,
    min_magnitude_threshold: u32,
    dt_min_frames: usize,
    dt_max_frames: usize,
    df_abs_max_bins: usize,
    max_pairs_per_anchor: usize,
) -> (r: Result<SongId, IndexError>)
    requires
        old(index).inv(),
        rect(grid(spectrogram@)),
        spectrogram@.len() as int <= i64::MAX as int,
    ensures
        final(index).inv(),
        match r {
            Ok(id) => {
                &&& fingerprints_of(
                    grid(spectrogram@),
                    neighborhood_time_radius,
                    neighborhood_freq_radius,
                    min_magnitude_threshold,
                    dt_min_frames,
                    dt_max_frames,
                    df_abs_max_bins,
                    max_pairs_per_anchor,
                ).len() > 0
                &&& enroll_ok(
                    old(index).committed(),
                    final(index).committed(),
                    song_name@,
                    opt_str_view(song_file_path),
                    prints_of(
                        fingerprints_of(
                            grid(spectrogram@),
                            neighborhood_time_radius,
                            neighborhood_freq_radius,
                            min_magnitude_threshold,
                            dt_min_frames,
                            dt_max_frames,
                            df_abs_max_bins,
                            max_pairs_per_anchor,
                        ),
                    ),
                    id as i64,
                )
            },
            Err(e) => {
                &&& final(index).committed() == old(index).committed()
                &&& (e == IndexError::EmptySpectrogram <==> spectrogram@.len() == 0)
                &&& (e == IndexError::NoPeaks <==> spectrogram@.len() > 0 && peaks_spec(
                    grid(spectrogram@),
                    neighborhood_time_radius,
                    neighborhood_freq_radius,
                    min_magnitude_threshold,
                ).len() == 0)
                &&& (e == IndexError::NoFingerprints <==> peaks_spec(
                    grid(spectrogram@),
                    neighborhood_time_radius,
                    neighborhood_freq_radius,
                    min_magnitude_threshold,
                ).len() > 0 && fingerprints_of(
                    grid(spectrogram@),
                    neighborhood_time_radius,
                    neighborhood_freq_radius,
                    min_magnitude_threshold,
                    dt_min_frames,
                    dt_max_frames,
                    df_abs_max_bins,
                    max_pairs_per_anchor,
                ).len() == 0)
            },
        },
{
    if spectrogram.len() == 0 {
        return Err(IndexError::EmptySpectrogram);
    }
    let peaks = find_peaks(
        spectrogram,
        neighborhood_time_radius,
        neighborhood_freq_radius,
        min_magnitude_threshold,
    );
    if peaks.len() == 0 {
        return Err(IndexError::NoPeaks);
    }
    let fingerprints = create_hashes(
        &peaks,
        dt_min_frames,
        dt_max_frames,
        df_abs_max_bins,
        max_pairs_per_anchor,
    );
    if fingerprints.len() == 0 {
        return Err(IndexError::NoFingerprints);
    }
    proof {
        assert forall|x: int| 0 <= x < fingerprints@.len() implies (
        #[trigger] fingerprints@[x]).anchor_time_idx as int <= i64::MAX as int by {
            assert(from_valid_pair(
                peaks@,
                0,
                fingerprints@[x],
                dt_min_frames,
                dt_max_frames,
                df_abs_max_bins,
            ));
            let (a, b) = choose|a: int, b: int|
                0 <= a < b < peaks@.len() && #[trigger] pair_ok(
                    peaks@[a],
                    peaks@[b],
                    dt_min_frames,
                    dt_max_frames,
                    df_abs_max_bins,
                ) && fingerprints@[x] == crate::hashing::fp_of(peaks@[a], peaks@[b]);
            assert(is_peak(
                grid(spectrogram@),
                neighborhood_time_radius,
                neighborhood_freq_radius,
                min_magnitude_threshold,
                peaks@[a].time_idx as int,
                peaks@[a].freq_bin_idx as int,
            ));
        }
    }
    index.enroll(song_name, song_file_path, &fingerprints)
}

/// Returns every stored `(recording_id, anchor_time_idx)` entry under
/// `hash`, with multiplicity.
pub fn lookup(index: &FingerprintIndex, hash: u64) -> (r: Result<Vec<(i64, i64)>, IndexError>)
    requires
        index.inv(),
    ensures
        match r {
            Ok(rows) => forall|id: i64, t: i64|
                #[trigger] occurrences(rows@, (id, t)) == stored_count(
                    index.committed(),
                    hash,
                    id,
                    t,
                ),
            Err(e) => e == IndexError::Storage,
        },
{
    match index.lookup_raw(hash) {
        Ok(rows) => Ok(rows),
        Err(_) => Err(IndexError::Storage),
    }
}

/// Matches the query fingerprints against the store by offset
/// histogram: every hit of every query hash votes for one
/// `(recording, offset)` candidate, and the best-scoring candidate is
/// returned when its score reaches `min_match_score`.
///
/// Per-hash lookup errors are skipped, so the tallied histogram is a
/// sound under-approximation of the true one; the returned candidate
/// beats every candidate of that tally ([`match_post`]). An empty
/// query yields no match.
pub fn query_db_and_match(
    index: &FingerprintIndex,
    query_fingerprints: &Vec<Fingerprint>,
    min_match_score: usize,
) -> (r: Option<MatchResult>)
    requires
        index.inv(),
        forall|k: int|
            0 <= k < query_fingerprints@.len() ==> (
            #[trigger] query_fingerprints@[k]).anchor_time_idx as int <= i64::MAX as int,
    ensures
        query_fingerprints@.len() == 0 ==> r is None,
        r is Some ==> r->Some_0.score >= min_match_score,
        exists|pairs: Seq<(u32, isize)>|
            sound_pairs(index.committed(), query_fingerprints@, pairs) && match_post(
                pairs,
                min_match_score,
                r,
            ),
{
    let ghost c = index.view@.committed;
    let mut pairs: Vec<(u32, isize)> = Vec::new();

    let mut k: usize = 0;
    while k < query_fingerprints.len()
        invariant
            index.inv(),
            c == index.committed(),
            k <= query_fingerprints@.len(),
            forall|x: int|
                0 <= x < query_fingerprints@.len() ==> (
                #[trigger] query_fingerprints@[x]).anchor_time_idx as int <= i64::MAX as int,
            forall|id: u32, d: isize|
                #[trigger] occurrences(pairs@, (id, d)) <= hit_delta_count(
                    c,
                    query_fingerprints@.take(k as int),
                    id as i64,
                    d as int,
                ),
        decreases query_fingerprints@.len() - k,
    {
        let fp = query_fingerprints[k];
        proof {
            assert(query_fingerprints@.take(k as int + 1).drop_last() =~= query_fingerprints@.take(
                k as int,
            ));
            assert(query_fingerprints@.take(k as int + 1).last() == query_fingerprints@[k as int]);
        }
        match index.lookup_raw(fp.hash) {
            Err(_) => {
                proof {
                    assert forall|id: u32, d: isize| #[trigger] occurrences(pairs@, (id, d))
                        <= hit_delta_count(
                        c,
                        query_fingerprints@.take(k as int + 1),
                        id as i64,
                        d as int,
                    ) by {
                        assert(hit_delta_count(
                            c,
                            query_fingerprints@.take(k as int + 1),
                            id as i64,
                            d as int,
                        ) == hit_delta_count(c, query_fingerprints@.take(k as int), id as i64, d as int)
                            + anchor_hit_count(c, query_fingerprints@[k as int], id as i64, d as int));
                    }
                }
            },
            Ok(rows) => {
                let anchor_i64 = fp.anchor_time_idx as i64;
                let mut j: usize = 0;
                while j < rows.len()
                    invariant
                        c == index.committed(),
                        fp == query_fingerprints@[k as int],
                        k < query_fingerprints@.len(),
                        anchor_i64 == fp.anchor_time_idx as i64,
                        fp.anchor_time_idx as int <= i64::MAX as int,
                        j <= rows@.len(),
                        forall|id: i64, t: i64|
                            #[trigger] occurrences(rows@, (id, t)) == stored_count(
                                c,
                                fp.hash,
                                id,
                                t,
                            ),
                        forall|id: u32, d: isize|
                            #[trigger] occurrences(pairs@, (id, d)) <= hit_delta_count(
                                c,
                                query_fingerprints@.take(k as int),
                                id as i64,
                                d as int,
                            ) + row_delta_count(
                                rows@.take(j as int),
                                anchor_i64 as int,
                                id as i64,
                                d as int,
                            ),
                    decreases rows@.len() - j,
                {
                    let row = rows[j];
                    proof {
                        assert(rows@.take(j as int + 1).drop_last() =~= rows@.take(j as int));
                        assert(rows@.take(j as int + 1).last() == rows@[j as int]);
                    }
                    let mut matched: bool = false;
                    let ghost pairs_before = pairs@;
                    if row.0 >= 0 && row.0 <= u32::MAX as i64 {
                        if let Some(delta) = row.1.checked_sub(anchor_i64) {
                            let lo = isize::MIN as i64;
                            let hi = isize::MAX as i64;
                            if delta >= lo && delta <= hi {
                                pairs.push((row.0 as u32, delta as isize));
                                matched = true;
                            }
                        }
                    }
                    proof {
                        assert forall|id: u32, d: isize| #[trigger] occurrences(pairs@, (id, d))
                            <= hit_delta_count(
                            c,
                            query_fingerprints@.take(k as int),
                            id as i64,
                            d as int,
                        ) + row_delta_count(
                            rows@.take(j as int + 1),
                            anchor_i64 as int,
                            id as i64,
                            d as int,
                        ) by {
                            if matched {
                                assert(pairs@.drop_last() =~= pairs_before);
                            }
                            assert(occurrences(pairs@, (id, d)) <= occurrences(pairs_before, (id, d))
                                + if matched && pairs@.last() == (id, d) {
                                1nat
                            } else {
                                0nat
                            });
                            assert(row_delta_count(
                                rows@.take(j as int + 1),
                                anchor_i64 as int,
                                id as i64,
                                d as int,
                            ) == row_delta_count(
                                rows@.take(j as int),
                                anchor_i64 as int,
                                id as i64,
                                d as int,
                            ) + if rows@[j as int].0 == id as i64 && rows@[j as int].1 - anchor_i64
                                == d as int {
                                1nat
                            } else {
                                0nat
                            });
                            if matched && pairs@.last() == (id, d) {
                                assert(rows@[j as int].0 == id as i64);
                                assert(rows@[j as int].1 - anchor_i64 == d as int);
                            }
                        }
                    }
                    j += 1;
                }
                proof {
                    assert(rows@.take(rows@.len() as int) =~= rows@);
                    assert forall|id: u32, d: isize| #[trigger] occurrences(pairs@, (id, d))
                        <= hit_delta_count(
                        c,
                        query_fingerprints@.take(k as int + 1),
                        id as i64,
                        d as int,
                    ) by {
                        lemma_row_delta_count_as_occurrences(
                            rows@,
                            anchor_i64 as int,
                            id as i64,
                            d as int,
                        );
                        assert(hit_delta_count(
                            c,
                            query_fingerprints@.take(k as int + 1),
                            id as i64,
                            d as int,
                        ) == hit_delta_count(c, query_fingerprints@.take(k as int), id as i64, d as int)
                            + anchor_hit_count(c, query_fingerprints@[k as int], id as i64, d as int));
                        assert(row_delta_count(rows@, anchor_i64 as int, id as i64, d as int)
                            == anchor_hit_count(c, query_fingerprints@[k as int], id as i64, d as int));
                    }
                }
            },
        }
        k += 1;
    }
    proof {
        assert(query_fingerprints@.take(query_fingerprints@.len() as int)
            =~= query_fingerprints@);
    }
    let r = crate::matching::best_match(&pairs, min_match_score);
    proof {
        assert(sound_pairs(c, query_fingerprints@, pairs@) && match_post(
            pairs@,
            min_match_score,
            r,
        ));
    }
    r
}

/// Fetches the metadata of recording `song_id`, or `None` when no such
/// recording is enrolled.
pub fn get_song_info(index: &FingerprintIndex, song_id: SongId) -> (r: Result<
    Option<Song>,
    IndexError,
>)
    requires
        index.inv(),
    ensures
        match r {
            Ok(opt) => match opt {
                None => !index.committed().recordings.dom().contains(song_id as i64),
                Some(song) => {
                    &&& song.id == song_id
                    &&& index.committed().recordings.dom().contains(song_id as i64)
                    &&& index.committed().recordings[song_id as i64].name == song.name@
                    &&& index.committed().recordings[song_id as i64].source_path
                        == opt_string_view(song.file_path)
                },
            },
            Err(e) => e == IndexError::Storage,
        },
{
    match index.select_song_raw(song_id as i64) {
        Ok(None) => Ok(None),
        Ok(Some(row)) => Ok(Some(Song { id: song_id, name: row.1, file_path: row.2 })),
        Err(_) => Err(IndexError::Storage),
    }
}

/// Lists every enrolled recording, ordered by name (ascending
/// code-point order). Fails with [`IndexError::InvalidRecordingId`]
/// when the store holds an id outside the `SongId` range.
pub fn list_recordings(index: &FingerprintIndex) -> (r: Result<Vec<Song>, IndexError>)
    requires
        index.inv(),
    ensures
        match r {
            Ok(songs) => {
                &&& forall|x: int|
                    0 <= x < songs@.len() ==> {
                        &&& index.committed().recordings.dom().contains(
                            (#[trigger] songs@[x]).id as i64,
                        )
                        &&& index.committed().recordings[songs@[x].id as i64].name
                            == songs@[x].name@
                        &&& index.committed().recordings[songs@[x].id as i64].source_path
                            == opt_string_view(songs@[x].file_path)
                    }
                &&& forall|id: i64|
                    #[trigger] index.committed().recordings.dom().contains(id) ==> exists|x: int|
                        0 <= x < songs@.len() && (#[trigger] songs@[x]).id as i64 == id
                &&& forall|x1: int, x2: int|
                    0 <= x1 < x2 < songs@.len() ==> (#[trigger] songs@[x1]).id != (
                    #[trigger] songs@[x2]).id
                &&& forall|x1: int, x2: int|
                    0 <= x1 < x2 < songs@.len() ==> str_lex_le(
                        (#[trigger] songs@[x1]).name@,
                        (#[trigger] songs@[x2]).name@,
                    )
            },
            Err(e) => e == IndexError::Storage || e == IndexError::InvalidRecordingId,
        },
{
    let mut rows = match index.list_songs_raw() {
        Ok(rows) => rows,
        Err(_) => {
            return Err(IndexError::Storage);
        },
    };
    let ghost all = rows@;
    let n = rows.len();
    let mut songs: Vec<Song> = Vec::new();
    let mut i: usize = 0;
    while i < n
        invariant
            n == all.len(),
            i <= all.len(),
            rows@ == all.skip(i as int),
            songs@.len() == i,
            forall|x: int|
                0 <= x < i ==> (#[trigger] songs@[x]).id as i64 == all[x].0 && songs@[x].name
                    == all[x].1 && songs@[x].file_path == all[x].2,
        decreases all.len() - i,
    {
        let row = rows.remove(0);
        proof {
            assert(all.skip(i as int)[0] == all[i as int]);
            assert(all.skip(i as int).subrange(1, all.skip(i as int).len() as int) =~= all.skip(
                i as int + 1,
            ));
        }
        if row.0 < 1 || row.0 > u32::MAX as i64 {
            return Err(IndexError::InvalidRecordingId);
        }
        songs.push(Song { id: row.0 as u32, name: row.1, file_path: row.2 });
        i += 1;
    }
    proof {
        assert(songs@.len() == all.len());
        assert forall|id: i64| #[trigger] index.committed().recordings.dom().contains(id)
            implies exists|x: int| 0 <= x < songs@.len() && (#[trigger] songs@[x]).id as i64
            == id by {
            let x = choose|x: int| 0 <= x < all.len() && (#[trigger] all[x]).0 == id;
            assert(songs@[x].id as i64 == id);
        }
    }
    Ok(songs)
}

} // verus!
