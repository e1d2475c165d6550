//! The upload ingestor: materializes a bounded byte stream, partitioned
//! into named parts, as files under a Fresh token's directory, and consumes
//! the token once every part has been processed.
//!
//! Each part's file row is registered Started before any byte lands on
//! disk, so a crash mid-write leaves a discoverable row rather than silent
//! loss; rows of failed parts stay Started for the reaper to reconcile.
//! The caller streams the real bytes and reports each chunk's size here.

use vstd::prelude::*;
use vstd::string::*;

use crate::db::{
    clone_opt_string, completed_file, consume_map, has_live_fresh, is_live, new_file, CreateFile,
    File, Store, MAX_EXPIRY_SECS,
};
use crate::disk::Disk;

verus! {

/// Number of bytes in one mebibyte.
pub const MIB: u64 = 1048576;

/// Fixed, generous allowance in bytes on top of a token's size limit, for
/// the framing around the raw file bytes.
pub const FRAMING_ALLOWANCE: u64 = 10240;

/// How one ingest attempt ended.
#[derive(Clone, Copy, Debug, PartialEq, Eq, Structural)]
pub enum UploadOutcome {
    /// Every part landed; the token is now Used.
    Completed,
    /// No live Fresh token at that path; nothing was touched.
    NotFound,
    /// A part exceeded the token's byte budget; the token stays Fresh.
    TooLarge,
    /// The stream broke mid-part; the token stays Fresh.
    Interrupted,
}

/// One part of the incoming stream, as the decoding layer hands it over:
/// the client-supplied file name and content type, the sizes of the chunks
/// that arrived, and whether the stream broke before the part ended.
#[derive(Debug)]
pub struct PartInput {
    pub file_name: Option<String>,
    pub content_type: Option<String>,
    pub chunks: Vec<u64>,
    pub interrupted: bool,
}

/// A part that names a file; parts with no name, or an empty one, are
/// skipped entirely.
pub open spec fn part_named(p: PartInput) -> bool {
    p.file_name matches Some(n) && n@.len() > 0
}

/// The file name of a named part.
pub open spec fn part_name(p: PartInput) -> String {
    match p.file_name {
        Some(n) => n,
        None => vstd::pervasive::arbitrary(),
    }
}

/// Total size of the received chunks, in bytes.
pub open spec fn chunks_total(cs: Seq<u64>) -> int
    decreases cs.len(),
{
    if cs.len() == 0 {
        0
    } else {
        chunks_total(cs.drop_last()) + cs.last()
    }
}

/// A prefix of the chunks, plus the next chunk, never exceeds the total.
proof fn lemma_chunks_prefix(cs: Seq<u64>, k: int)
    requires
        0 <= k < cs.len(),
    ensures
        chunks_total(cs.take(k)) + cs[k] <= chunks_total(cs),
    decreases cs.len(),
{
    if k == cs.len() - 1 {
        assert(cs.take(k) =~= cs.drop_last());
    } else {
        lemma_chunks_prefix(cs.drop_last(), k);
        assert(cs.drop_last().take(k) =~= cs.take(k));
    }
}

/// The byte budget a size limit stands for: the limit plus the framing
/// allowance, or no bound at all.
pub open spec fn budget_of(max_size_mib: Option<u32>) -> Option<int> {
    match max_size_mib {
        Some(m) => Some((m as int) * (MIB as int) + (FRAMING_ALLOWANCE as int)),
        None => None,
    }
}

/// An optional byte count, widened.
pub open spec fn opt_int(o: Option<u64>) -> Option<int> {
    match o {
        Some(x) => Some(x as int),
        None => None,
    }
}

/// The remaining budget after spending `total` bytes.
pub open spec fn rem_after(rem: Option<int>, total: int) -> Option<int> {
    match rem {
        Some(r) => Some(r - total),
        None => None,
    }
}

/// The file row a part is registered under.
pub open spec fn part_row(p: PartInput, tid: i64, id: int, now: i64) -> File {
    new_file(
        id as i64,
        CreateFile {
            token_id: tid,
            name: p.file_name,
            path: part_name(p),
            content_type: p.content_type,
        },
        now,
    )
}

/// What processing one more part does to the file table, the id counter,
/// the remaining budget and the failure state. After a failure everything
/// is left as it stands.
pub open spec fn ingest_step(
    acc: (Seq<File>, int, Option<int>, Option<UploadOutcome>),
    p: PartInput,
    tid: i64,
    now: i64,
) -> (Seq<File>, int, Option<int>, Option<UploadOutcome>) {
    let (fs, id, rem, fail) = acc;
    if fail is Some {
        acc
    } else if !part_named(p) {
        acc
    } else {
        let row = part_row(p, tid, id, now);
        let total = chunks_total(p.chunks@);
        if rem matches Some(r) && total > r {
            (fs.push(row), id + 1, rem, Some(UploadOutcome::TooLarge))
        } else if p.interrupted {
            (fs.push(row), id + 1, rem_after(rem, total), Some(UploadOutcome::Interrupted))
        } else {
            (fs.push(completed_file(row)), id + 1, rem_after(rem, total), None)
        }
    }
}

/// Processing a sequence of parts, left to right, stopping at the first
/// failure.
pub open spec fn ingest_parts(
    fs: Seq<File>,
    tid: i64,
    next_id: int,
    rem: Option<int>,
    parts: Seq<PartInput>,
    now: i64,
) -> (Seq<File>, int, Option<int>, Option<UploadOutcome>)
    decreases parts.len(),
{
    if parts.len() == 0 {
        (fs, next_id, rem, None)
    } else {
        ingest_step(
            ingest_parts(fs, tid, next_id, rem, parts.drop_last(), now),
            parts.last(),
            tid,
            now,
        )
    }
}

/// Once a prefix of the parts has failed, the remaining parts change
/// nothing.
proof fn lemma_ingest_parts_fail_stable(
    fs: Seq<File>,
    tid: i64,
    next_id: int,
    rem: Option<int>,
    parts: Seq<PartInput>,
    k: int,
    now: i64,
)
    requires
        0 <= k <= parts.len(),
        ingest_parts(fs, tid, next_id, rem, parts.take(k), now).3 is Some,
    ensures
        ingest_parts(fs, tid, next_id, rem, parts, now) == ingest_parts(
            fs,
            tid,
            next_id,
            rem,
            parts.take(k),
            now,
        ),
    decreases parts.len(),
{
    if parts.len() == k {
        assert(parts.take(k) =~= parts);
    } else {
        assert(parts.drop_last().take(k) =~= parts.take(k));
        lemma_ingest_parts_fail_stable(fs, tid, next_id, rem, parts.drop_last(), k, now);
    }
}

/// What one ingest run did to the store, through the token at index `i`:
/// the file table and id counter follow the part fold; the token is
/// consumed exactly when no part failed.
pub open spec fn ingest_store_post(
    s0: Store,
    s1: Store,
    i: int,
    parts: Seq<PartInput>,
    now: i64,
    r: UploadOutcome,
) -> bool {
    let tr = ingest_parts(
        s0.files(),
        s0.tokens()[i].id,
        s0.next_file_id() as int,
        budget_of(s0.tokens()[i].max_size_mib),
        parts,
        now,
    );
    &&& s1.files() == tr.0
    &&& s1.next_file_id() == tr.1
    &&& match tr.3 {
        None => r == UploadOutcome::Completed && s1.tokens() == consume_map(
            s0.tokens(),
            s0.tokens()[i].id,
            now,
        ),
        Some(o) => r == o && s1.tokens() == s0.tokens(),
    }
}

/// The store effect of an ingest run that found its token: some live Fresh
/// token at `path` carried it.
pub open spec fn ingest_post(
    s0: Store,
    s1: Store,
    parts: Seq<PartInput>,
    path: Seq<char>,
    now: i64,
    r: UploadOutcome,
) -> bool {
    exists|i: int|
        {
            &&& 0 <= i < s0.tokens().len()
            &&& (#[trigger] s0.tokens()[i]).path@ == path
            &&& is_live(s0.tokens()[i], now)
            &&& s0.tokens()[i].status is Fresh
            &&& ingest_store_post(s0, s1, i, parts, now, r)
        }
}

/// Streams one upload session through the token at `token_path`.
///
/// Resolves the token (it must be live and Fresh), then for every named
/// part: creates the token's directory if absent, registers a Started file
/// row before any byte is counted, spends the chunk sizes against the
/// token's byte budget, and on success promotes the row to Completed.
/// Exceeding the budget or a broken stream aborts the whole ingest: the
/// row of the failing part stays Started and the token stays Fresh. After
/// all parts (even zero files), the token is consumed. The caller
/// serializes this with every other store mutation and mirrors the
/// directory and file operations onto the real filesystem.
#[verifier::loop_isolation(false)]
pub fn ingest(
    store: &mut Store,
    disk: &mut Disk,
    token_path: &String,
    now: i64,
    parts: &Vec<PartInput>,
) -> (r: UploadOutcome)
    requires
        old(store).wf(),
        old(store).next_file_id() + parts@.len() <= i64::MAX,
        now <= i64::MAX - MAX_EXPIRY_SECS,
    ensures
        final(store).wf(),
        final(store).users() == old(store).users(),
        final(store).next_token_id() == old(store).next_token_id(),
        (r == UploadOutcome::NotFound) <==> !has_live_fresh(
            old(store).tokens(),
            token_path@,
            now,
        ),
        r == UploadOutcome::NotFound ==> *final(store) == *old(store) && (forall|d: Seq<char>|
            #[trigger] final(disk).has_dir(d) == old(disk).has_dir(d)) && (forall|
            d: Seq<char>,
            n: Seq<char>,
        |
            #[trigger] final(disk).has_file(d, n) == old(disk).has_file(d, n)),
        r != UploadOutcome::NotFound ==> ingest_post(
            *old(store),
            *final(store),
            parts@,
            token_path@,
            now,
            r,
        ),
        forall|d: Seq<char>| old(disk).has_dir(d) ==> #[trigger] final(disk).has_dir(d),
        forall|d: Seq<char>|
            d != token_path@ ==> #[trigger] final(disk).has_dir(d) == old(disk).has_dir(d),
        forall|d: Seq<char>, n: Seq<char>|
            old(disk).has_file(d, n) ==> #[trigger] final(disk).has_file(d, n),
        forall|d: Seq<char>, n: Seq<char>|
            d != token_path@ ==> #[trigger] final(disk).has_file(d, n) == old(disk).has_file(d, n),
        r == UploadOutcome::Completed ==> forall|k: int|
            0 <= k < parts@.len() && part_named(#[trigger] parts@[k]) ==> final(disk).has_file(
                token_path@,
                part_name(parts@[k])@,
            ),
{
    let tok = match store.get_live_fresh_token(token_path, now) {
        None => {
            return UploadOutcome::NotFound;
        },
        Some(t) => t,
    };
    let ghost gi = choose|i: int|
        0 <= i < store.tokens().len() && #[trigger] store.tokens()[i] == tok;
    proof {
        assert(0 <= gi < store.tokens().len() && store.tokens()[gi] == tok);
        assert(tok.status is Fresh);
        assert(has_live_fresh(store.tokens(), token_path@, now));
    }
    let mut remaining: Option<u64> = match tok.max_size_mib {
        Some(m) => Some((m as u64) * MIB + FRAMING_ALLOWANCE),
        None => None,
    };
    let ghost budget0 = budget_of(tok.max_size_mib);
    let ghost fs0 = store.files();
    let ghost id0 = store.next_file_id() as int;
    let tid = tok.id;
    let np = parts.len();
    let mut p: usize = 0;
    while p < np
        invariant
            0 <= p <= np,
            np == parts@.len(),
            ingest_parts(fs0, tid, id0, budget0, parts@.take(p as int), now).3 is None,
            store.files() == ingest_parts(fs0, tid, id0, budget0, parts@.take(p as int), now).0,
            store.next_file_id() as int == ingest_parts(
                fs0,
                tid,
                id0,
                budget0,
                parts@.take(p as int),
                now,
            ).1,
            opt_int(remaining) == ingest_parts(
                fs0,
                tid,
                id0,
                budget0,
                parts@.take(p as int),
                now,
            ).2,
            store.next_file_id() <= old(store).next_file_id() + p,
            store.tokens() == old(store).tokens(),
            store.users() == old(store).users(),
            store.next_token_id() == old(store).next_token_id(),
            store.wf(),
            forall|d: Seq<char>| old(disk).has_dir(d) ==> #[trigger] disk.has_dir(d),
            forall|d: Seq<char>|
                d != token_path@ ==> #[trigger] disk.has_dir(d) == old(disk).has_dir(d),
            forall|d: Seq<char>, n: Seq<char>| old(disk).has_file(d, n) ==> #[trigger] disk
                .has_file(d, n),
            forall|d: Seq<char>, n: Seq<char>|
                d != token_path@ ==> #[trigger] disk.has_file(d, n) == old(disk).has_file(d, n),
            forall|k: int|
                0 <= k < p && part_named(#[trigger] parts@[k]) ==> disk.has_file(
                    token_path@,
                    part_name(parts@[k])@,
                ),
        decreases np - p,
    {
        proof {
            assert(parts@.take(p + 1).drop_last() =~= parts@.take(p as int));
            assert(parts@.take(p + 1).last() == parts@[p as int]);
        }
        let part = &parts[p];
        let name = match &part.file_name {
            Some(nm) => nm.clone(),
            None => String::new(),
        };
        let named = !name.as_str().is_empty();
        if named {
            disk.create_dir_all(token_path);
            disk.write_file(token_path, &name);
            let row = store.create_file(
                CreateFile {
                    token_id: tid,
                    name: clone_opt_string(&part.file_name),
                    path: name,
                    content_type: clone_opt_string(&part.content_type),
                },
                now,
            );
            let ghost fs_started = store.files();
            proof {
                assert(part_named(parts@[p as int]));
                assert(row == part_row(
                    parts@[p as int],
                    tid,
                    ingest_parts(fs0, tid, id0, budget0, parts@.take(p as int), now).1,
                    now,
                ));
            }
            let nc = part.chunks.len();
            let ghost rem_before = opt_int(remaining);
            let mut c: usize = 0;
            while c < nc
                invariant
                    0 <= c <= nc,
                    nc == part.chunks@.len(),
                    opt_int(remaining) == rem_after(
                        rem_before,
                        chunks_total(part.chunks@.take(c as int)),
                    ),
                    rem_before matches Some(r) ==> chunks_total(part.chunks@.take(c as int)) <= r,
                decreases nc - c,
            {
                proof {
                    assert(part.chunks@.take(c + 1).drop_last() =~= part.chunks@.take(c as int));
                    assert(part.chunks@.take(c + 1).last() == part.chunks@[c as int]);
                }
                let ch = part.chunks[c];
                let proceed = match remaining {
                    Some(rem) => {
                        if ch > rem {
                            false
                        } else {
                            remaining = Some(rem - ch);
                            true
                        }
                    },
                    None => true,
                };
                if !proceed {
                    proof {
                        lemma_chunks_prefix(part.chunks@, c as int);
                        assert(rem_before matches Some(r) && chunks_total(part.chunks@) > r);
                        assert(ingest_parts(fs0, tid, id0, budget0, parts@.take(p + 1), now).3
                            == Some(UploadOutcome::TooLarge));
                        assert(ingest_parts(fs0, tid, id0, budget0, parts@.take(p + 1), now).0
                            == fs_started);
                        lemma_ingest_parts_fail_stable(fs0, tid, id0, budget0, parts@, p + 1, now);
                        assert(ingest_store_post(
                            *old(store),
                            *store,
                            gi,
                            parts@,
                            now,
                            UploadOutcome::TooLarge,
                        ));
                        assert(ingest_post(
                            *old(store),
                            *store,
                            parts@,
                            token_path@,
                            now,
                            UploadOutcome::TooLarge,
                        ));
                    }
                    return UploadOutcome::TooLarge;
                }
                c += 1;
            }
            proof {
                assert(part.chunks@.take(nc as int) =~= part.chunks@);
                assert(rem_before matches Some(r) ==> chunks_total(part.chunks@) <= r);
            }
            if part.interrupted {
                proof {
                    assert(ingest_parts(fs0, tid, id0, budget0, parts@.take(p + 1), now).3
                        == Some(UploadOutcome::Interrupted));
                    assert(ingest_parts(fs0, tid, id0, budget0, parts@.take(p + 1), now).0
                        == fs_started);
                    lemma_ingest_parts_fail_stable(fs0, tid, id0, budget0, parts@, p + 1, now);
                    assert(ingest_store_post(
                        *old(store),
                        *store,
                        gi,
                        parts@,
                        now,
                        UploadOutcome::Interrupted,
                    ));
                    assert(ingest_post(
                        *old(store),
                        *store,
                        parts@,
                        token_path@,
                        now,
                        UploadOutcome::Interrupted,
                    ));
                }
                return UploadOutcome::Interrupted;
            }
            store.complete_upload(row.id);
            proof {
                let fs_done = ingest_parts(fs0, tid, id0, budget0, parts@.take(p + 1), now).0;
                assert(store.files() =~= fs_done);
            }
        } else {
            proof {
                assert(!part_named(parts@[p as int]));
                assert(ingest_parts(fs0, tid, id0, budget0, parts@.take(p + 1), now)
                    == ingest_parts(fs0, tid, id0, budget0, parts@.take(p as int), now));
            }
        }
        p += 1;
    }
    proof {
        assert(parts@.take(np as int) =~= parts@);
    }
    store.consume_token(tid, now);
    proof {
        assert(ingest_store_post(*old(store), *store, gi, parts@, now, UploadOutcome::Completed));
        assert(ingest_post(
            *old(store),
            *store,
            parts@,
            token_path@,
            now,
            UploadOutcome::Completed,
        ));
    }
    UploadOutcome::Completed
}

} // verus!
