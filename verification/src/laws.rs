//! The engine's cross-operation laws, proved once and for all: duplicate
//! creation is refused, consumption and reaping are idempotent, a reaper
//! pass reclaims everything whose content deadline has passed, and an
//! upload round-trips into exactly the content it carried.

use vstd::prelude::*;

use crate::cleanup::{
    cleanup_files_spec, cleanup_post, cleanup_tokens_spec, content_files_reclaimed, dir_doomed,
    doomed_token_at, expired_ids, lemma_expired_ids_contains, token_ids_unique,
};
use crate::db::{
    completed_file, completed_files_of, consume_map, consumed_token, content_expired,
    has_live_token, is_live, mark_files_deleted, mark_tokens_deleted, new_token, reap_map,
    reap_ready, survives_reaping, token_deleted_mark, CreateToken, File, Store, Token,
};
use crate::disk::Disk;
use crate::ingest::{
    budget_of, chunks_total, ingest_parts, ingest_step, part_named, part_row, PartInput,
    UploadOutcome,
};

verus! {

/// Law: while a minted token is live, a second creation request for the
/// same path meets the duplicate check. Together with `create_token`'s
/// contract — which refuses exactly when a live token occupies the path —
/// this says the second of two back-to-back requests fails with
/// `TokenAlreadyExists` whenever it runs before the first token expires.
pub proof fn lemma_request_token_twice(
    s0: Store,
    s1: Store,
    t: Token,
    tok: CreateToken,
    now1: i64,
    now2: i64,
)
    requires
        t == new_token(s0.next_token_id(), tok, now1),
        s1.tokens() == s0.tokens().push(t),
        now2 <= tok.token_expires_at,
    ensures
        has_live_token(s1.tokens(), tok.path@, now2),
{
    let n = s0.tokens().len() as int;
    assert(s1.tokens()[n] == t);
    assert(is_live(t, now2));
}

/// Law: consuming a token is idempotent in effect on the store. The first
/// consume flips the one Fresh row; a second consume of the same token,
/// at the same or any other instant, is a no-op.
pub proof fn lemma_consume_idempotent(ts: Seq<Token>, token_id: i64, now1: i64, now2: i64)
    ensures
        consume_map(consume_map(ts, token_id, now1), token_id, now2) == consume_map(
            ts,
            token_id,
            now1,
        ),
{
    let ts1 = consume_map(ts, token_id, now1);
    assert forall|i: int| 0 <= i < ts1.len() implies #[trigger] consume_map(ts1, token_id, now2)[i]
        == ts1[i] by {
        if ts[i].id == token_id && ts[i].status is Fresh {
            assert(ts1[i] == consumed_token(ts[i], now1));
            assert(!(ts1[i].status is Fresh));
        }
    }
    assert(consume_map(ts1, token_id, now2) =~= ts1);
}

/// No row is content-expired: the id list of a sweep is empty.
proof fn lemma_expired_ids_empty(ts: Seq<Token>, now: i64)
    requires
        forall|i: int| 0 <= i < ts.len() ==> !content_expired(#[trigger] ts[i], now),
    ensures
        expired_ids(ts, now) == Seq::<i64>::empty(),
    decreases ts.len(),
{
    if ts.len() > 0 {
        assert(!content_expired(ts[ts.len() - 1], now));
        lemma_expired_ids_empty(ts.drop_last(), now);
    }
}

/// After one pass at `now`, no token is still content-expired or
/// reap-ready at `now`.
proof fn lemma_cleanup_settles(ts: Seq<Token>, now: i64, i: int)
    requires
        token_ids_unique(ts),
        0 <= i < ts.len(),
    ensures
        !content_expired(cleanup_tokens_spec(ts, now)[i], now),
        !reap_ready(cleanup_tokens_spec(ts, now)[i], now),
{
    let ids = expired_ids(ts, now);
    let marked = mark_tokens_deleted(ts, ids, now);
    let ts1 = cleanup_tokens_spec(ts, now);
    if ids.contains(ts[i].id) {
        assert(marked[i] == token_deleted_mark(ts[i], now));
        assert(ts1[i].deleted_at is Some);
    } else {
        assert(marked[i] == ts[i]);
        if reap_ready(ts[i], now) {
            assert(ts1[i] == token_deleted_mark(ts[i], now));
            assert(ts1[i].deleted_at is Some);
        } else {
            assert(ts1[i] == ts[i]);
            if content_expired(ts[i], now) {
                lemma_expired_ids_contains(ts, now, ts[i].id);
                assert(ids.contains(ts[i].id));
                assert(false);
            }
        }
    }
}

/// Law: a reaper pass is idempotent on the store: an immediate second pass
/// at the same instant changes neither the token table nor the file
/// table.
pub proof fn lemma_cleanup_idempotent(ts: Seq<Token>, fs: Seq<File>, now: i64)
    requires
        token_ids_unique(ts),
    ensures
        cleanup_tokens_spec(cleanup_tokens_spec(ts, now), now) == cleanup_tokens_spec(ts, now),
        cleanup_files_spec(cleanup_files_spec(fs, ts, now), cleanup_tokens_spec(ts, now), now)
            == cleanup_files_spec(fs, ts, now),
{
    let ts1 = cleanup_tokens_spec(ts, now);
    let fs1 = cleanup_files_spec(fs, ts, now);
    assert forall|i: int| 0 <= i < ts1.len() implies !content_expired(
        #[trigger] ts1[i],
        now,
    ) by {
        lemma_cleanup_settles(ts, now, i);
    }
    lemma_expired_ids_empty(ts1, now);
    let marked1 = mark_tokens_deleted(ts1, expired_ids(ts1, now), now);
    assert(marked1 =~= ts1);
    assert forall|i: int| 0 <= i < ts1.len() implies #[trigger] reap_map(marked1, now)[i]
        == ts1[i] by {
        lemma_cleanup_settles(ts, now, i);
        assert(marked1[i] == ts1[i]);
    }
    assert(reap_map(marked1, now) =~= ts1);
    assert(mark_files_deleted(fs1, expired_ids(ts1, now), now) =~= fs1);
}

/// Law: after one reaper pass, every token whose content deadline lies
/// strictly in the past is Deleted with its deletion time set; every file
/// of a token the pass reclaimed is marked deleted; and no directory
/// remains for any token the pass found content-expired.
pub proof fn lemma_cleanup_reclaims_expired(s0: Store, s1: Store, d0: Disk, d1: Disk, now: i64)
    requires
        s0.wf(),
        cleanup_post(s0, s1, d0, d1, now),
    ensures
        forall|i: int|
            0 <= i < s1.tokens().len() && ((#[trigger] s1.tokens()[i]).content_expires_at
                matches Some(c) && c < now) ==> s1.tokens()[i].status is Deleted
                && s1.tokens()[i].deleted_at is Some,
        forall|i: int, j: int|
            0 <= i < s0.tokens().len() && content_expired(#[trigger] s0.tokens()[i], now) && 0 <= j
                < s1.files().len() && (#[trigger] s1.files()[j]).token_id == s0.tokens()[i].id
                ==> s1.files()[j].deleted_at is Some,
        forall|i: int|
            0 <= i < s0.tokens().len() && content_expired(#[trigger] s0.tokens()[i], now)
                && !survives_reaping(s0.tokens(), s0.tokens()[i].path@, now) ==> !d1.has_dir(
                s0.tokens()[i].path@,
            ),
{
    let ts = s0.tokens();
    let ids = expired_ids(ts, now);
    let marked = mark_tokens_deleted(ts, ids, now);
    let ts1 = cleanup_tokens_spec(ts, now);
    assert forall|i: int|
        0 <= i < ts1.len() && ((#[trigger] ts1[i]).content_expires_at matches Some(c) && c
            < now) implies ts1[i].status is Deleted && ts1[i].deleted_at is Some by {
        if ids.contains(ts[i].id) {
            assert(marked[i] == token_deleted_mark(ts[i], now));
        } else {
            assert(marked[i] == ts[i]);
            if !reap_ready(ts[i], now) {
                assert(ts1[i] == ts[i]);
                if ts[i].deleted_at is None {
                    assert(content_expired(ts[i], now));
                    lemma_expired_ids_contains(ts, now, ts[i].id);
                    assert(false);
                }
            }
        }
    }
    assert forall|i: int, j: int|
        0 <= i < ts.len() && content_expired(#[trigger] ts[i], now) && 0 <= j < s1.files().len()
            && (#[trigger] s1.files()[j]).token_id == ts[i].id implies s1.files()[j].deleted_at
        is Some by {
        lemma_expired_ids_contains(ts, now, ts[i].id);
        assert(ids.contains(s0.files()[j].token_id));
    }
    assert forall|i: int|
        0 <= i < ts.len() && content_expired(#[trigger] ts[i], now) && !survives_reaping(
            ts,
            ts[i].path@,
            now,
        ) implies !d1.has_dir(ts[i].path@) by {
        assert(doomed_token_at(ts, now, ts[i].path@));
        assert(dir_doomed(ts, now, ts[i].path@));
    }
}

/// Law (strengthening of the reclamation law): a pass preserves the
/// consistency that deleted content-bearing tokens have their files
/// marked — and under that consistency, after the pass *every* token with
/// a past content deadline, whether this pass flipped it or an earlier
/// one did, has all of its files marked deleted.
pub proof fn lemma_cleanup_reclaims_all_expired(
    s0: Store,
    s1: Store,
    d0: Disk,
    d1: Disk,
    now: i64,
)
    requires
        s0.wf(),
        cleanup_post(s0, s1, d0, d1, now),
        content_files_reclaimed(s0.tokens(), s0.files()),
    ensures
        forall|i: int, j: int|
            0 <= i < s1.tokens().len() && ((#[trigger] s1.tokens()[i]).content_expires_at
                matches Some(c) && c < now) && 0 <= j < s1.files().len() && (
            #[trigger] s1.files()[j]).token_id == s1.tokens()[i].id ==> s1.files()[j].deleted_at
                is Some,
        content_files_reclaimed(s1.tokens(), s1.files()),
{
    let ts = s0.tokens();
    let fs = s0.files();
    let ids = expired_ids(ts, now);
    let marked = mark_tokens_deleted(ts, ids, now);
    assert forall|i: int, j: int|
        0 <= i < s1.tokens().len() && ((#[trigger] s1.tokens()[i]).content_expires_at
            matches Some(c) && c < now) && 0 <= j < s1.files().len() && (
        #[trigger] s1.files()[j]).token_id == s1.tokens()[i].id implies s1.files()[j].deleted_at
        is Some by {
        assert(s1.tokens()[i].content_expires_at == ts[i].content_expires_at);
        assert(s1.tokens()[i].id == ts[i].id);
        assert(s1.files()[j].token_id == fs[j].token_id);
        if ts[i].deleted_at is Some {
            assert(fs[j].deleted_at is Some);
        } else {
            assert(content_expired(ts[i], now));
            lemma_expired_ids_contains(ts, now, ts[i].id);
            assert(ids.contains(fs[j].token_id));
        }
    }
    assert forall|i: int, j: int|
        0 <= i < s1.tokens().len() && (#[trigger] s1.tokens()[i]).content_expires_at is Some
            && s1.tokens()[i].deleted_at is Some && 0 <= j < s1.files().len() && (
        #[trigger] s1.files()[j]).token_id == s1.tokens()[i].id implies s1.files()[j].deleted_at
        is Some by {
        assert(s1.tokens()[i].content_expires_at == ts[i].content_expires_at);
        assert(s1.tokens()[i].id == ts[i].id);
        assert(s1.files()[j].token_id == fs[j].token_id);
        if ts[i].deleted_at is Some {
            assert(fs[j].deleted_at is Some);
        } else {
            if ids.contains(ts[i].id) {
                assert(ids.contains(fs[j].token_id));
            } else {
                assert(marked[i] == ts[i]);
                assert(reap_ready(marked[i], now));
                assert(!(ts[i].status is Fresh));
                assert(ts[i].status is Used && (ts[i].content_expires_at matches Some(c) && c
                    < now));
                assert(content_expired(ts[i], now));
                lemma_expired_ids_contains(ts, now, ts[i].id);
                assert(false);
            }
        }
    }
}

/// No file row of this token: its listed content is empty.
proof fn lemma_completed_files_none(fs: Seq<File>, token_id: i64)
    requires
        forall|j: int| 0 <= j < fs.len() ==> (#[trigger] fs[j]).token_id != token_id,
    ensures
        completed_files_of(fs, token_id) == Seq::<File>::empty(),
    decreases fs.len(),
{
    if fs.len() > 0 {
        lemma_completed_files_none(fs.drop_last(), token_id);
    }
}

/// Law (round trip): minting a token and ingesting one named file through
/// it, within budget and without interruption, succeeds and leaves
/// exactly that file, Completed, as the token's listed content — no
/// Started row remains for the token.
pub proof fn lemma_create_ingest_roundtrip(s0: Store, tok: CreateToken, p: PartInput, now: i64)
    requires
        s0.wf(),
        part_named(p),
        !p.interrupted,
        budget_of(tok.max_size_mib) matches Some(b) ==> chunks_total(p.chunks@) <= b,
    ensures
        ({
            let t = new_token(s0.next_token_id(), tok, now);
            let tr = ingest_parts(
                s0.files(),
                t.id,
                s0.next_file_id() as int,
                budget_of(t.max_size_mib),
                seq![p],
                now,
            );
            &&& tr.3 is None
            &&& completed_files_of(tr.0, t.id) == seq![
                completed_file(part_row(p, t.id, s0.next_file_id() as int, now)),
            ]
            &&& forall|j: int|
                0 <= j < tr.0.len() && (#[trigger] tr.0[j]).token_id == t.id ==> tr.0[j]
                    .file_upload_status is Completed
        }),
{
    let t = new_token(s0.next_token_id(), tok, now);
    let row = part_row(p, t.id, s0.next_file_id() as int, now);
    let tr = ingest_parts(
        s0.files(),
        t.id,
        s0.next_file_id() as int,
        budget_of(t.max_size_mib),
        seq![p],
        now,
    );
    let fs = s0.files();
    let id0 = s0.next_file_id() as int;
    let rem = budget_of(t.max_size_mib);
    assert(seq![p].drop_last() =~= Seq::<PartInput>::empty());
    assert(ingest_parts(fs, t.id, id0, rem, Seq::<PartInput>::empty(), now) == (
        fs,
        id0,
        rem,
        None::<UploadOutcome>,
    ));
    assert(seq![p].last() == p);
    assert(tr == ingest_step((fs, id0, rem, None::<UploadOutcome>), p, t.id, now));
    assert(tr.0 == s0.files().push(completed_file(row)));
    assert forall|j: int| 0 <= j < s0.files().len() implies (#[trigger] s0.files()[j]).token_id
        != t.id by {
        assert(s0.files()[j].token_id < s0.next_token_id());
    }
    lemma_completed_files_none(s0.files(), t.id);
    assert(tr.0.drop_last() =~= s0.files());
    assert(tr.0.last() == completed_file(row));
    assert(completed_files_of(tr.0, t.id) == completed_files_of(s0.files(), t.id).push(
        completed_file(row),
    ));
    assert(completed_files_of(tr.0, t.id) =~= seq![completed_file(row)]);
}

/// Law: an ingest whose single named part exceeds the token's byte budget
/// reports "too large" and adds exactly one row, still Started: no
/// Completed row appears, and — by `ingest`'s contract for a failed fold —
/// the token table is untouched, so the token stays Fresh.
pub proof fn lemma_oversized_ingest_adds_no_content(
    fs: Seq<File>,
    tid: i64,
    next_id: int,
    b: int,
    p: PartInput,
    now: i64,
)
    requires
        part_named(p),
        chunks_total(p.chunks@) > b,
    ensures
        ({
            let tr = ingest_parts(fs, tid, next_id, Some(b), seq![p], now);
            &&& tr.3 == Some(UploadOutcome::TooLarge)
            &&& tr.0 == fs.push(part_row(p, tid, next_id, now))
            &&& part_row(p, tid, next_id, now).file_upload_status is Started
            &&& forall|j: int|
                0 <= j < tr.0.len() && (#[trigger] tr.0[j]).file_upload_status is Completed ==> 0
                    <= j < fs.len() && fs[j] == tr.0[j]
        }),
{
    assert(seq![p].drop_last() =~= Seq::<PartInput>::empty());
    let tr = ingest_parts(fs, tid, next_id, Some(b), seq![p], now);
    assert(ingest_parts(fs, tid, next_id, Some(b), Seq::<PartInput>::empty(), now) == (
        fs,
        next_id,
        Some(b),
        None::<UploadOutcome>,
    ));
    assert(seq![p].last() == p);
    assert(tr == ingest_step((fs, next_id, Some(b), None::<UploadOutcome>), p, tid, now));
    assert(tr.0 == fs.push(part_row(p, tid, next_id, now)));
}

} // verus!
