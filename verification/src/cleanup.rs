//! The expiration reaper: finds tokens past their deadlines, removes their
//! bytes and directories from the directory tree, and marks their rows
//! deleted — idempotently, so a pass is safe to re-run after partial
//! completion.

use vstd::prelude::*;

use crate::db;
use crate::db::{
    content_expired, content_expired_tokens, count_owned, has_live_token, is_live,
    mark_files_deleted, mark_tokens_deleted, reap_map, reap_ready, reaped_paths,
    survives_reaping, token_deleted_mark, File, Store, Token,
};
use crate::disk::Disk;

verus! {

/// The ids of the content-expired tokens, in table order.
pub open spec fn expired_ids(ts: Seq<Token>, now: i64) -> Seq<i64>
    decreases ts.len(),
{
    if ts.len() == 0 {
        Seq::empty()
    } else {
        let rest = expired_ids(ts.drop_last(), now);
        if content_expired(ts.last(), now) {
            rest.push(ts.last().id)
        } else {
            rest
        }
    }
}

/// The token table after one full reaper pass at `now`: content-expired
/// tokens are marked first, then every token past a deadline is flipped.
pub open spec fn cleanup_tokens_spec(ts: Seq<Token>, now: i64) -> Seq<Token> {
    reap_map(mark_tokens_deleted(ts, expired_ids(ts, now), now), now)
}

/// The file table after one full reaper pass at `now`: the files of every
/// content-expired token are marked deleted.
pub open spec fn cleanup_files_spec(fs: Seq<File>, ts: Seq<Token>, now: i64) -> Seq<File> {
    mark_files_deleted(fs, expired_ids(ts, now), now)
}

/// Some token at `d` is past a deadline: a candidate for directory
/// removal.
pub open spec fn doomed_token_at(ts: Seq<Token>, now: i64, d: Seq<char>) -> bool {
    exists|i: int|
        0 <= i < ts.len() && (content_expired(#[trigger] ts[i], now) || reap_ready(ts[i], now))
            && ts[i].path@ == d
}

/// A directory the pass removes: some token there is past a deadline, and
/// no live token that the pass would leave standing occupies the path. A
/// path can be reused while a dead namesake still lingers in the table;
/// the directory then belongs to the live token and must stay.
pub open spec fn dir_doomed(ts: Seq<Token>, now: i64, d: Seq<char>) -> bool {
    &&& doomed_token_at(ts, now, d)
    &&& !survives_reaping(ts, d, now)
}

/// A path among the first `k` content-expired tokens.
pub open spec fn cet_path_upto(cet: Seq<Token>, k: int, d: Seq<char>) -> bool {
    exists|j: int| 0 <= j < k && (#[trigger] cet[j]).path@ == d
}

/// A path among the first `k` reaped paths.
pub open spec fn reaped_path_upto(paths: Seq<String>, k: int, d: Seq<char>) -> bool {
    exists|j: int| 0 <= j < k && (#[trigger] paths[j])@ == d
}

/// What one reaper pass leaves behind: the store follows the two spec
/// transitions, and exactly the doomed directories (with everything under
/// them) are gone from the tree.
pub open spec fn cleanup_post(s0: Store, s1: Store, d0: Disk, d1: Disk, now: i64) -> bool {
    &&& s1.tokens() == cleanup_tokens_spec(s0.tokens(), now)
    &&& s1.files() == cleanup_files_spec(s0.files(), s0.tokens(), now)
    &&& s1.users() == s0.users()
    &&& s1.next_token_id() == s0.next_token_id()
    &&& s1.next_file_id() == s0.next_file_id()
    &&& forall|d: Seq<char>| dir_doomed(s0.tokens(), now, d) ==> !(#[trigger] d1.has_dir(d))
    &&& forall|d: Seq<char>|
        !dir_doomed(s0.tokens(), now, d) ==> #[trigger] d1.has_dir(d) == d0.has_dir(d)
    &&& forall|d: Seq<char>, n: Seq<char>|
        dir_doomed(s0.tokens(), now, d) ==> !(#[trigger] d1.has_file(d, n))
    &&& forall|d: Seq<char>, n: Seq<char>|
        !dir_doomed(s0.tokens(), now, d) ==> #[trigger] d1.has_file(d, n) == d0.has_file(d, n)
}

/// The consistency every reaper pass (and every explicit deletion) leaves
/// behind: a content-bearing token already marked deleted has all of its
/// files marked too. A pass preserves it and, given it, reclaims files
/// for every token with a past content deadline, first marked or not.
pub open spec fn content_files_reclaimed(ts: Seq<Token>, fs: Seq<File>) -> bool {
    forall|i: int, j: int|
        0 <= i < ts.len() && 0 <= j < fs.len() && (#[trigger] ts[i]).content_expires_at is Some
            && ts[i].deleted_at is Some && (#[trigger] fs[j]).token_id == ts[i].id ==> fs[j]
            .deleted_at is Some
}

/// Every listed content-expired token is a table row that is
/// content-expired.
pub(crate) proof fn lemma_cet_elem(ts: Seq<Token>, now: i64, k: int)
    requires
        0 <= k < content_expired_tokens(ts, now).len(),
    ensures
        exists|i: int|
            0 <= i < ts.len() && #[trigger] ts[i] == content_expired_tokens(ts, now)[k]
                && content_expired(ts[i], now),
    decreases ts.len(),
{
    let cet = content_expired_tokens(ts, now);
    if ts.len() > 0 {
        let rest = content_expired_tokens(ts.drop_last(), now);
        if k < rest.len() {
            lemma_cet_elem(ts.drop_last(), now, k);
            let i = choose|i: int|
                0 <= i < ts.drop_last().len() && #[trigger] ts.drop_last()[i] == rest[k]
                    && content_expired(ts.drop_last()[i], now);
            assert(ts[i] == rest[k]);
        } else {
            assert(content_expired(ts.last(), now));
            assert(ts[ts.len() - 1] == cet[k]);
        }
    }
}

/// Every content-expired table row is listed.
pub(crate) proof fn lemma_cet_contains(ts: Seq<Token>, now: i64, i: int)
    requires
        0 <= i < ts.len(),
        content_expired(ts[i], now),
    ensures
        exists|k: int|
            0 <= k < content_expired_tokens(ts, now).len() && #[trigger] content_expired_tokens(
                ts,
                now,
            )[k] == ts[i],
    decreases ts.len(),
{
    let cet = content_expired_tokens(ts, now);
    if i == ts.len() - 1 {
        assert(cet[cet.len() - 1] == ts[i]);
    } else {
        lemma_cet_contains(ts.drop_last(), now, i);
        let rest = content_expired_tokens(ts.drop_last(), now);
        let k = choose|k: int| 0 <= k < rest.len() && #[trigger] rest[k] == ts.drop_last()[i];
        assert(cet[k] == ts[i]);
    }
}

/// The id list is the content-expired list, id by id.
pub(crate) proof fn lemma_expired_ids_are_cet_ids(ts: Seq<Token>, now: i64)
    ensures
        expired_ids(ts, now).len() == content_expired_tokens(ts, now).len(),
        forall|k: int|
            0 <= k < expired_ids(ts, now).len() ==> #[trigger] expired_ids(ts, now)[k]
                == content_expired_tokens(ts, now)[k].id,
    decreases ts.len(),
{
    if ts.len() > 0 {
        lemma_expired_ids_are_cet_ids(ts.drop_last(), now);
    }
}

/// An id is listed exactly when a content-expired row carries it.
pub(crate) proof fn lemma_expired_ids_contains(ts: Seq<Token>, now: i64, id: i64)
    ensures
        expired_ids(ts, now).contains(id) <==> exists|i: int|
            0 <= i < ts.len() && content_expired(#[trigger] ts[i], now) && ts[i].id == id,
    decreases ts.len(),
{
    if ts.len() > 0 {
        lemma_expired_ids_contains(ts.drop_last(), now, id);
        let ids = expired_ids(ts, now);
        let rest = expired_ids(ts.drop_last(), now);
        if ids.contains(id) {
            let k = choose|k: int| 0 <= k < ids.len() && ids[k] == id;
            if k < rest.len() {
                assert(rest[k] == id);
                assert(rest.contains(id));
                let i = choose|i: int|
                    0 <= i < ts.drop_last().len() && content_expired(
                        #[trigger] ts.drop_last()[i],
                        now,
                    ) && ts.drop_last()[i].id == id;
                assert(content_expired(ts[i], now) && ts[i].id == id);
            } else {
                assert(content_expired(ts[ts.len() - 1], now) && ts[ts.len() - 1].id == id);
            }
        }
        if exists|i: int|
            0 <= i < ts.len() && content_expired(#[trigger] ts[i], now) && ts[i].id == id {
            let i = choose|i: int|
                0 <= i < ts.len() && content_expired(#[trigger] ts[i], now) && ts[i].id == id;
            if i == ts.len() - 1 {
                assert(content_expired(ts.last(), now));
                assert(ids[ids.len() - 1] == id);
            } else {
                assert(ts.drop_last()[i] == ts[i]);
                assert(rest.contains(id));
                let k = choose|k: int| 0 <= k < rest.len() && rest[k] == id;
                if content_expired(ts.last(), now) {
                    assert(ids[k] == id);
                } else {
                    assert(ids[k] == id);
                }
            }
        }
    }
}

/// Every reaped path is the path of a reap-ready row.
pub(crate) proof fn lemma_reaped_paths_elem(ts: Seq<Token>, now: i64, j: int)
    requires
        0 <= j < reaped_paths(ts, now).len(),
    ensures
        exists|i: int|
            0 <= i < ts.len() && reap_ready(#[trigger] ts[i], now) && ts[i].path == reaped_paths(
                ts,
                now,
            )[j],
    decreases ts.len(),
{
    let ps = reaped_paths(ts, now);
    if ts.len() > 0 {
        let rest = reaped_paths(ts.drop_last(), now);
        if j < rest.len() {
            lemma_reaped_paths_elem(ts.drop_last(), now, j);
            let i = choose|i: int|
                0 <= i < ts.drop_last().len() && reap_ready(#[trigger] ts.drop_last()[i], now)
                    && ts.drop_last()[i].path == rest[j];
            assert(reap_ready(ts[i], now) && ts[i].path == ps[j]);
        } else {
            assert(reap_ready(ts.last(), now));
            assert(ts[ts.len() - 1].path == ps[j]);
        }
    }
}

/// One full reaper pass at `now`, on the store and the directory tree.
///
/// First, for every token whose content deadline has passed and whose row
/// is not yet marked: remove each of its files' bytes (a missing file is
/// tolerated) and its directory recursively, then mark its files and the
/// token itself deleted, transactionally. Then flip every remaining token
/// past a deadline to Deleted and remove those tokens' directories.
///
/// A path can be reused while a dead namesake still lingers in the table.
/// The directory then belongs to the live token, so the pass leaves that
/// directory and everything under it alone; the lingering bytes fall when
/// the live token itself expires. Re-running immediately changes nothing:
/// every removal tolerates "already gone".
#[verifier::loop_isolation(false)]
pub fn cleanup_once(store: &mut Store, disk: &mut Disk, now: i64)
    requires
        old(store).wf(),
    ensures
        final(store).wf(),
        cleanup_post(*old(store), *final(store), *old(disk), *final(disk), now),
{
    let ghost ts0 = store.tokens();
    let ghost cet = content_expired_tokens(ts0, now);
    let expired = store.get_expired_files(now);
    let mut ids: Vec<i64> = Vec::new();
    let ne = expired.len();
    let mut i: usize = 0;
    while i < ne
        invariant
            0 <= i <= ne,
            ne == cet.len(),
            *store == *old(store),
            ids@.len() == i,
            forall|k: int| 0 <= k < i ==> #[trigger] ids@[k] == cet[k].id,
            forall|d: Seq<char>|
                #[trigger] disk.has_dir(d) <==> (old(disk).has_dir(d) && !(cet_path_upto(
                    cet,
                    i as int,
                    d,
                ) && !survives_reaping(ts0, d, now))),
            forall|d: Seq<char>, n: Seq<char>|
                #[trigger] disk.has_file(d, n) <==> (old(disk).has_file(d, n) && !(cet_path_upto(
                    cet,
                    i as int,
                    d,
                ) && !survives_reaping(ts0, d, now))),
        decreases ne - i,
    {
        let tok = &expired[i].0;
        let files = &expired[i].1;
        proof {
            assert(cet[i as int].path@ == tok.path@);
        }
        let keep = store.path_survives_reaping(&tok.path, now);
        if !keep {
            let ghost disk_i = *disk;
            let nf = files.len();
            let mut j: usize = 0;
            while j < nf
                invariant
                    0 <= j <= nf,
                    forall|d: Seq<char>| #[trigger] disk.has_dir(d) == disk_i.has_dir(d),
                    forall|d: Seq<char>, n: Seq<char>|
                        d != tok.path@ ==> #[trigger] disk.has_file(d, n) == disk_i.has_file(d, n),
                    forall|d: Seq<char>, n: Seq<char>|
                        #[trigger] disk.has_file(d, n) ==> disk_i.has_file(d, n),
                decreases nf - j,
            {
                disk.remove_file(&tok.path, &files[j].path);
                j += 1;
            }
            disk.remove_dir_all(&tok.path);
            proof {
                assert forall|d: Seq<char>| #[trigger]
                    disk.has_dir(d) <==> (old(disk).has_dir(d) && !(cet_path_upto(cet, i + 1, d)
                        && !survives_reaping(ts0, d, now))) by {
                    if cet_path_upto(cet, i as int, d) {
                        let k = choose|j: int| 0 <= j < i && (#[trigger] cet[j]).path@ == d;
                        assert(0 <= k < i + 1 && cet[k].path@ == d);
                        assert(cet_path_upto(cet, i + 1, d));
                    }
                    if cet_path_upto(cet, i + 1, d) && !cet_path_upto(cet, i as int, d) {
                        let k = choose|j: int| 0 <= j < i + 1 && (#[trigger] cet[j]).path@ == d;
                        assert(k == i as int);
                        assert(d == tok.path@);
                    }
                }
                assert forall|d: Seq<char>, n: Seq<char>| #[trigger]
                    disk.has_file(d, n) <==> (old(disk).has_file(d, n) && !(cet_path_upto(
                        cet,
                        i + 1,
                        d,
                    ) && !survives_reaping(ts0, d, now))) by {
                    if cet_path_upto(cet, i as int, d) {
                        let k = choose|j: int| 0 <= j < i && (#[trigger] cet[j]).path@ == d;
                        assert(0 <= k < i + 1 && cet[k].path@ == d);
                        assert(cet_path_upto(cet, i + 1, d));
                    }
                    if cet_path_upto(cet, i + 1, d) && !cet_path_upto(cet, i as int, d) {
                        let k = choose|j: int| 0 <= j < i + 1 && (#[trigger] cet[j]).path@ == d;
                        assert(k == i as int);
                        assert(d == tok.path@);
                    }
                }
            }
        } else {
            proof {
                assert(survives_reaping(ts0, tok.path@, now));
                assert forall|d: Seq<char>| #[trigger]
                    disk.has_dir(d) <==> (old(disk).has_dir(d) && !(cet_path_upto(cet, i + 1, d)
                        && !survives_reaping(ts0, d, now))) by {
                    if cet_path_upto(cet, i as int, d) {
                        let k = choose|j: int| 0 <= j < i && (#[trigger] cet[j]).path@ == d;
                        assert(0 <= k < i + 1 && cet[k].path@ == d);
                        assert(cet_path_upto(cet, i + 1, d));
                    }
                    if cet_path_upto(cet, i + 1, d) && !cet_path_upto(cet, i as int, d) {
                        let k = choose|j: int| 0 <= j < i + 1 && (#[trigger] cet[j]).path@ == d;
                        assert(k == i as int);
                        assert(d == tok.path@);
                    }
                }
                assert forall|d: Seq<char>, n: Seq<char>| #[trigger]
                    disk.has_file(d, n) <==> (old(disk).has_file(d, n) && !(cet_path_upto(
                        cet,
                        i + 1,
                        d,
                    ) && !survives_reaping(ts0, d, now))) by {
                    if cet_path_upto(cet, i as int, d) {
                        let k = choose|j: int| 0 <= j < i && (#[trigger] cet[j]).path@ == d;
                        assert(0 <= k < i + 1 && cet[k].path@ == d);
                        assert(cet_path_upto(cet, i + 1, d));
                    }
                    if cet_path_upto(cet, i + 1, d) && !cet_path_upto(cet, i as int, d) {
                        let k = choose|j: int| 0 <= j < i + 1 && (#[trigger] cet[j]).path@ == d;
                        assert(k == i as int);
                        assert(d == tok.path@);
                    }
                }
            }
        }
        ids.push(tok.id);
        i += 1;
    }
    proof {
        lemma_expired_ids_are_cet_ids(ts0, now);
        assert(ids@ =~= expired_ids(ts0, now));
    }
    let _count = store.delete_files(&ids, now);
    let ghost ts1 = store.tokens();
    let ghost disk1 = *disk;
    let paths = store.delete_expired_tokens(now);
    let ghost tsf = store.tokens();
    let np = paths.len();
    let mut k: usize = 0;
    while k < np
        invariant
            0 <= k <= np,
            np == paths@.len(),
            store.tokens() == tsf,
            tsf == reap_map(ts1, now),
            store.files() == cleanup_files_spec(old(store).files(), ts0, now),
            store.users() == old(store).users(),
            store.next_token_id() == old(store).next_token_id(),
            store.next_file_id() == old(store).next_file_id(),
            store.wf(),
            forall|d: Seq<char>|
                #[trigger] disk.has_dir(d) <==> (disk1.has_dir(d) && !(reaped_path_upto(
                    paths@,
                    k as int,
                    d,
                ) && !survives_reaping(tsf, d, now))),
            forall|d: Seq<char>, n: Seq<char>|
                #[trigger] disk.has_file(d, n) <==> (disk1.has_file(d, n) && !(reaped_path_upto(
                    paths@,
                    k as int,
                    d,
                ) && !survives_reaping(tsf, d, now))),
        decreases np - k,
    {
        let keep = store.path_survives_reaping(&paths[k], now);
        if !keep {
            disk.remove_dir_all(&paths[k]);
        }
        proof {
            assert forall|d: Seq<char>| #[trigger]
                disk.has_dir(d) <==> (disk1.has_dir(d) && !(reaped_path_upto(paths@, k + 1, d)
                    && !survives_reaping(tsf, d, now))) by {
                if reaped_path_upto(paths@, k as int, d) {
                    let j = choose|j: int| 0 <= j < k && (#[trigger] paths@[j])@ == d;
                    assert(0 <= j < k + 1 && paths@[j]@ == d);
                    assert(reaped_path_upto(paths@, k + 1, d));
                }
                if reaped_path_upto(paths@, k + 1, d) && !reaped_path_upto(paths@, k as int, d) {
                    let j = choose|j: int| 0 <= j < k + 1 && (#[trigger] paths@[j])@ == d;
                    assert(j == k as int);
                    assert(d == paths@[k as int]@);
                }
            }
            assert forall|d: Seq<char>, n: Seq<char>| #[trigger]
                disk.has_file(d, n) <==> (disk1.has_file(d, n) && !(reaped_path_upto(
                    paths@,
                    k + 1,
                    d,
                ) && !survives_reaping(tsf, d, now))) by {
                if reaped_path_upto(paths@, k as int, d) {
                    let j = choose|j: int| 0 <= j < k && (#[trigger] paths@[j])@ == d;
                    assert(0 <= j < k + 1 && paths@[j]@ == d);
                    assert(reaped_path_upto(paths@, k + 1, d));
                }
                if reaped_path_upto(paths@, k + 1, d) && !reaped_path_upto(paths@, k as int, d) {
                    let j = choose|j: int| 0 <= j < k + 1 && (#[trigger] paths@[j])@ == d;
                    assert(j == k as int);
                    assert(d == paths@[k as int]@);
                }
            }
        }
        k += 1;
    }
    proof {
        assert(token_ids_unique(ts0));
        lemma_cleanup_disk_post(ts0, now, *old(disk), disk1, *disk, cet, paths@, ts1);
    }
}

/// The administrative cleanup trigger: one reaper pass at the current
/// wall-clock time. The clock is read here, so all that is known is that
/// the pass ran at some instant.
pub fn cleanup(store: &mut Store, disk: &mut Disk)
    requires
        old(store).wf(),
    ensures
        final(store).wf(),
        exists|now: i64|
            #[trigger] cleanup_post(*old(store), *final(store), *old(disk), *final(disk), now),
{
    let now = db::now_utc();
    cleanup_once(store, disk, now);
}

/// Removes the directory at `path` from the tree, with everything under
/// it; a missing directory is tolerated, not an error.
pub fn remove_token_dir(disk: &mut Disk, path: &String)
    ensures
        !final(disk).has_dir(path@),
        forall|n: Seq<char>| !final(disk).has_file(path@, n),
        forall|d: Seq<char>|
            d != path@ ==> #[trigger] final(disk).has_dir(d) == old(disk).has_dir(d),
        forall|d: Seq<char>, n: Seq<char>|
            d != path@ ==> #[trigger] final(disk).has_file(d, n) == old(disk).has_file(d, n),
{
    disk.remove_dir_all(path);
}

/// Forcibly deletes the token at `token_path` — its file rows, its row and
/// its directory — regardless of expiry state, and returns how many file
/// rows were marked. Without a live token there, the directory is still
/// removed.
pub fn delete_token(store: &mut Store, disk: &mut Disk, token_path: &String, now: i64) -> (r:
    usize)
    requires
        old(store).wf(),
    ensures
        final(store).wf(),
        final(store).users() == old(store).users(),
        final(store).next_token_id() == old(store).next_token_id(),
        final(store).next_file_id() == old(store).next_file_id(),
        !final(disk).has_dir(token_path@),
        forall|n: Seq<char>| !final(disk).has_file(token_path@, n),
        forall|d: Seq<char>|
            d != token_path@ ==> #[trigger] final(disk).has_dir(d) == old(disk).has_dir(d),
        forall|d: Seq<char>, n: Seq<char>|
            d != token_path@ ==> #[trigger] final(disk).has_file(d, n) == old(disk).has_file(d, n),
        has_live_token(old(store).tokens(), token_path@, now) ==> exists|i: int|
            {
                &&& 0 <= i < old(store).tokens().len()
                &&& (#[trigger] old(store).tokens()[i]).path@ == token_path@
                &&& is_live(old(store).tokens()[i], now)
                &&& final(store).tokens() == mark_tokens_deleted(
                    old(store).tokens(),
                    seq![old(store).tokens()[i].id],
                    now,
                )
                &&& final(store).files() == mark_files_deleted(
                    old(store).files(),
                    seq![old(store).tokens()[i].id],
                    now,
                )
                &&& r == count_owned(old(store).files(), seq![old(store).tokens()[i].id])
            },
        !has_live_token(old(store).tokens(), token_path@, now) ==> *final(store) == *old(store)
            && r == 0,
{
    let r: usize = match store.get_valid_token(token_path, now) {
        Some(tok) => {
            let ghost gi = choose|i: int|
                0 <= i < store.tokens().len() && #[trigger] store.tokens()[i] == tok;
            let mut ids: Vec<i64> = Vec::new();
            ids.push(tok.id);
            proof {
                assert(ids@ =~= seq![tok.id]);
                assert(old(store).tokens()[gi] == tok);
            }
            store.delete_files(&ids, now)
        },
        None => 0,
    };
    remove_token_dir(disk, token_path);
    r
}

/// Removal of the content-expired dirs, then of the reaped dirs — each
/// guarded by the survivor check — removes exactly the doomed dirs.
proof fn lemma_cleanup_disk_post(
    ts0: Seq<Token>,
    now: i64,
    d0: Disk,
    d1: Disk,
    d2: Disk,
    cet: Seq<Token>,
    paths: Seq<String>,
    ts1: Seq<Token>,
)
    requires
        token_ids_unique(ts0),
        cet == content_expired_tokens(ts0, now),
        ts1 == mark_tokens_deleted(ts0, expired_ids(ts0, now), now),
        paths == reaped_paths(ts1, now),
        forall|d: Seq<char>|
            #[trigger] d1.has_dir(d) <==> (d0.has_dir(d) && !(cet_path_upto(
                cet,
                cet.len() as int,
                d,
            ) && !survives_reaping(ts0, d, now))),
        forall|d: Seq<char>, n: Seq<char>|
            #[trigger] d1.has_file(d, n) <==> (d0.has_file(d, n) && !(cet_path_upto(
                cet,
                cet.len() as int,
                d,
            ) && !survives_reaping(ts0, d, now))),
        forall|d: Seq<char>|
            #[trigger] d2.has_dir(d) <==> (d1.has_dir(d) && !(reaped_path_upto(
                paths,
                paths.len() as int,
                d,
            ) && !survives_reaping(reap_map(ts1, now), d, now))),
        forall|d: Seq<char>, n: Seq<char>|
            #[trigger] d2.has_file(d, n) <==> (d1.has_file(d, n) && !(reaped_path_upto(
                paths,
                paths.len() as int,
                d,
            ) && !survives_reaping(reap_map(ts1, now), d, now))),
    ensures
        forall|d: Seq<char>| dir_doomed(ts0, now, d) ==> !(#[trigger] d2.has_dir(d)),
        forall|d: Seq<char>|
            !dir_doomed(ts0, now, d) ==> #[trigger] d2.has_dir(d) == d0.has_dir(d),
        forall|d: Seq<char>, n: Seq<char>|
            dir_doomed(ts0, now, d) ==> !(#[trigger] d2.has_file(d, n)),
        forall|d: Seq<char>, n: Seq<char>|
            !dir_doomed(ts0, now, d) ==> #[trigger] d2.has_file(d, n) == d0.has_file(d, n),
{
    let tsf = reap_map(ts1, now);
    assert forall|d: Seq<char>|
        survives_reaping(tsf, d, now) == survives_reaping(ts0, d, now) by {
        lemma_survives_stable(ts0, now, d);
    }
    assert forall|d: Seq<char>| dir_doomed(ts0, now, d) implies !(#[trigger] d2.has_dir(d)) by {
        lemma_doomed_is_removed(ts0, now, cet, paths, ts1, d);
    }
    assert forall|d: Seq<char>, n: Seq<char>| dir_doomed(ts0, now, d) implies !(
    #[trigger] d2.has_file(d, n)) by {
        lemma_doomed_is_removed(ts0, now, cet, paths, ts1, d);
    }
    assert forall|d: Seq<char>| !dir_doomed(ts0, now, d) implies #[trigger] d2.has_dir(d)
        == d0.has_dir(d) by {
        if !survives_reaping(ts0, d, now) && removed_path(cet, paths, d) {
            lemma_removed_is_doomed(ts0, now, cet, paths, ts1, d);
        }
    }
    assert forall|d: Seq<char>, n: Seq<char>| !dir_doomed(ts0, now, d) implies #[trigger] d2
        .has_file(d, n) == d0.has_file(d, n) by {
        if !survives_reaping(ts0, d, now) && removed_path(cet, paths, d) {
            lemma_removed_is_doomed(ts0, now, cet, paths, ts1, d);
        }
    }
}

/// A reaper pass never changes which paths keep a surviving live token:
/// a survivor is exactly a row the pass leaves untouched.
proof fn lemma_survives_stable(ts: Seq<Token>, now: i64, d: Seq<char>)
    requires
        token_ids_unique(ts),
    ensures
        survives_reaping(
            reap_map(mark_tokens_deleted(ts, expired_ids(ts, now), now), now),
            d,
            now,
        ) == survives_reaping(ts, d, now),
{
    let ids = expired_ids(ts, now);
    let marked = mark_tokens_deleted(ts, ids, now);
    let tsf = reap_map(marked, now);
    if survives_reaping(tsf, d, now) {
        let i = choose|i: int|
            0 <= i < tsf.len() && (#[trigger] tsf[i]).path@ == d && is_live(tsf[i], now)
                && !content_expired(tsf[i], now) && !reap_ready(tsf[i], now);
        if ids.contains(ts[i].id) {
            assert(marked[i] == token_deleted_mark(ts[i], now));
            assert(tsf[i].status is Deleted);
            assert(false);
        }
        assert(marked[i] == ts[i]);
        if reap_ready(marked[i], now) {
            assert(tsf[i] == token_deleted_mark(marked[i], now));
            assert(false);
        }
        assert(tsf[i] == ts[i]);
        assert(survives_reaping(ts, d, now));
    }
    if survives_reaping(ts, d, now) {
        let i = choose|i: int|
            0 <= i < ts.len() && (#[trigger] ts[i]).path@ == d && is_live(ts[i], now)
                && !content_expired(ts[i], now) && !reap_ready(ts[i], now);
        lemma_expired_ids_contains(ts, now, ts[i].id);
        if ids.contains(ts[i].id) {
            let j = choose|j: int|
                0 <= j < ts.len() && content_expired(#[trigger] ts[j], now) && ts[j].id
                    == ts[i].id;
            assert(j == i);
            assert(false);
        }
        assert(marked[i] == ts[i]);
        assert(tsf[i] == ts[i]);
        assert(survives_reaping(tsf, d, now));
    }
}

/// The ids of two distinct token rows differ.
pub open spec fn token_ids_unique(ts: Seq<Token>) -> bool {
    forall|i: int, j: int|
        0 <= i < ts.len() && 0 <= j < ts.len() && i != j ==> #[trigger] ts[i].id
            != #[trigger] ts[j].id
}

/// A path among the content-expired tokens or the reaped paths: a
/// candidate either removal phase considered.
pub open spec fn removed_path(cet: Seq<Token>, paths: Seq<String>, d: Seq<char>) -> bool {
    cet_path_upto(cet, cet.len() as int, d) || reaped_path_upto(paths, paths.len() as int, d)
}

/// A doomed directory is a candidate of one of the two phases.
proof fn lemma_doomed_is_removed(
    ts0: Seq<Token>,
    now: i64,
    cet: Seq<Token>,
    paths: Seq<String>,
    ts1: Seq<Token>,
    d: Seq<char>,
)
    requires
        token_ids_unique(ts0),
        cet == content_expired_tokens(ts0, now),
        ts1 == mark_tokens_deleted(ts0, expired_ids(ts0, now), now),
        paths == reaped_paths(ts1, now),
        doomed_token_at(ts0, now, d),
    ensures
        removed_path(cet, paths, d),
{
    let i = choose|i: int|
        0 <= i < ts0.len() && (content_expired(#[trigger] ts0[i], now) || reap_ready(ts0[i], now))
            && ts0[i].path@ == d;
    if content_expired(ts0[i], now) {
        lemma_cet_contains(ts0, now, i);
        let k = choose|k: int| 0 <= k < cet.len() && #[trigger] cet[k] == ts0[i];
        assert(cet[k].path@ == d);
        assert(cet_path_upto(cet, cet.len() as int, d));
    } else {
        assert(reap_ready(ts0[i], now));
        lemma_expired_ids_contains(ts0, now, ts0[i].id);
        if expired_ids(ts0, now).contains(ts0[i].id) {
            let j = choose|j: int|
                0 <= j < ts0.len() && content_expired(#[trigger] ts0[j], now) && ts0[j].id
                    == ts0[i].id;
            assert(j == i);
            assert(false);
        }
        assert(ts1[i] == ts0[i]);
        lemma_reaped_paths_contains(ts1, now, i);
        let j = choose|j: int|
            0 <= j < reaped_paths(ts1, now).len() && #[trigger] reaped_paths(ts1, now)[j]
                == ts1[i].path;
        assert(paths[j]@ == d);
        assert(reaped_path_upto(paths, paths.len() as int, d));
    }
}

/// A candidate of either phase holds a token past a deadline.
proof fn lemma_removed_is_doomed(
    ts0: Seq<Token>,
    now: i64,
    cet: Seq<Token>,
    paths: Seq<String>,
    ts1: Seq<Token>,
    d: Seq<char>,
)
    requires
        cet == content_expired_tokens(ts0, now),
        ts1 == mark_tokens_deleted(ts0, expired_ids(ts0, now), now),
        paths == reaped_paths(ts1, now),
        removed_path(cet, paths, d),
    ensures
        doomed_token_at(ts0, now, d),
{
    if cet_path_upto(cet, cet.len() as int, d) {
        let k = choose|k: int| 0 <= k < cet.len() && (#[trigger] cet[k]).path@ == d;
        lemma_cet_elem(ts0, now, k);
        let i = choose|i: int|
            0 <= i < ts0.len() && #[trigger] ts0[i] == cet[k] && content_expired(ts0[i], now);
        assert(doomed_token_at(ts0, now, d));
    } else {
        let j = choose|j: int| 0 <= j < paths.len() && (#[trigger] paths[j])@ == d;
        lemma_reaped_paths_elem(ts1, now, j);
        let i = choose|i: int|
            0 <= i < ts1.len() && reap_ready(#[trigger] ts1[i], now) && ts1[i].path == paths[j];
        if expired_ids(ts0, now).contains(ts0[i].id) {
            assert(ts1[i] == token_deleted_mark(ts0[i], now));
            assert(false);
        }
        assert(ts1[i] == ts0[i]);
        assert(reap_ready(ts0[i], now) && ts0[i].path@ == d);
        assert(doomed_token_at(ts0, now, d));
    }
}

/// Every reap-ready row's path is reaped.
pub(crate) proof fn lemma_reaped_paths_contains(ts: Seq<Token>, now: i64, i: int)
    requires
        0 <= i < ts.len(),
        reap_ready(ts[i], now),
    ensures
        exists|j: int|
            0 <= j < reaped_paths(ts, now).len() && #[trigger] reaped_paths(ts, now)[j]
                == ts[i].path,
    decreases ts.len(),
{
    let ps = reaped_paths(ts, now);
    if i == ts.len() - 1 {
        assert(ps[ps.len() - 1] == ts[i].path);
    } else {
        lemma_reaped_paths_contains(ts.drop_last(), now, i);
        let rest = reaped_paths(ts.drop_last(), now);
        let j = choose|j: int| 0 <= j < rest.len() && #[trigger] rest[j] == ts.drop_last()[i].path;
        assert(ps[j] == ts[i].path);
    }
}

} // verus!
