//! The metadata store: the single source of truth for token, file and user
//! credential lifecycle state.
//!
//! The store keeps every row it ever held; deletion marks rows rather than
//! dropping them (except `abort_upload`, which removes a file row that never
//! completed). Timestamps are seconds; durations are integral hour counts.

use vstd::prelude::*;
use vstd::string::*;

use crate::errors::VracError;

verus! {

/// Upper bound on a recorded content-retention duration, in hours (one year).
/// Recognized durations are far below this; the bound keeps deadline
/// arithmetic within `i64`.
pub const MAX_EXPIRY_HOURS: u32 = 8760;

/// Seconds in `MAX_EXPIRY_HOURS` hours.
pub const MAX_EXPIRY_SECS: i64 = 31536000;

/// Where a token stands in its lifecycle.
#[derive(Clone, Copy, Debug, PartialEq, Eq, Structural)]
pub enum TokenStatus {
    /// Created; uploads allowed, downloads not yet.
    Fresh,
    /// Consumed by one upload session; downloads allowed, uploads rejected.
    Used,
    /// Reclaimed; invisible to lookups that require validity. Terminal.
    Deleted,
}

/// Where a file stands in its upload.
#[derive(Clone, Copy, Debug, PartialEq, Eq, Structural)]
pub enum FileUploadStatus {
    /// Registered before any byte is written; never exposed for download.
    Started,
    /// All bytes flushed; downloadable.
    Completed,
}

/// The textual tag a token status is persisted under.
pub open spec fn status_tag(s: TokenStatus) -> Seq<char> {
    match s {
        TokenStatus::Fresh => "FRESH"@,
        TokenStatus::Used => "USED"@,
        TokenStatus::Deleted => "DELETED"@,
    }
}

/// The textual tag an upload status is persisted under.
pub open spec fn upload_status_tag(s: FileUploadStatus) -> Seq<char> {
    match s {
        FileUploadStatus::Started => "STARTED"@,
        FileUploadStatus::Completed => "COMPLETED"@,
    }
}

impl TokenStatus {
    /// Encode this status as its persisted text tag.
    pub fn to_tag(&self) -> (r: &'static str)
        ensures
            r@ == status_tag(*self),
    {
        match self {
            TokenStatus::Fresh => "FRESH",
            TokenStatus::Used => "USED",
            TokenStatus::Deleted => "DELETED",
        }
    }

    /// Decode a persisted text tag; unknown tags are a validation fault.
    pub fn from_tag(tag: &str) -> (r: Result<TokenStatus, VracError>)
        ensures
            match r {
                Ok(s) => status_tag(s) == tag@,
                Err(e) => {
                    &&& e is Validation
                    &&& tag@ != "FRESH"@
                    &&& tag@ != "USED"@
                    &&& tag@ != "DELETED"@
                },
            },
    {
        let t = String::from_str(tag);
        if t == String::from_str("FRESH") {
            Ok(TokenStatus::Fresh)
        } else if t == String::from_str("USED") {
            Ok(TokenStatus::Used)
        } else if t == String::from_str("DELETED") {
            Ok(TokenStatus::Deleted)
        } else {
            Err(VracError::Validation(String::from_str("unknown token status")))
        }
    }
}

impl FileUploadStatus {
    /// Encode this status as its persisted text tag.
    pub fn to_tag(&self) -> (r: &'static str)
        ensures
            r@ == upload_status_tag(*self),
    {
        match self {
            FileUploadStatus::Started => "STARTED",
            FileUploadStatus::Completed => "COMPLETED",
        }
    }

    /// Decode a persisted text tag; unknown tags are a validation fault.
    pub fn from_tag(tag: &str) -> (r: Result<FileUploadStatus, VracError>)
        ensures
            match r {
                Ok(s) => upload_status_tag(s) == tag@,
                Err(e) => {
                    &&& e is Validation
                    &&& tag@ != "STARTED"@
                    &&& tag@ != "COMPLETED"@
                },
            },
    {
        let t = String::from_str(tag);
        if t == String::from_str("STARTED") {
            Ok(FileUploadStatus::Started)
        } else if t == String::from_str("COMPLETED") {
            Ok(FileUploadStatus::Completed)
        } else {
            Err(VracError::Validation(String::from_str("unknown file upload status")))
        }
    }
}

/// A token row: a path-scoped capability for one upload-then-download cycle.
#[derive(Debug)]
pub struct Token {
    /// Row id, assigned by the store.
    pub id: i64,
    /// The caller-chosen slug the token is addressed by.
    pub path: String,
    pub status: TokenStatus,
    /// Upper bound on aggregate uploaded mebibytes, if any.
    pub max_size_mib: Option<u32>,
    pub created_at: i64,
    /// Deadline to complete the upload step.
    pub token_expires_at: i64,
    /// Content retention deadline; fixed once, at consumption time.
    pub content_expires_at: Option<i64>,
    /// How long content lives after consumption; recorded at creation.
    pub content_expires_after_hours: Option<u32>,
    pub deleted_at: Option<i64>,
}

impl Clone for Token {
    fn clone(&self) -> (r: Token)
        ensures
            r == *self,
    {
        Token {
            id: self.id,
            path: self.path.clone(),
            status: self.status,
            max_size_mib: self.max_size_mib,
            created_at: self.created_at,
            token_expires_at: self.token_expires_at,
            content_expires_at: self.content_expires_at,
            content_expires_after_hours: self.content_expires_after_hours,
            deleted_at: self.deleted_at,
        }
    }
}

/// What a caller supplies to mint a token.
#[derive(Debug)]
pub struct CreateToken {
    pub path: String,
    pub max_size_mib: Option<u32>,
    pub token_expires_at: i64,
    pub content_expires_after_hours: Option<u32>,
}

/// A file row, owned by one token.
#[derive(Debug)]
pub struct File {
    /// Row id, assigned by the store.
    pub id: i64,
    /// The owning token's row id.
    pub token_id: i64,
    /// Client-supplied file name, if any.
    pub name: Option<String>,
    /// Location of the byte content within the token's directory.
    pub path: String,
    /// Client-supplied content type, if any.
    pub content_type: Option<String>,
    /// Size in mebibytes, once known.
    pub size_mib: Option<u32>,
    pub created_at: i64,
    pub deleted_at: Option<i64>,
    pub file_upload_status: FileUploadStatus,
}

impl Clone for File {
    fn clone(&self) -> (r: File)
        ensures
            r == *self,
    {
        File {
            id: self.id,
            token_id: self.token_id,
            name: clone_opt_string(&self.name),
            path: self.path.clone(),
            content_type: clone_opt_string(&self.content_type),
            size_mib: self.size_mib,
            created_at: self.created_at,
            deleted_at: self.deleted_at,
            file_upload_status: self.file_upload_status,
        }
    }
}

/// What the ingestor supplies to register a file before its bytes stream in.
#[derive(Debug)]
pub struct CreateFile {
    pub token_id: i64,
    pub name: Option<String>,
    pub path: String,
    pub content_type: Option<String>,
}

/// A stored user credential row.
#[derive(Debug)]
pub struct AuthRecord {
    /// The username.
    pub id: String,
    /// The password hash, in PHC string format.
    pub phc: String,
}

impl Clone for AuthRecord {
    fn clone(&self) -> (r: AuthRecord)
        ensures
            r == *self,
    {
        AuthRecord { id: self.id.clone(), phc: self.phc.clone() }
    }
}

/// A user's credential, as handed to the authentication layer.
#[derive(Debug)]
pub enum Auth {
    /// Basic authentication against a PHC-format password hash.
    Basic { phc: String },
}

/// Clones an optional string, keeping its value.
pub fn clone_opt_string(s: &Option<String>) -> (r: Option<String>)
    ensures
        r == *s,
{
    match s {
        Some(x) => Some(x.clone()),
        None => None,
    }
}

/// A token is live when it is not deleted and some deadline of it lies in
/// the future: the upload deadline, or the content deadline once set.
///
/// Deadlines are inclusive: at the instant a deadline falls, the token is
/// still live; it counts as expired strictly after it. The reaping
/// predicates below use the exact complement, so no instant is ever both
/// live and reclaimable.
pub open spec fn is_live(t: Token, now: i64) -> bool {
    &&& (t.status is Fresh || t.status is Used)
    &&& (t.token_expires_at >= now || (t.content_expires_at matches Some(c) && c >= now))
}

/// Some token in `ts` occupies `path` and is live at `now`.
pub open spec fn has_live_token(ts: Seq<Token>, path: Seq<char>, now: i64) -> bool {
    exists|i: int| 0 <= i < ts.len() && (#[trigger] ts[i]).path@ == path && is_live(ts[i], now)
}

/// Some token in `ts` occupies `path`, is live at `now` and is still
/// Fresh: an upload may proceed through it.
pub open spec fn has_live_fresh(ts: Seq<Token>, path: Seq<char>, now: i64) -> bool {
    exists|i: int|
        0 <= i < ts.len() && (#[trigger] ts[i]).path@ == path && is_live(ts[i], now) && ts[i].status
            is Fresh
}

/// Some token in `ts` occupies `path`, is live at `now`, and a reaper pass
/// at `now` would leave it standing. Such a token owns the path's
/// directory, so the pass must not remove it.
pub open spec fn survives_reaping(ts: Seq<Token>, path: Seq<char>, now: i64) -> bool {
    exists|i: int|
        0 <= i < ts.len() && (#[trigger] ts[i]).path@ == path && is_live(ts[i], now)
            && !content_expired(ts[i], now) && !reap_ready(ts[i], now)
}

/// Row-level invariant of a token.
pub open spec fn token_wf(t: Token) -> bool {
    &&& 1 <= t.id
    &&& (t.status is Fresh ==> t.content_expires_at is None)
    &&& ((t.deleted_at is Some) <==> (t.status is Deleted))
    &&& (t.content_expires_after_hours matches Some(h) ==> h <= MAX_EXPIRY_HOURS)
}

/// Row-level invariant of a file.
pub open spec fn file_wf(f: File) -> bool {
    &&& 1 <= f.id
    &&& 1 <= f.token_id
}

/// Token rows appear in strictly increasing id order.
pub open spec fn token_ids_increasing(ts: Seq<Token>) -> bool {
    forall|i: int, j: int|
        0 <= i < j < ts.len() ==> #[trigger] ts[i].id < #[trigger] ts[j].id
}

/// File rows appear in strictly increasing id order.
pub open spec fn file_ids_increasing(fs: Seq<File>) -> bool {
    forall|i: int, j: int|
        0 <= i < j < fs.len() ==> #[trigger] fs[i].id < #[trigger] fs[j].id
}

/// Table invariant of the tokens: every row well-formed, ids below the
/// counter and strictly increasing.
pub open spec fn tokens_table_wf(ts: Seq<Token>, next_token_id: i64) -> bool {
    &&& forall|i: int|
        0 <= i < ts.len() ==> token_wf(#[trigger] ts[i]) && ts[i].id < next_token_id
    &&& token_ids_increasing(ts)
}

/// Table invariant of the files: every row well-formed, ids below the
/// counter and strictly increasing, owners within the assigned token ids.
pub open spec fn files_table_wf(fs: Seq<File>, next_file_id: i64, next_token_id: i64) -> bool {
    &&& forall|i: int|
        0 <= i < fs.len() ==> file_wf(#[trigger] fs[i]) && fs[i].id < next_file_id
            && fs[i].token_id < next_token_id
    &&& file_ids_increasing(fs)
}

/// Table invariant of the credentials: usernames are unique.
pub open spec fn users_table_wf(us: Seq<AuthRecord>) -> bool {
    forall|i: int, j: int|
        0 <= i < j < us.len() ==> #[trigger] us[i].id@ != #[trigger] us[j].id@
}

/// Decides liveness of a token row at `now`.
pub fn token_is_live(t: &Token, now: i64) -> (r: bool)
    ensures
        r == is_live(*t, now),
{
    let status_ok = match t.status {
        TokenStatus::Fresh => true,
        TokenStatus::Used => true,
        TokenStatus::Deleted => false,
    };
    let date_ok = t.token_expires_at >= now || (match t.content_expires_at {
        Some(c) => c >= now,
        None => false,
    });
    status_ok && date_ok
}

/// The durable, transactional store of tokens, files and user credentials.
///
/// An in-process model of the backing database: each public operation is one
/// transaction, and the caller serializes mutating operations (at most one
/// writer at a time).
pub struct Store {
    tokens: Vec<Token>,
    files: Vec<File>,
    users: Vec<AuthRecord>,
    next_token_id: i64,
    next_file_id: i64,
}

impl Store {
    /// The token rows, oldest first.
    pub closed spec fn tokens(self) -> Seq<Token> {
        self.tokens@
    }

    /// The file rows, oldest first.
    pub closed spec fn files(self) -> Seq<File> {
        self.files@
    }

    /// The user credential rows, oldest first.
    pub closed spec fn users(self) -> Seq<AuthRecord> {
        self.users@
    }

    /// The id the next inserted token row will carry.
    pub closed spec fn next_token_id(self) -> i64 {
        self.next_token_id
    }

    /// The id the next inserted file row will carry.
    pub closed spec fn next_file_id(self) -> i64 {
        self.next_file_id
    }

    /// Store invariant: ids are positive, strictly increasing along each
    /// table and below the corresponding counter; every row satisfies its
    /// row invariant; usernames are unique.
    pub open spec fn wf(self) -> bool {
        &&& 1 <= self.next_token_id()
        &&& 1 <= self.next_file_id()
        &&& tokens_table_wf(self.tokens(), self.next_token_id())
        &&& files_table_wf(self.files(), self.next_file_id(), self.next_token_id())
        &&& users_table_wf(self.users())
    }

    /// The id the next inserted token row will carry; below `i64::MAX`
    /// there is room for another insertion.
    pub fn token_id_counter(&self) -> (r: i64)
        ensures
            r == self.next_token_id(),
    {
        self.next_token_id
    }

    /// The id the next inserted file row will carry.
    pub fn file_id_counter(&self) -> (r: i64)
        ensures
            r == self.next_file_id(),
    {
        self.next_file_id
    }

    /// A fresh, empty store.
    pub fn new() -> (r: Store)
        ensures
            r.wf(),
            r.tokens() == Seq::<Token>::empty(),
            r.files() == Seq::<File>::empty(),
            r.users() == Seq::<AuthRecord>::empty(),
            r.next_token_id() == 1,
            r.next_file_id() == 1,
    {
        Store {
            tokens: Vec::new(),
            files: Vec::new(),
            users: Vec::new(),
            next_token_id: 1,
            next_file_id: 1,
        }
    }
}

/// The token row that `create_token` inserts.
pub open spec fn new_token(id: i64, tok: CreateToken, now: i64) -> Token {
    Token {
        id: id,
        path: tok.path,
        status: TokenStatus::Fresh,
        max_size_mib: tok.max_size_mib,
        created_at: now,
        token_expires_at: tok.token_expires_at,
        content_expires_at: None,
        content_expires_after_hours: tok.content_expires_after_hours,
        deleted_at: None,
    }
}

/// A consumed token: Used, with its content deadline fixed to `now` plus
/// the recorded retention duration, or left unset when the content never
/// expires.
pub open spec fn consumed_token(t: Token, now: i64) -> Token {
    Token {
        status: TokenStatus::Used,
        content_expires_at: match t.content_expires_after_hours {
            Some(h) => Some((now as int + (h as int) * 3600) as i64),
            None => None,
        },
        ..t
    }
}

/// The token table after consuming the Fresh token with id `token_id`.
pub open spec fn consume_map(ts: Seq<Token>, token_id: i64, now: i64) -> Seq<Token> {
    Seq::new(
        ts.len(),
        |i: int|
            if ts[i].id == token_id && ts[i].status is Fresh {
                consumed_token(ts[i], now)
            } else {
                ts[i]
            },
    )
}

/// The file row that `create_file` inserts.
pub open spec fn new_file(id: i64, file: CreateFile, now: i64) -> File {
    File {
        id: id,
        token_id: file.token_id,
        name: file.name,
        path: file.path,
        content_type: file.content_type,
        size_mib: None,
        created_at: now,
        deleted_at: None,
        file_upload_status: FileUploadStatus::Started,
    }
}

/// A file row promoted to Completed.
pub open spec fn completed_file(f: File) -> File {
    File { file_upload_status: FileUploadStatus::Completed, ..f }
}

/// The file table after promoting the file with id `file_id`.
pub open spec fn complete_map(fs: Seq<File>, file_id: i64) -> Seq<File> {
    Seq::new(fs.len(), |i: int| if fs[i].id == file_id { completed_file(fs[i]) } else { fs[i] })
}

/// Some file row carries id `file_id`.
pub open spec fn file_id_present(fs: Seq<File>, file_id: i64) -> bool {
    exists|i: int| 0 <= i < fs.len() && (#[trigger] fs[i]).id == file_id
}

/// The Completed files owned by token `token_id`, in table order.
pub open spec fn completed_files_of(fs: Seq<File>, token_id: i64) -> Seq<File>
    decreases fs.len(),
{
    if fs.len() == 0 {
        Seq::empty()
    } else {
        let rest = completed_files_of(fs.drop_last(), token_id);
        if fs.last().token_id == token_id && fs.last().file_upload_status is Completed {
            rest.push(fs.last())
        } else {
            rest
        }
    }
}

/// A file row marked deleted at `now`.
pub open spec fn file_deleted_mark(f: File, now: i64) -> File {
    File { deleted_at: Some(now), ..f }
}

/// A token row flipped to Deleted at `now`.
pub open spec fn token_deleted_mark(t: Token, now: i64) -> Token {
    Token { status: TokenStatus::Deleted, deleted_at: Some(now), ..t }
}

/// The file table after marking every file of the given tokens deleted.
pub open spec fn mark_files_deleted(fs: Seq<File>, ids: Seq<i64>, now: i64) -> Seq<File> {
    Seq::new(
        fs.len(),
        |i: int| if ids.contains(fs[i].token_id) { file_deleted_mark(fs[i], now) } else { fs[i] },
    )
}

/// The token table after flipping the given tokens to Deleted.
pub open spec fn mark_tokens_deleted(ts: Seq<Token>, ids: Seq<i64>, now: i64) -> Seq<Token> {
    Seq::new(
        ts.len(),
        |i: int| if ids.contains(ts[i].id) { token_deleted_mark(ts[i], now) } else { ts[i] },
    )
}

/// How many file rows belong to the given tokens.
pub open spec fn count_owned(fs: Seq<File>, ids: Seq<i64>) -> int
    decreases fs.len(),
{
    if fs.len() == 0 {
        0
    } else {
        count_owned(fs.drop_last(), ids) + if ids.contains(fs.last().token_id) {
            1int
        } else {
            0int
        }
    }
}

/// A token the reaper must flip to Deleted at `now`: not yet marked, and
/// past its upload deadline while Fresh, or past its content deadline
/// while Used.
///
/// "Past" is strict: a deadline falling exactly at `now` has not yet
/// passed (the token is still live then, see [`is_live`]); it becomes
/// reclaimable strictly after the deadline. This is a deliberate, single
/// boundary for both liveness and reaping.
pub open spec fn reap_ready(t: Token, now: i64) -> bool {
    &&& t.deleted_at is None
    &&& ((t.status is Fresh && t.token_expires_at < now) || (t.status is Used
        && (t.content_expires_at matches Some(c) && c < now)))
}

/// The token table after one expiry sweep at `now`.
pub open spec fn reap_map(ts: Seq<Token>, now: i64) -> Seq<Token> {
    Seq::new(ts.len(), |i: int| if reap_ready(ts[i], now) { token_deleted_mark(ts[i], now) } else { ts[i] })
}

/// The paths of the tokens an expiry sweep at `now` flips, in table order.
pub open spec fn reaped_paths(ts: Seq<Token>, now: i64) -> Seq<String>
    decreases ts.len(),
{
    if ts.len() == 0 {
        Seq::empty()
    } else {
        let rest = reaped_paths(ts.drop_last(), now);
        if reap_ready(ts.last(), now) {
            rest.push(ts.last().path)
        } else {
            rest
        }
    }
}

/// A token whose content deadline has strictly passed but whose row is
/// not yet marked deleted: its files are due for removal. As with
/// [`reap_ready`], the deadline instant itself still counts as valid.
pub open spec fn content_expired(t: Token, now: i64) -> bool {
    &&& t.deleted_at is None
    &&& (t.content_expires_at matches Some(c) && c < now)
}

/// The content-expired tokens, in table order.
pub open spec fn content_expired_tokens(ts: Seq<Token>, now: i64) -> Seq<Token>
    decreases ts.len(),
{
    if ts.len() == 0 {
        Seq::empty()
    } else {
        let rest = content_expired_tokens(ts.drop_last(), now);
        if content_expired(ts.last(), now) {
            rest.push(ts.last())
        } else {
            rest
        }
    }
}

/// Every file owned by token `token_id`, in table order, whatever its
/// status.
pub open spec fn files_of(fs: Seq<File>, token_id: i64) -> Seq<File>
    decreases fs.len(),
{
    if fs.len() == 0 {
        Seq::empty()
    } else {
        let rest = files_of(fs.drop_last(), token_id);
        if fs.last().token_id == token_id {
            rest.push(fs.last())
        } else {
            rest
        }
    }
}

/// Some credential row carries username `name`.
pub open spec fn username_taken(us: Seq<AuthRecord>, name: Seq<char>) -> bool {
    exists|i: int| 0 <= i < us.len() && (#[trigger] us[i]).id@ == name
}

/// Decides membership of `id` in a list of token ids.
fn contains_id(ids: &Vec<i64>, id: i64) -> (r: bool)
    ensures
        r == ids@.contains(id),
{
    let n = ids.len();
    let mut i: usize = 0;
    while i < n
        invariant
            0 <= i <= n,
            n == ids@.len(),
            forall|j: int| 0 <= j < i ==> ids@[j] != id,
        decreases n - i,
    {
        if ids[i] == id {
            assert(ids@[i as int] == id);
            return true;
        }
        i += 1;
    }
    false
}

impl Store {
    /// Mints a token at `path`, unless a live token already occupies that
    /// path at `now`: one transaction checks and inserts atomically, so at
    /// most one token per path is live at any instant.
    pub fn create_token(&mut self, tok: CreateToken, now: i64) -> (r: Result<
        Token,
        VracError,
    >)
        requires
            old(self).wf(),
            old(self).next_token_id() < i64::MAX,
            tok.content_expires_after_hours matches Some(h) ==> h <= MAX_EXPIRY_HOURS,
        ensures
            final(self).wf(),
            final(self).files() == old(self).files(),
            final(self).users() == old(self).users(),
            final(self).next_file_id() == old(self).next_file_id(),
            match r {
                Ok(t) => {
                    &&& !has_live_token(old(self).tokens(), tok.path@, now)
                    &&& t == new_token(old(self).next_token_id(), tok, now)
                    &&& final(self).tokens() == old(self).tokens().push(t)
                    &&& final(self).next_token_id() == old(self).next_token_id() + 1
                },
                Err(e) => {
                    &&& has_live_token(old(self).tokens(), tok.path@, now)
                    &&& (e matches VracError::TokenAlreadyExists(p) && p@ == tok.path@)
                    &&& *final(self) == *old(self)
                },
            },
    {
        let n = self.tokens.len();
        let mut i: usize = 0;
        while i < n
            invariant
                n == self.tokens().len(),
                0 <= i <= n,
                *self == *old(self),
                old(self).wf(),
                forall|j: int|
                    0 <= j < i ==> !((#[trigger] self.tokens()[j]).path@ == tok.path@
                        && is_live(self.tokens()[j], now)),
            decreases n - i,
        {
            let t = &self.tokens[i];
            if token_is_live(t, now) && t.path == tok.path {
                return Err(VracError::TokenAlreadyExists(tok.path));
            }
            i += 1;
        }
        let id = self.next_token_id;
        let t = Token {
            id: id,
            path: tok.path,
            status: TokenStatus::Fresh,
            max_size_mib: tok.max_size_mib,
            created_at: now,
            token_expires_at: tok.token_expires_at,
            content_expires_at: None,
            content_expires_after_hours: tok.content_expires_after_hours,
            deleted_at: None,
        };
        self.tokens.push(t.clone());
        self.next_token_id = id + 1;
        proof {
            assert(forall|i: int|
                0 <= i < self.tokens().len() ==> token_wf(#[trigger] self.tokens()[i]));
            assert(token_ids_increasing(self.tokens()));
            assert(forall|i: int|
                0 <= i < self.files().len() ==> file_wf(#[trigger] self.files()[i])
                    && self.files()[i].id < self.next_file_id());
            assert(self.users() == old(self).users());
            assert(forall|i: int, j: int|
                0 <= i < j < self.users().len() ==> #[trigger] self.users()[i].id@
                    != #[trigger] self.users()[j].id@);
        }
        Ok(t)
    }

    /// Consumes the Fresh token with id `token_id`: its status becomes Used
    /// and its content deadline is fixed, once, to `now` plus the recorded
    /// retention duration (or stays unset when the content never expires).
    /// A token that is not currently Fresh is left untouched: retries and
    /// concurrent reaper passes are not failures.
    #[verifier::loop_isolation(false)]
    pub fn consume_token(&mut self, token_id: i64, now: i64)
        requires
            old(self).wf(),
            now <= i64::MAX - MAX_EXPIRY_SECS,
        ensures
            final(self).wf(),
            final(self).tokens() == consume_map(old(self).tokens(), token_id, now),
            final(self).files() == old(self).files(),
            final(self).users() == old(self).users(),
            final(self).next_token_id() == old(self).next_token_id(),
            final(self).next_file_id() == old(self).next_file_id(),
    {
        let n = self.tokens.len();
        let mut i: usize = 0;
        while i < n
            invariant
                0 <= i <= n,
                n == self.tokens().len(),
                forall|j: int|
                    0 <= j < i ==> #[trigger] self.tokens()[j] == consume_map(
                        old(self).tokens(),
                        token_id,
                        now,
                    )[j],
                forall|j: int|
                    i <= j < n ==> #[trigger] self.tokens()[j] == old(self).tokens()[j],
                self.files() == old(self).files(),
                self.users() == old(self).users(),
                self.next_token_id() == old(self).next_token_id(),
                self.next_file_id() == old(self).next_file_id(),
            decreases n - i,
        {
            let is_fresh = match self.tokens[i].status {
                TokenStatus::Fresh => true,
                TokenStatus::Used => false,
                TokenStatus::Deleted => false,
            };
            if self.tokens[i].id == token_id && is_fresh {
                let t = &mut self.tokens[i];
                t.status = TokenStatus::Used;
                t.content_expires_at = match t.content_expires_after_hours {
                    Some(h) => Some(now + (h as i64) * 3600),
                    None => None,
                };
            }
            i += 1;
        }
        proof {
            assert(self.tokens() =~= consume_map(old(self).tokens(), token_id, now));
            assert(forall|i: int|
                0 <= i < self.tokens().len() ==> token_wf(#[trigger] self.tokens()[i])
                    && self.tokens()[i].id < self.next_token_id());
            assert(token_ids_increasing(self.tokens()));
        }
    }

    /// Registers a file row as Started, before any of its bytes stream in:
    /// a crash mid-write leaves a discoverable row rather than silent loss.
    pub fn create_file(&mut self, file: CreateFile, now: i64) -> (r: File)
        requires
            old(self).wf(),
            old(self).next_file_id() < i64::MAX,
            1 <= file.token_id,
            file.token_id < old(self).next_token_id(),
        ensures
            final(self).wf(),
            r == new_file(old(self).next_file_id(), file, now),
            final(self).files() == old(self).files().push(r),
            final(self).next_file_id() == old(self).next_file_id() + 1,
            final(self).tokens() == old(self).tokens(),
            final(self).users() == old(self).users(),
            final(self).next_token_id() == old(self).next_token_id(),
    {
        let id = self.next_file_id;
        let f = File {
            id: id,
            token_id: file.token_id,
            name: file.name,
            path: file.path,
            content_type: file.content_type,
            size_mib: None,
            created_at: now,
            deleted_at: None,
            file_upload_status: FileUploadStatus::Started,
        };
        self.files.push(f.clone());
        self.next_file_id = id + 1;
        proof {
            assert(forall|i: int|
                0 <= i < self.files().len() ==> file_wf(#[trigger] self.files()[i])
                    && self.files()[i].id < self.next_file_id());
            assert(file_ids_increasing(self.files()));
            assert(self.tokens() == old(self).tokens());
            assert(self.users() == old(self).users());
            assert(forall|i: int|
                0 <= i < self.tokens().len() ==> token_wf(#[trigger] self.tokens()[i])
                    && self.tokens()[i].id < self.next_token_id());
            assert(token_ids_increasing(self.tokens()));
            assert(forall|i: int, j: int|
                0 <= i < j < self.users().len() ==> #[trigger] self.users()[i].id@
                    != #[trigger] self.users()[j].id@);
        }
        f
    }

    /// Promotes the file row with id `file_id` to Completed, after its full
    /// byte stream has been flushed.
    #[verifier::loop_isolation(false)]
    pub fn complete_upload(&mut self, file_id: i64)
        requires
            old(self).wf(),
        ensures
            final(self).wf(),
            final(self).files() == complete_map(old(self).files(), file_id),
            final(self).tokens() == old(self).tokens(),
            final(self).users() == old(self).users(),
            final(self).next_token_id() == old(self).next_token_id(),
            final(self).next_file_id() == old(self).next_file_id(),
    {
        let n = self.files.len();
        let mut i: usize = 0;
        while i < n
            invariant
                0 <= i <= n,
                n == self.files().len(),
                forall|j: int|
                    0 <= j < i ==> #[trigger] self.files()[j] == complete_map(
                        old(self).files(),
                        file_id,
                    )[j],
                forall|j: int|
                    i <= j < n ==> #[trigger] self.files()[j] == old(self).files()[j],
                self.tokens() == old(self).tokens(),
                self.users() == old(self).users(),
                self.next_token_id() == old(self).next_token_id(),
                self.next_file_id() == old(self).next_file_id(),
            decreases n - i,
        {
            if self.files[i].id == file_id {
                let f = &mut self.files[i];
                f.file_upload_status = FileUploadStatus::Completed;
            }
            i += 1;
        }
        proof {
            assert(self.files() =~= complete_map(old(self).files(), file_id));
            assert(forall|i: int|
                0 <= i < self.files().len() ==> file_wf(#[trigger] self.files()[i])
                    && self.files()[i].id < self.next_file_id());
            assert(file_ids_increasing(self.files()));
        }
    }

    /// Removes the file row with id `file_id` outright; used when a stream
    /// fails before completion. Removing an absent row is not an error.
    #[verifier::loop_isolation(false)]
    pub fn abort_upload(&mut self, file_id: i64)
        requires
            old(self).wf(),
        ensures
            final(self).wf(),
            file_id_present(old(self).files(), file_id) ==> exists|i: int|
                0 <= i < old(self).files().len() && (#[trigger] old(self).files()[i]).id
                    == file_id && final(self).files() == old(self).files().remove(i),
            !file_id_present(old(self).files(), file_id) ==> final(self).files() == old(
                self,
            ).files(),
            !file_id_present(final(self).files(), file_id),
            final(self).tokens() == old(self).tokens(),
            final(self).users() == old(self).users(),
            final(self).next_token_id() == old(self).next_token_id(),
            final(self).next_file_id() == old(self).next_file_id(),
    {
        let n = self.files.len();
        let mut i: usize = 0;
        while i < n
            invariant
                0 <= i <= n,
                n == self.files().len(),
                *self == *old(self),
                forall|j: int| 0 <= j < i ==> (#[trigger] self.files()[j]).id != file_id,
            decreases n - i,
        {
            if self.files[i].id == file_id {
                self.files.remove(i);
                proof {
                    let fs0 = old(self).files();
                    assert(self.files() == fs0.remove(i as int));
                    assert forall|j: int| 0 <= j < self.files().len() implies (
                        #[trigger] self.files()[j]) == if j < i as int {
                        fs0[j]
                    } else {
                        fs0[j + 1]
                    } by {
                        assert(fs0.remove(i as int) == fs0.subrange(0, i as int).add(
                            fs0.subrange(i as int + 1, fs0.len() as int),
                        ));
                    }
                    assert(forall|j: int|
                        0 <= j < self.files().len() ==> (#[trigger] self.files()[j]).id
                            != file_id);
                    assert(forall|j: int|
                        0 <= j < self.files().len() ==> file_wf(#[trigger] self.files()[j])
                            && self.files()[j].id < self.next_file_id());
                    assert(file_ids_increasing(self.files()));
                    assert(self.tokens() == old(self).tokens());
                    assert(self.users() == old(self).users());
                    assert(forall|j: int|
                        0 <= j < self.tokens().len() ==> token_wf(#[trigger] self.tokens()[j])
                            && self.tokens()[j].id < self.next_token_id());
                    assert(token_ids_increasing(self.tokens()));
                    assert(forall|j: int, k: int|
                        0 <= j < k < self.users().len() ==> #[trigger] self.users()[j].id@
                            != #[trigger] self.users()[k].id@);
                }
                return ;
            }
            i += 1;
        }
    }

    /// The Completed files owned by `token`, oldest first: downloadable
    /// content, scoped by ownership. Never returns files of other tokens,
    /// and never exposes a Started row.
    #[verifier::loop_isolation(false)]
    pub fn get_files(&self, token: &Token) -> (r: Vec<File>)
        ensures
            r@ == completed_files_of(self.files(), token.id),
    {
        let n = self.files.len();
        let mut r: Vec<File> = Vec::new();
        let mut i: usize = 0;
        while i < n
            invariant
                0 <= i <= n,
                n == self.files().len(),
                r@ == completed_files_of(self.files().take(i as int), token.id),
            decreases n - i,
        {
            let f = &self.files[i];
            let completed = match f.file_upload_status {
                FileUploadStatus::Started => false,
                FileUploadStatus::Completed => true,
            };
            if f.token_id == token.id && completed {
                r.push(f.clone());
            }
            proof {
                assert(self.files().take(i + 1).drop_last() =~= self.files().take(i as int));
                assert(self.files().take(i + 1).last() == self.files()[i as int]);
            }
            i += 1;
        }
        proof {
            assert(self.files().take(n as int) =~= self.files());
        }
        r
    }

    /// The file with id `file_id`, provided `token` owns it; files of other
    /// tokens are never returned, whatever id the caller supplies.
    #[verifier::loop_isolation(false)]
    pub fn get_file(&self, token: &Token, file_id: i64) -> (r: Option<File>)
        ensures
            match r {
                Some(f) => {
                    &&& exists|i: int|
                        0 <= i < self.files().len() && #[trigger] self.files()[i] == f
                    &&& f.id == file_id
                    &&& f.token_id == token.id
                },
                None => !(exists|i: int|
                    0 <= i < self.files().len() && (#[trigger] self.files()[i]).id == file_id
                        && self.files()[i].token_id == token.id),
            },
    {
        let n = self.files.len();
        let mut i: usize = 0;
        while i < n
            invariant
                0 <= i <= n,
                n == self.files().len(),
                forall|j: int|
                    0 <= j < i ==> !((#[trigger] self.files()[j]).id == file_id
                        && self.files()[j].token_id == token.id),
            decreases n - i,
        {
            let f = &self.files[i];
            if f.token_id == token.id && f.id == file_id {
                let found = f.clone();
                assert(self.files()[i as int] == found);
                return Some(found);
            }
            i += 1;
        }
        None
    }

    /// Returns a token at `path` that is live at `now`: Fresh or Used, with
    /// some deadline still in the future. Deleted or expired tokens are
    /// never returned.
    pub fn get_valid_token(&self, token_path: &String, now: i64) -> (r: Option<Token>)
        ensures
            (r is Some) <==> has_live_token(self.tokens(), token_path@, now),
            match r {
                Some(t) => {
                    &&& exists|i: int|
                        0 <= i < self.tokens().len() && #[trigger] self.tokens()[i] == t
                    &&& t.path@ == token_path@
                    &&& is_live(t, now)
                },
                None => true,
            },
    {
        let n = self.tokens.len();
        let mut i: usize = 0;
        while i < n
            invariant
                n == self.tokens().len(),
                0 <= i <= n,
                forall|j: int|
                    0 <= j < i ==> !((#[trigger] self.tokens()[j]).path@ == token_path@
                        && is_live(self.tokens()[j], now)),
            decreases n - i,
        {
            let t = &self.tokens[i];
            if token_is_live(t, now) && t.path == *token_path {
                let found = t.clone();
                assert(self.tokens()[i as int] == found);
                return Some(found);
            }
            i += 1;
        }
        None
    }

    /// Returns the token at `path` that is live at `now` and still Fresh,
    /// if any: the one an upload may proceed through. A live but already
    /// Used token does not qualify, whatever else shares the path.
    #[verifier::loop_isolation(false)]
    pub fn get_live_fresh_token(&self, token_path: &String, now: i64) -> (r: Option<Token>)
        ensures
            (r is Some) <==> has_live_fresh(self.tokens(), token_path@, now),
            match r {
                Some(t) => {
                    &&& exists|i: int|
                        0 <= i < self.tokens().len() && #[trigger] self.tokens()[i] == t
                    &&& t.path@ == token_path@
                    &&& is_live(t, now)
                    &&& t.status is Fresh
                },
                None => true,
            },
    {
        let n = self.tokens.len();
        let mut i: usize = 0;
        while i < n
            invariant
                0 <= i <= n,
                n == self.tokens().len(),
                forall|j: int|
                    0 <= j < i ==> !((#[trigger] self.tokens()[j]).path@ == token_path@
                        && is_live(self.tokens()[j], now) && self.tokens()[j].status is Fresh),
            decreases n - i,
        {
            let t = &self.tokens[i];
            let fresh = match t.status {
                TokenStatus::Fresh => true,
                TokenStatus::Used => false,
                TokenStatus::Deleted => false,
            };
            if fresh && token_is_live(t, now) && t.path == *token_path {
                let found = t.clone();
                assert(self.tokens()[i as int] == found);
                return Some(found);
            }
            i += 1;
        }
        None
    }

    /// Decides whether a live token at `path` would survive a reaper pass
    /// at `now`. Such a token owns the path's directory, so the pass must
    /// leave that directory alone.
    #[verifier::loop_isolation(false)]
    pub fn path_survives_reaping(&self, token_path: &String, now: i64) -> (r: bool)
        ensures
            r == survives_reaping(self.tokens(), token_path@, now),
    {
        let n = self.tokens.len();
        let mut i: usize = 0;
        while i < n
            invariant
                0 <= i <= n,
                n == self.tokens().len(),
                forall|j: int|
                    0 <= j < i ==> !((#[trigger] self.tokens()[j]).path@ == token_path@
                        && is_live(self.tokens()[j], now) && !content_expired(
                        self.tokens()[j],
                        now,
                    ) && !reap_ready(self.tokens()[j], now)),
            decreases n - i,
        {
            let t = &self.tokens[i];
            let keeper = token_is_live(t, now) && !token_is_content_expired(t, now)
                && !token_is_reap_ready(t, now);
            if keeper && t.path == *token_path {
                assert(self.tokens()[i as int].path@ == token_path@);
                return true;
            }
            i += 1;
        }
        false
    }

    /// Marks every file of the given tokens deleted and the tokens
    /// themselves Deleted, in one transaction, and returns how many file
    /// rows were marked. Used by explicit deletion and by the reaper after
    /// it has removed bytes from disk.
    #[verifier::loop_isolation(false)]
    pub fn delete_files(&mut self, token_ids: &Vec<i64>, now: i64) -> (r: usize)
        requires
            old(self).wf(),
        ensures
            final(self).wf(),
            final(self).files() == mark_files_deleted(old(self).files(), token_ids@, now),
            final(self).tokens() == mark_tokens_deleted(old(self).tokens(), token_ids@, now),
            r == count_owned(old(self).files(), token_ids@),
            final(self).users() == old(self).users(),
            final(self).next_token_id() == old(self).next_token_id(),
            final(self).next_file_id() == old(self).next_file_id(),
    {
        let nf = self.files.len();
        let mut count: usize = 0;
        let mut i: usize = 0;
        while i < nf
            invariant
                0 <= i <= nf,
                nf == self.files().len(),
                count <= i,
                count == count_owned(old(self).files().take(i as int), token_ids@),
                forall|j: int|
                    0 <= j < i ==> #[trigger] self.files()[j] == mark_files_deleted(
                        old(self).files(),
                        token_ids@,
                        now,
                    )[j],
                forall|j: int|
                    i <= j < nf ==> #[trigger] self.files()[j] == old(self).files()[j],
                self.tokens() == old(self).tokens(),
                self.users() == old(self).users(),
                self.next_token_id() == old(self).next_token_id(),
                self.next_file_id() == old(self).next_file_id(),
            decreases nf - i,
        {
            proof {
                assert(old(self).files().take(i + 1).drop_last() =~= old(self).files().take(
                    i as int,
                ));
                assert(old(self).files().take(i + 1).last() == old(self).files()[i as int]);
            }
            if contains_id(token_ids, self.files[i].token_id) {
                let f = &mut self.files[i];
                f.deleted_at = Some(now);
                count += 1;
            }
            i += 1;
        }
        proof {
            assert(old(self).files().take(nf as int) =~= old(self).files());
            assert(self.files() =~= mark_files_deleted(old(self).files(), token_ids@, now));
        }
        let nt = self.tokens.len();
        let mut i: usize = 0;
        while i < nt
            invariant
                0 <= i <= nt,
                nt == self.tokens().len(),
                forall|j: int|
                    0 <= j < i ==> #[trigger] self.tokens()[j] == mark_tokens_deleted(
                        old(self).tokens(),
                        token_ids@,
                        now,
                    )[j],
                forall|j: int|
                    i <= j < nt ==> #[trigger] self.tokens()[j] == old(self).tokens()[j],
                self.files() == mark_files_deleted(old(self).files(), token_ids@, now),
                self.users() == old(self).users(),
                self.next_token_id() == old(self).next_token_id(),
                self.next_file_id() == old(self).next_file_id(),
            decreases nt - i,
        {
            if contains_id(token_ids, self.tokens[i].id) {
                let t = &mut self.tokens[i];
                t.status = TokenStatus::Deleted;
                t.deleted_at = Some(now);
            }
            i += 1;
        }
        proof {
            assert(self.tokens() =~= mark_tokens_deleted(old(self).tokens(), token_ids@, now));
            assert(forall|j: int|
                0 <= j < self.tokens().len() ==> token_wf(#[trigger] self.tokens()[j])
                    && self.tokens()[j].id < self.next_token_id());
            assert(token_ids_increasing(self.tokens()));
            assert(forall|j: int|
                0 <= j < self.files().len() ==> file_wf(#[trigger] self.files()[j])
                    && self.files()[j].id < self.next_file_id());
            assert(file_ids_increasing(self.files()));
        }
        count
    }

    /// One transaction of the expiry sweep: flips every token past its
    /// relevant deadline to Deleted and returns their paths for filesystem
    /// cleanup. Transactional, so a crash between selection and flip cannot
    /// double-report.
    #[verifier::loop_isolation(false)]
    pub fn delete_expired_tokens(&mut self, now: i64) -> (r: Vec<String>)
        requires
            old(self).wf(),
        ensures
            final(self).wf(),
            final(self).tokens() == reap_map(old(self).tokens(), now),
            r@ == reaped_paths(old(self).tokens(), now),
            final(self).files() == old(self).files(),
            final(self).users() == old(self).users(),
            final(self).next_token_id() == old(self).next_token_id(),
            final(self).next_file_id() == old(self).next_file_id(),
    {
        let n = self.tokens.len();
        let mut r: Vec<String> = Vec::new();
        let mut i: usize = 0;
        while i < n
            invariant
                0 <= i <= n,
                n == self.tokens().len(),
                r@ == reaped_paths(old(self).tokens().take(i as int), now),
                forall|j: int|
                    0 <= j < i ==> #[trigger] self.tokens()[j] == reap_map(
                        old(self).tokens(),
                        now,
                    )[j],
                forall|j: int|
                    i <= j < n ==> #[trigger] self.tokens()[j] == old(self).tokens()[j],
                self.files() == old(self).files(),
                self.users() == old(self).users(),
                self.next_token_id() == old(self).next_token_id(),
                self.next_file_id() == old(self).next_file_id(),
            decreases n - i,
        {
            proof {
                assert(old(self).tokens().take(i + 1).drop_last() =~= old(self).tokens().take(
                    i as int,
                ));
                assert(old(self).tokens().take(i + 1).last() == old(self).tokens()[i as int]);
            }
            let ready = token_is_reap_ready(&self.tokens[i], now);
            if ready {
                r.push(self.tokens[i].path.clone());
                let t = &mut self.tokens[i];
                t.status = TokenStatus::Deleted;
                t.deleted_at = Some(now);
            }
            i += 1;
        }
        proof {
            assert(old(self).tokens().take(n as int) =~= old(self).tokens());
            assert(self.tokens() =~= reap_map(old(self).tokens(), now));
            assert(forall|j: int|
                0 <= j < self.tokens().len() ==> token_wf(#[trigger] self.tokens()[j])
                    && self.tokens()[j].id < self.next_token_id());
            assert(token_ids_increasing(self.tokens()));
        }
        r
    }

    /// Every token whose content deadline has strictly passed (the
    /// deadline instant itself still counts as valid, see
    /// [`content_expired`]) but whose row is not
    /// yet marked deleted, each paired with all of its files, in table
    /// order.
    #[verifier::loop_isolation(false)]
    pub fn get_expired_files(&self, now: i64) -> (r: Vec<(Token, Vec<File>)>)
        ensures
            r@.len() == content_expired_tokens(self.tokens(), now).len(),
            forall|k: int|
                0 <= k < r@.len() ==> (#[trigger] r@[k]).0 == content_expired_tokens(
                    self.tokens(),
                    now,
                )[k] && r@[k].1@ == files_of(self.files(), r@[k].0.id),
    {
        let n = self.tokens.len();
        let mut r: Vec<(Token, Vec<File>)> = Vec::new();
        let mut i: usize = 0;
        while i < n
            invariant
                0 <= i <= n,
                n == self.tokens().len(),
                r@.len() == content_expired_tokens(self.tokens().take(i as int), now).len(),
                forall|k: int|
                    0 <= k < r@.len() ==> (#[trigger] r@[k]).0 == content_expired_tokens(
                        self.tokens().take(i as int),
                        now,
                    )[k] && r@[k].1@ == files_of(self.files(), r@[k].0.id),
            decreases n - i,
        {
            proof {
                assert(self.tokens().take(i + 1).drop_last() =~= self.tokens().take(i as int));
                assert(self.tokens().take(i + 1).last() == self.tokens()[i as int]);
            }
            let t = &self.tokens[i];
            let expired = match (t.deleted_at, t.content_expires_at) {
                (None, Some(c)) => c < now,
                _ => false,
            };
            if expired {
                let owned = self.files_of_token(t.id);
                r.push((t.clone(), owned));
            }
            i += 1;
        }
        proof {
            assert(self.tokens().take(n as int) =~= self.tokens());
        }
        r
    }

    /// Every file owned by token `token_id`, in table order.
    #[verifier::loop_isolation(false)]
    fn files_of_token(&self, token_id: i64) -> (r: Vec<File>)
        ensures
            r@ == files_of(self.files(), token_id),
    {
        let n = self.files.len();
        let mut r: Vec<File> = Vec::new();
        let mut i: usize = 0;
        while i < n
            invariant
                0 <= i <= n,
                n == self.files().len(),
                r@ == files_of(self.files().take(i as int), token_id),
            decreases n - i,
        {
            proof {
                assert(self.files().take(i + 1).drop_last() =~= self.files().take(i as int));
                assert(self.files().take(i + 1).last() == self.files()[i as int]);
            }
            let f = &self.files[i];
            if f.token_id == token_id {
                r.push(f.clone());
            }
            i += 1;
        }
        proof {
            assert(self.files().take(n as int) =~= self.files());
        }
        r
    }

    /// Creates a credentialed user: the password is hashed (never stored in
    /// clear) and the pair is inserted, unless the username is taken.
    #[verifier::loop_isolation(false)]
    pub fn gen_user(&mut self, username: String, cleartext_password: String) -> (r: Result<
        (),
        VracError,
    >)
        requires
            old(self).wf(),
        ensures
            final(self).wf(),
            final(self).tokens() == old(self).tokens(),
            final(self).files() == old(self).files(),
            final(self).next_token_id() == old(self).next_token_id(),
            final(self).next_file_id() == old(self).next_file_id(),
            match r {
                Ok(_) => {
                    &&& !username_taken(old(self).users(), username@)
                    &&& final(self).users().len() == old(self).users().len() + 1
                    &&& final(self).users() == old(self).users().push(final(self).users().last())
                    &&& final(self).users().last().id@ == username@
                },
                Err(e) => {
                    &&& final(self).users() == old(self).users()
                    &&& match e {
                        VracError::UserAlreadyExists(u) => u@ == username@ && username_taken(
                            old(self).users(),
                            username@,
                        ),
                        VracError::Storage => !username_taken(old(self).users(), username@),
                        _ => false,
                    }
                },
            },
    {
        let taken = self.username_exists(&username);
        if taken {
            return Err(VracError::UserAlreadyExists(username));
        }
        let phc = match hash_password(&cleartext_password) {
            Some(p) => p,
            None => {
                return Err(VracError::Storage);
            },
        };
        self.add_user(username, phc)
    }

    /// Decides whether a credential row already carries `username`.
    #[verifier::loop_isolation(false)]
    pub fn username_exists(&self, username: &String) -> (r: bool)
        ensures
            r == username_taken(self.users(), username@),
    {
        let n = self.users.len();
        let mut i: usize = 0;
        while i < n
            invariant
                0 <= i <= n,
                n == self.users().len(),
                forall|j: int| 0 <= j < i ==> (#[trigger] self.users()[j]).id@ != username@,
            decreases n - i,
        {
            if self.users[i].id == *username {
                assert(self.users()[i as int].id@ == username@);
                return true;
            }
            i += 1;
        }
        false
    }

    /// Inserts a credential row as given, the password already hashed:
    /// succeeds exactly when the username is free.
    pub fn add_user(&mut self, username: String, phc: String) -> (r: Result<(), VracError>)
        requires
            old(self).wf(),
        ensures
            final(self).wf(),
            final(self).tokens() == old(self).tokens(),
            final(self).files() == old(self).files(),
            final(self).next_token_id() == old(self).next_token_id(),
            final(self).next_file_id() == old(self).next_file_id(),
            match r {
                Ok(_) => {
                    &&& !username_taken(old(self).users(), username@)
                    &&& final(self).users() == old(self).users().push(
                        AuthRecord { id: username, phc: phc },
                    )
                },
                Err(e) => {
                    &&& final(self).users() == old(self).users()
                    &&& (e matches VracError::UserAlreadyExists(u) && u@ == username@)
                    &&& username_taken(old(self).users(), username@)
                },
            },
    {
        if self.username_exists(&username) {
            return Err(VracError::UserAlreadyExists(username));
        }
        self.users.push(AuthRecord { id: username, phc: phc });
        proof {
            assert(forall|j: int, k: int|
                0 <= j < k < self.users().len() ==> #[trigger] self.users()[j].id@
                    != #[trigger] self.users()[k].id@);
        }
        Ok(())
    }

    /// The stored credential of `username`, for the authentication layer to
    /// check a presented password against.
    #[verifier::loop_isolation(false)]
    pub fn get_user_auth(&self, username: &String) -> (r: Result<Auth, VracError>)
        ensures
            match r {
                Ok(a) => exists|i: int|
                    0 <= i < self.users().len() && (#[trigger] self.users()[i]).id@ == username@
                        && a == (Auth::Basic { phc: self.users()[i].phc }),
                Err(e) => e is NotFound && !username_taken(self.users(), username@),
            },
    {
        let n = self.users.len();
        let mut i: usize = 0;
        while i < n
            invariant
                0 <= i <= n,
                n == self.users().len(),
                forall|j: int| 0 <= j < i ==> (#[trigger] self.users()[j]).id@ != username@,
            decreases n - i,
        {
            if self.users[i].id == *username {
                let phc = self.users[i].phc.clone();
                assert(self.users()[i as int].id@ == username@);
                return Ok(Auth::Basic { phc: phc });
            }
            i += 1;
        }
        Err(VracError::NotFound)
    }
}

/// Relies on `chrono::Utc::now`: the current wall-clock time, as whole
/// seconds since the Unix epoch. The result depends on the clock, so
/// nothing is promised of it; callers state what holds for every value.
#[verifier::external_body]
pub(crate) fn now_utc() -> i64 {
    chrono::Utc::now().timestamp()
}

/// Relies on `scrypt::Scrypt::hash_password` (the `PasswordHasher` impl of
/// the scrypt crate) with a fresh `OsRng` salt: computes a PHC-format
/// scrypt hash of the password, or fails. The salt is drawn from the
/// operating system's randomness, so nothing is promised of the result's
/// value.
#[verifier::external_body]
fn hash_password(cleartext: &String) -> (r: Option<String>)
{
    let salt = scrypt::password_hash::SaltString::generate(
        &mut scrypt::password_hash::rand_core::OsRng,
    );
    let hashed = scrypt::password_hash::PasswordHasher::hash_password(
        &scrypt::Scrypt,
        cleartext.as_bytes(),
        &salt,
    );
    match hashed {
        Ok(h) => Some(h.to_string()),
        Err(_) => None,
    }
}

/// Decides whether this token's content deadline has strictly passed
/// while its row is still unmarked.
fn token_is_content_expired(t: &Token, now: i64) -> (r: bool)
    ensures
        r == content_expired(*t, now),
{
    match (t.deleted_at, t.content_expires_at) {
        (None, Some(c)) => c < now,
        _ => false,
    }
}

/// Decides whether the reaper must flip this token at `now`.
fn token_is_reap_ready(t: &Token, now: i64) -> (r: bool)
    ensures
        r == reap_ready(*t, now),
{
    let not_marked = match t.deleted_at {
        Some(_) => false,
        None => true,
    };
    let fresh_expired = match t.status {
        TokenStatus::Fresh => t.token_expires_at < now,
        TokenStatus::Used => false,
        TokenStatus::Deleted => false,
    };
    let used_expired = match (t.status, t.content_expires_at) {
        (TokenStatus::Used, Some(c)) => c < now,
        _ => false,
    };
    not_marked && (fresh_expired || used_expired)
}

} // verus!
