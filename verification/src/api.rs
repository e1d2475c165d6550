//! The token lifecycle manager's outward face: creation requests as the
//! form layer hands them over, their validation, and the read-side
//! resolution used by both the upload and the download paths.

use vstd::prelude::*;
use vstd::string::*;

use crate::db;
use crate::db::{has_live_token, is_live, new_token, MAX_EXPIRY_HOURS};
use crate::errors::VracError;

verus! {

/// A quantity that may not have an upper bound; isomorphic to `Option`,
/// but spelled out where "unlimited" is meant.
#[derive(Debug, Clone, Copy, PartialEq, Eq, Structural)]
pub enum Quantity<T> {
    Bounded(T),
    Unbounded,
}

/// The bound carried by a quantity, if any.
pub open spec fn quantity_to_opt<T>(q: Quantity<T>) -> Option<T> {
    match q {
        Quantity::Unbounded => None,
        Quantity::Bounded(x) => Some(x),
    }
}

impl<T> From<Quantity<T>> for Option<T> {
    fn from(qte: Quantity<T>) -> Option<T> {
        match qte {
            Quantity::Unbounded => None,
            Quantity::Bounded(x) => Some(x),
        }
    }
}

impl<T> vstd::std_specs::convert::FromSpecImpl<Quantity<T>> for Option<T> {
    open spec fn obeys_from_spec() -> bool {
        true
    }

    open spec fn from_spec(v: Quantity<T>) -> Option<T> {
        quantity_to_opt(v)
    }
}

/// A validated token creation request.
#[derive(Debug)]
pub struct Token {
    /// The caller-chosen slug the token will be addressed by.
    pub path: String,
    /// Aggregate upload budget, in mebibytes.
    pub max_size_in_mb: Quantity<u32>,
    /// How long uploaded content stays downloadable, in hours.
    pub content_expires_after: u32,
    /// How long the upload step may take, in hours.
    pub token_valid_for: Quantity<u32>,
}

/// A rejected form input, with the reason.
#[derive(Debug)]
pub struct Invalid {
    message: String,
}

impl Invalid {
    /// The reason the input was rejected.
    pub closed spec fn spec_message(self) -> Seq<char> {
        self.message@
    }

    /// Wraps a rejection reason.
    pub fn new(message: String) -> (r: Invalid)
        ensures
            r.spec_message() == message@,
    {
        Invalid { message }
    }

    /// The reason the input was rejected.
    pub fn message(&self) -> (r: &String)
        ensures
            r@ == self.spec_message(),
    {
        &self.message
    }
}

/// The size limit a form tag stands for, if the tag is recognized.
pub open spec fn size_of_tag(s: Seq<char>) -> Option<Quantity<u32>> {
    if s == "Unlimited"@ {
        Some(Quantity::Unbounded)
    } else if s == "1MB"@ {
        Some(Quantity::Bounded(1u32))
    } else if s == "10MB"@ {
        Some(Quantity::Bounded(10u32))
    } else if s == "200MB"@ {
        Some(Quantity::Bounded(200u32))
    } else if s == "1GB"@ {
        Some(Quantity::Bounded(1024u32))
    } else if s == "5GB"@ {
        Some(Quantity::Bounded(5120u32))
    } else {
        None
    }
}

/// The duration in hours a form tag stands for, if the tag is recognized.
pub open spec fn duration_of_tag(s: Seq<char>) -> Option<u32> {
    if s == "1Hour"@ {
        Some(1u32)
    } else if s == "1Day"@ {
        Some(24u32)
    } else if s == "1Week"@ {
        Some(168u32)
    } else if s == "1Month"@ {
        Some(744u32)
    } else {
        None
    }
}

/// The validity duration a form tag stands for; `DoesntExpire` is accepted
/// here and nowhere else.
pub open spec fn valid_for_of_tag(s: Seq<char>) -> Option<Quantity<u32>> {
    if s == "DoesntExpire"@ {
        Some(Quantity::Unbounded)
    } else {
        match duration_of_tag(s) {
            Some(h) => Some(Quantity::Bounded(h)),
            None => None,
        }
    }
}

/// Parses a size-limit form tag.
pub fn parse_size(raw: &String) -> (r: Result<Quantity<u32>, String>)
    ensures
        match r {
            Ok(q) => size_of_tag(raw@) == Some(q),
            Err(m) => size_of_tag(raw@) is None && m@ == "cannot parse quantity<u32> from "@
                + raw@,
        },
{
    if *raw == String::from_str("Unlimited") {
        Ok(Quantity::Unbounded)
    } else if *raw == String::from_str("1MB") {
        Ok(Quantity::Bounded(1))
    } else if *raw == String::from_str("10MB") {
        Ok(Quantity::Bounded(10))
    } else if *raw == String::from_str("200MB") {
        Ok(Quantity::Bounded(200))
    } else if *raw == String::from_str("1GB") {
        Ok(Quantity::Bounded(1024))
    } else if *raw == String::from_str("5GB") {
        Ok(Quantity::Bounded(5120))
    } else {
        Err(String::from_str("cannot parse quantity<u32> from ").concat(raw.as_str()))
    }
}

/// Parses a duration form tag into whole hours (one month is 31 days).
pub fn parse_duration(raw: &String) -> (r: Result<u32, String>)
    ensures
        match r {
            Ok(h) => duration_of_tag(raw@) == Some(h),
            Err(m) => duration_of_tag(raw@) is None && m@ == "cannot parse Duration from "@
                + raw@,
        },
{
    if *raw == String::from_str("1Hour") {
        Ok(1)
    } else if *raw == String::from_str("1Day") {
        Ok(24)
    } else if *raw == String::from_str("1Week") {
        Ok(168)
    } else if *raw == String::from_str("1Month") {
        Ok(744)
    } else {
        Err(String::from_str("cannot parse Duration from ").concat(raw.as_str()))
    }
}

/// Parses a token-validity form tag; `DoesntExpire` means unbounded.
pub fn parse_valid_for(raw: &String) -> (r: Result<Quantity<u32>, String>)
    ensures
        match r {
            Ok(q) => valid_for_of_tag(raw@) == Some(q),
            Err(_) => valid_for_of_tag(raw@) is None,
        },
{
    if *raw == String::from_str("DoesntExpire") {
        Ok(Quantity::Unbounded)
    } else {
        match parse_duration(raw) {
            Ok(h) => Ok(Quantity::Bounded(h)),
            Err(m) => Err(m),
        }
    }
}

/// All four form fields are present and carry recognized tags.
pub open spec fn form_parseable(
    path: Option<&String>,
    max_size: Option<&String>,
    expires: Option<&String>,
    valid_for: Option<&String>,
) -> bool {
    &&& path is Some
    &&& (max_size matches Some(ms) && size_of_tag(ms@) is Some)
    &&& (expires matches Some(e) && duration_of_tag(e@) is Some)
    &&& (valid_for matches Some(v) && valid_for_of_tag(v@) is Some)
}

/// Assembles a creation request from the raw form fields, rejecting a
/// missing field or an unrecognized tag.
pub fn parse_token_(
    path: Option<&String>,
    max_size: Option<&String>,
    expires: Option<&String>,
    valid_for: Option<&String>,
) -> (r: Result<Token, String>)
    ensures
        match r {
            Ok(t) => {
                &&& form_parseable(path, max_size, expires, valid_for)
                &&& (path matches Some(p) && t.path@ == p@)
                &&& (max_size matches Some(ms) && size_of_tag(ms@) == Some(t.max_size_in_mb))
                &&& (expires matches Some(e) && duration_of_tag(e@) == Some(
                    t.content_expires_after,
                ))
                &&& (valid_for matches Some(v) && valid_for_of_tag(v@) == Some(t.token_valid_for))
            },
            Err(_) => !form_parseable(path, max_size, expires, valid_for),
        },
{
    let path = match path {
        Some(p) => p.clone(),
        None => {
            return Err(String::from_str("Missing path"));
        },
    };
    let max_size_in_mb = match max_size {
        Some(ms) => match parse_size(ms) {
            Ok(q) => q,
            Err(m) => {
                return Err(m);
            },
        },
        None => {
            return Err(String::from_str("Missing max-size"));
        },
    };
    let content_expires_after = match expires {
        Some(e) => match parse_duration(e) {
            Ok(h) => h,
            Err(m) => {
                return Err(m);
            },
        },
        None => {
            return Err(String::from_str("Missing expires"));
        },
    };
    let token_valid_for = match valid_for {
        Some(v) => match parse_valid_for(v) {
            Ok(q) => q,
            Err(m) => {
                return Err(m);
            },
        },
        None => {
            return Err(String::from_str("Missing valid-for"));
        },
    };
    Ok(Token { path, max_size_in_mb, content_expires_after, token_valid_for })
}

/// A recognized size-limit value, in mebibytes.
pub open spec fn valid_size_mb(s: u32) -> bool {
    s == 1 || s == 10 || s == 200 || s == 1024 || s == 5120
}

/// A recognized duration value, in hours.
pub open spec fn valid_duration_hours(h: u32) -> bool {
    h == 1 || h == 24 || h == 168 || h == 744
}

/// A creation request the lifecycle manager accepts: non-empty path,
/// recognized size and duration values.
pub open spec fn valid_request(req: Token) -> bool {
    &&& req.path@.len() > 0
    &&& (req.max_size_in_mb matches Quantity::Bounded(s) ==> valid_size_mb(s))
    &&& valid_duration_hours(req.content_expires_after)
    &&& (req.token_valid_for matches Quantity::Bounded(h) ==> valid_duration_hours(h))
}

/// The upload deadline a request asks for: `now` plus the validity
/// duration, or the end of time for a token that does not expire.
pub open spec fn requested_expiry(valid_for: Quantity<u32>, now: i64) -> i64 {
    match valid_for {
        Quantity::Bounded(h) => (now as int + (h as int) * 3600) as i64,
        Quantity::Unbounded => i64::MAX,
    }
}

/// The store-level creation order a request stands for.
pub open spec fn create_spec_of(req: Token, now: i64) -> db::CreateToken {
    db::CreateToken {
        path: req.path,
        max_size_mib: quantity_to_opt(req.max_size_in_mb),
        token_expires_at: requested_expiry(req.token_valid_for, now),
        content_expires_after_hours: Some(req.content_expires_after),
    }
}

/// Validates a creation request and mints the token: the path must be
/// non-empty and every enumeration value recognized; the upload deadline
/// is fixed at `now` plus the requested validity. The caller serializes
/// this with every other store mutation.
pub fn request_token(store: &mut db::Store, req: Token, now: i64) -> (r: Result<
    db::Token,
    VracError,
>)
    requires
        old(store).wf(),
        old(store).next_token_id() < i64::MAX,
        now <= i64::MAX - db::MAX_EXPIRY_SECS,
    ensures
        final(store).wf(),
        final(store).files() == old(store).files(),
        final(store).users() == old(store).users(),
        final(store).next_file_id() == old(store).next_file_id(),
        match r {
            Ok(t) => {
                &&& valid_request(req)
                &&& !has_live_token(old(store).tokens(), req.path@, now)
                &&& t == new_token(old(store).next_token_id(), create_spec_of(req, now), now)
                &&& final(store).tokens() == old(store).tokens().push(t)
                &&& final(store).next_token_id() == old(store).next_token_id() + 1
            },
            Err(e) => {
                &&& *final(store) == *old(store)
                &&& match e {
                    VracError::Validation(_) => !valid_request(req),
                    VracError::TokenAlreadyExists(p) => valid_request(req) && p@ == req.path@
                        && has_live_token(old(store).tokens(), req.path@, now),
                    _ => false,
                }
            },
        },
{
    if req.path.as_str().is_empty() {
        return Err(VracError::Validation(String::from_str("path must not be empty")));
    }
    let size_ok = match req.max_size_in_mb {
        Quantity::Unbounded => true,
        Quantity::Bounded(s) => s == 1 || s == 10 || s == 200 || s == 1024 || s == 5120,
    };
    if !size_ok {
        return Err(VracError::Validation(String::from_str("unrecognized size limit")));
    }
    let h = req.content_expires_after;
    if !(h == 1 || h == 24 || h == 168 || h == 744) {
        return Err(VracError::Validation(String::from_str("unrecognized content duration")));
    }
    let token_expires_at = match req.token_valid_for {
        Quantity::Unbounded => i64::MAX,
        Quantity::Bounded(v) => {
            if !(v == 1 || v == 24 || v == 168 || v == 744) {
                return Err(VracError::Validation(String::from_str("unrecognized validity")));
            }
            now + (v as i64) * 3600
        },
    };
    assert(valid_duration_hours(req.content_expires_after));
    assert(req.content_expires_after <= MAX_EXPIRY_HOURS);
    let spec = db::CreateToken {
        path: req.path,
        max_size_mib: Option::from(req.max_size_in_mb),
        token_expires_at,
        content_expires_after_hours: Some(h),
    };
    store.create_token(spec, now)
}

/// Resolves a path for reading: the one live token there, if any. A
/// Deleted token is treated exactly like "no token": never surfaced.
pub fn resolve_for_read(store: &db::Store, path: &String, now: i64) -> (r: Option<db::Token>)
    ensures
        (r is Some) <==> has_live_token(store.tokens(), path@, now),
        match r {
            Some(t) => {
                &&& exists|i: int|
                    0 <= i < store.tokens().len() && #[trigger] store.tokens()[i] == t
                &&& t.path@ == path@
                &&& is_live(t, now)
                &&& !(t.status is Deleted)
            },
            None => true,
        },
{
    store.get_valid_token(path, now)
}

} // verus!
