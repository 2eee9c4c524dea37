use vstd::prelude::*;

use crate::records::Email;

verus! {

/// Whether an address with the given expiry flag and expiry timestamp is
/// still usable at time `now`.
///
/// An address that does not expire is always valid. One that expires is
/// valid only while its expiry timestamp is set and lies strictly in the
/// future; an expiring address without a timestamp counts as already
/// expired, never as "never expires".
pub open spec fn spec_is_valid(expire: bool, expire_at: Option<i64>, now: i64) -> bool {
    if !expire {
        true
    } else {
        match expire_at {
            Some(t) => t > now,
            None => false,
        }
    }
}

/// Lifecycle policy: decide whether an address is currently valid.
///
/// Pure: the evaluation time is supplied by the caller, so the decision is
/// deterministic and free of wall-clock coupling. This is the single source
/// of truth for every expiry-aware read path.
pub fn is_valid(expire: bool, expire_at: Option<i64>, now: i64) -> (r: bool)
    ensures
        r == spec_is_valid(expire, expire_at, now),
{
    if !expire {
        true
    } else {
        match expire_at {
            Some(t) => t > now,
            None => false,
        }
    }
}

/// Whether a stored address record is currently valid.
pub fn email_is_valid(e: &Email, now: i64) -> (r: bool)
    ensures
        r == spec_is_valid(e.expire, e.expire_at, now),
{
    is_valid(e.expire, e.expire_at, now)
}

} // verus!
