use vstd::prelude::*;

use crate::errors::StorageError;
use crate::ident::is_candidate;
use crate::policy::spec_is_valid;
use crate::records::Email;
use crate::store::Database;

verus! {

/// How long a provisioned address lives, in milliseconds: one day.
pub const DAY_MS: i64 = 86_400_000;

/// The provisioning flow: produce a random address that is not in use,
/// store it with a one-day expiry, and return the stored record.
///
/// An empty domain list is rejected, before any randomness is drawn, with
/// a validation error; every other error (a generation or token collision)
/// is a conflict and also leaves the engine unchanged. On an empty engine
/// whose key space is open, the call succeeds. On success the new address
/// string is a fresh candidate over the domain list, the record expires,
/// its expiry timestamp lies one day past `now`, and the record is valid
/// under the lifecycle policy at `now`.
pub fn generate_random_email(db: &mut Database, domains: &Vec<String>, now: i64) -> (r: Result<
    Email,
    StorageError,
>)
    requires
        old(db)@.wf(),
        now <= i64::MAX - DAY_MS,
    ensures
        final(db)@.wf(),
        (domains@.len() == 0) ==> (r is Err && r->Err_0 == StorageError::Validation),
        domains@.len() > 0 && old(db)@.emails.len() == 0 && old(db)@.next_email_id < i64::MAX
            ==> r is Ok,
        r is Err && domains@.len() > 0 && old(db)@.next_email_id < i64::MAX ==> r->Err_0
            == StorageError::Conflict,
        r is Err ==> final(db)@ == old(db)@,
        r is Ok ==> is_candidate(r->Ok_0@.email, domains@) && !old(db)@.has_address(
            r->Ok_0@.email,
        ) && r->Ok_0@.expire == true && r->Ok_0@.expire_at == Some((now + DAY_MS) as int)
            && r->Ok_0@.inserted_at == now as int && final(db)@ == old(db)@.with_email(r->Ok_0@),
        r is Ok ==> spec_is_valid(r->Ok_0.expire, r->Ok_0.expire_at, now),
{
    let candidate = match db.get_random_email(domains) {
        Ok(c) => c,
        Err(e) => {
            return Err(e);
        },
    };
    match db.create_email(candidate.as_str(), true, Some(now + DAY_MS), now) {
        Ok(rec) => {
            proof {
                match rec.expire_at {
                    Some(t) => {
                        assert(rec@.expire_at == Some(t as int));
                        assert(t == now + DAY_MS);
                    },
                    None => {
                        assert(false);
                    },
                }
            }
            Ok(rec)
        },
        Err(e) => Err(e),
    }
}

} // verus!
