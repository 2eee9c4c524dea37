use vstd::prelude::*;

use crate::errors::StorageError;

verus! {

/// Number of characters in a generated local part.
pub const USERNAME_LEN: usize = 10;

/// The generation alphabet: the lowercase letters followed by the digits.
pub open spec fn charset() -> Seq<char> {
    "abcdefghijklmnopqrstuvwxyz0123456789"@
}

/// A character a generated local part may contain.
pub open spec fn is_local_char(c: char) -> bool {
    charset().contains(c)
}

/// `s` is `local@domain` for the given domain: a local part of
/// [`USERNAME_LEN`] characters drawn from the alphabet, then `@`, then the
/// domain.
pub open spec fn is_candidate_for(s: Seq<char>, domain: Seq<char>) -> bool {
    &&& s.len() == USERNAME_LEN + 1 + domain.len()
    &&& forall|i: int| 0 <= i < USERNAME_LEN ==> is_local_char(#[trigger] s[i])
    &&& s[USERNAME_LEN as int] == '@'
    &&& s.subrange(USERNAME_LEN + 1, s.len() as int) == domain
}

/// `s` is `local@domain` for some domain in the list.
pub open spec fn is_candidate(s: Seq<char>, domains: Seq<String>) -> bool {
    exists|d: int| 0 <= d < domains.len() && is_candidate_for(s, (#[trigger] domains[d])@)
}

/// Relies on rand::random_range: a value drawn uniformly from `0..n` by
/// the process-wide generator. The range is non-empty by the precondition,
/// so the call cannot panic; nothing more is promised of a random draw.
#[verifier::external_body]
fn random_index(n: usize) -> (r: usize)
    requires
        n > 0,
    ensures
        r < n,
{
    rand::random_range(0..n)
}

/// Produce a syntactically valid candidate address: a random local part of
/// [`USERNAME_LEN`] alphabet characters, `@`, and a domain chosen at
/// random from the list. An empty domain list is rejected before any
/// randomness is drawn; with a non-empty list the call always succeeds.
pub fn generate_candidate(domains: &Vec<String>) -> (r: Result<String, StorageError>)
    ensures
        r is Ok <==> domains@.len() > 0,
        r is Err ==> r->Err_0 == StorageError::Validation,
        r is Ok ==> is_candidate(r->Ok_0@, domains@),
{
    if domains.len() == 0 {
        return Err(StorageError::Validation);
    }
    let alphabet = "abcdefghijklmnopqrstuvwxyz0123456789";
    proof {
        reveal_strlit("abcdefghijklmnopqrstuvwxyz0123456789");
    }
    let mut s = String::new();
    let mut i: usize = 0;
    while i < USERNAME_LEN
        invariant
            i <= USERNAME_LEN,
            alphabet@ == charset(),
            s@.len() == i,
            forall|j: int| 0 <= j < i ==> is_local_char(#[trigger] s@[j]),
        decreases USERNAME_LEN - i,
    {
        proof {
            reveal_strlit("abcdefghijklmnopqrstuvwxyz0123456789");
        }
        let idx = random_index(36);
        let piece = alphabet.substring_char(idx, idx + 1);
        let ghost s0 = s@;
        s.append(piece);
        proof {
            assert(s@ =~= s0.push(alphabet@[idx as int]));
            assert(charset()[idx as int] == alphabet@[idx as int]);
            assert(is_local_char(alphabet@[idx as int]));
        }
        i = i + 1;
    }
    let d = random_index(domains.len());
    let domain: &String = &domains[d];
    let ghost local = s@;
    proof {
        reveal_strlit("@");
    }
    s.append("@");
    s.append(domain.as_str());
    proof {
        assert(s@ == local + "@"@ + domain@);
        assert(s@.len() == USERNAME_LEN + 1 + domain@.len());
        assert(forall|j: int| 0 <= j < USERNAME_LEN ==> is_local_char(#[trigger] s@[j]));
        assert(s@[USERNAME_LEN as int] == '@');
        assert(s@.subrange(USERNAME_LEN + 1, s@.len() as int) =~= domain@);
        assert(is_candidate_for(s@, domains@[d as int]@));
    }
    Ok(s)
}

} // verus!
