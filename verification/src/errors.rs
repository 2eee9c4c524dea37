use vstd::prelude::*;

verus! {

/// Error taxonomy of the storage engine.
///
/// Lookup misses are not errors: lookups return `None` instead, so callers
/// can tell "no such record" from "storage failed".
#[derive(Clone, Copy, Debug, PartialEq, Eq, Structural)]
pub enum StorageError {
    /// Malformed input, e.g. an empty domain list. Rejected before any
    /// randomness is drawn or any row is touched.
    Validation,
    /// A uniqueness or referential constraint was violated: a duplicate
    /// address or token, or an owner row that does not exist.
    Conflict,
    /// The storage substrate failed, e.g. the row identifier space is
    /// exhausted.
    Io,
    /// A stored value is itself invalid, e.g. a stored token string that
    /// does not parse back into a token. Fatal for that row only; never
    /// masked as a missing record.
    DataCorruption,
}

impl StorageError {
    /// A short description, for callers that render errors.
    pub fn describe(&self) -> (r: &'static str)
        ensures
            r@ =~= self.describe_spec(),
    {
        proof {
            reveal_strlit("invalid input");
            reveal_strlit("constraint violation");
            reveal_strlit("storage failure");
            reveal_strlit("stored data is corrupt");
        }
        match self {
            StorageError::Validation => "invalid input",
            StorageError::Conflict => "constraint violation",
            StorageError::Io => "storage failure",
            StorageError::DataCorruption => "stored data is corrupt",
        }
    }

    pub open spec fn describe_spec(self) -> Seq<char> {
        match self {
            StorageError::Validation => "invalid input"@,
            StorageError::Conflict => "constraint violation"@,
            StorageError::Io => "storage failure"@,
            StorageError::DataCorruption => "stored data is corrupt"@,
        }
    }
}

} // verus!
