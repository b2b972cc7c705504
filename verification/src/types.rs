//! The values that a key search is about.

use crate::text::{decimal, decimal_text};
use vstd::prelude::*;

verus! {

/// A MeshCore Ed25519 keypair with 32-byte public key and 64-byte private key.
pub struct MeshCoreKeypair {
    pub public_key: [u8; 32],
    pub private_key: [u8; 64],
}

/// Result of a successful vanity key search: the keys in upper-case hex, the
/// prefix that matched, and what the search cost.
pub struct SearchResult {
    pub public_key: String,
    pub private_key: String,
    pub matched_prefix: String,
    pub attempts: u64,
    pub elapsed_nanos: u64,
}

/// Error returned when a search completes without finding a match, for
/// instance because every device failed.
#[derive(Debug)]
pub struct SearchError {
    pub attempts: u64,
    pub elapsed_nanos: u64,
}

/// Live statistics for progress reporting.
pub struct SearchStats {
    pub attempts: u64,
    pub expected_attempts: u64,
    pub elapsed_nanos: u64,
}

impl SearchError {
    /// The message for a user; `seconds` is the elapsed time as text.
    pub fn message(&self, seconds: &str) -> (s: String)
        ensures
            s@ == "search ended without finding a match after "@ + decimal(self.attempts as nat)
                + " attempts ("@ + seconds@ + "s)"@,
    {
        let mut s = String::from_str("search ended without finding a match after ");
        s.append(decimal_text(self.attempts).as_str());
        s.append(" attempts (");
        s.append(seconds);
        s.append("s)");
        s
    }
}

} // verus!
