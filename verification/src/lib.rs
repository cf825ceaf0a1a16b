//! Trusted core of a private contact-discovery service.
//!
//! Clients submit batches of phone-number queries; the core batches them,
//! performs a bulk directory lookup, and replies to each caller with only its
//! own results. Per-client rate limiting is enforced over encrypted,
//! client-persisted state with a strictly monotonic nonce.

use vstd::prelude::*;

pub mod crypto;
pub mod ct;
pub mod phone_hash;
pub mod ratelimit_data;
pub mod ratelimit_map;
pub mod ratelimit_state;
pub mod secret;
pub mod server;
pub mod ratelimit_set;

verus! {

/// Status codes returned across the sealed-call surface.
#[derive(Clone, Copy, Debug, PartialEq, Eq, Structural)]
pub enum SgxStatus {
    /// Size or pointer validation failure.
    InvalidParameter,
    /// Rate-limit path used but rate limiting is disabled for this instance.
    InvalidState,
    /// RNG failure or post-condition write failure.
    Unexpected,
    /// AES-GCM authentication failure on the request query.
    MacMismatch,
    /// Query size or phone-count arithmetic invalid.
    InvalidRequestSize,
    /// SHA-256 of the decrypted query differs from the commitment.
    QueryCommitmentMismatch,
    /// Rate-limit state MAC failure, short buffer, or nonce overflow.
    InvalidRateLimitState,
    /// Post-add rate-limit set size reached the hidden size limit.
    RateLimitExceeded,
}

/// A 128-bit client identifier, carried as two 64-bit words, low word first.
/// The all-zero value denotes "absent".
#[derive(Clone, Copy, Debug, PartialEq, Eq)]
pub struct Uuid {
    pub data64: [u64; 2],
}

/// The identifier as one 128-bit value: low word first.
pub open spec fn uuid_value(u: Uuid) -> u128 {
    (u.data64[0] as u128) | (u.data64[1] as u128) << 64
}

/// The identifier as one 128-bit value.
pub fn uuid_to_u128(u: &Uuid) -> (r: u128)
    ensures
        r == uuid_value(*u),
{
    (u.data64[0] as u128) | (u.data64[1] as u128) << 64
}

} // verus!
