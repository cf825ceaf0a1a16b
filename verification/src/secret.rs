//! Zeroing of secret buffers.
//!
//! Verus cannot verify a `Drop` body, so every owner of a secret buffer calls
//! one of these before releasing it, on success and error paths alike.

use vstd::prelude::*;

verus! {

/// Zeroes a secret byte buffer in place.
pub fn zeroize_bytes(data: &mut Vec<u8>)
    ensures
        final(data)@.len() == old(data)@.len(),
        forall|j: int| 0 <= j < final(data)@.len() ==> final(data)@[j] == 0,
{
    let n = data.len();
    let mut i: usize = 0;
    while i < n
        invariant
            i <= n,
            n == data@.len(),
            forall|j: int| 0 <= j < i ==> data@[j] == 0,
        decreases n - i,
    {
        *vstd::std_specs::vec::vec_index_mut(data, i) = 0;
        i += 1;
    }
}

/// Zeroes a secret buffer of 64-bit words in place.
pub fn zeroize_words(data: &mut Vec<u64>)
    ensures
        final(data)@.len() == old(data)@.len(),
        forall|j: int| 0 <= j < final(data)@.len() ==> final(data)@[j] == 0,
{
    let n = data.len();
    let mut i: usize = 0;
    while i < n
        invariant
            i <= n,
            n == data@.len(),
            forall|j: int| 0 <= j < i ==> data@[j] == 0,
        decreases n - i,
    {
        *vstd::std_specs::vec::vec_index_mut(data, i) = 0;
        i += 1;
    }
}

} // verus!
