//! Per-client rate-limit cell: authenticated encryption with a monotonic
//! nonce.
//!
//! The cell holds a strictly monotonic nonce, starting at 1, and a fresh
//! random AES-256-GCM key. An update decrypts the client-persisted slab (or
//! initialises a fresh all-zero one), adds the query phones to its set, and
//! re-encrypts. The nonce is incremented *before* any output is revealed, so
//! every revealed ciphertext uses a nonce strictly greater than any revealed
//! before it for that key, and a replay of an earlier ciphertext cannot
//! re-derive the next IV.

use crate::crypto::aes256_gcm_decrypt;
use crate::crypto::aes256_gcm_encrypt;
use crate::crypto::gcm_ct;
use crate::crypto::gcm_pt;
use crate::crypto::gcm_tag;
use crate::crypto::random_bytes;
use crate::ratelimit_data::effective_slot_count;
use crate::ratelimit_data::lemma_state_after_add_len;
use crate::ratelimit_data::sat_add_u32;
use crate::ratelimit_data::size_limit_of;
use crate::ratelimit_data::slots_of;
use crate::ratelimit_data::state_after_add;
use crate::ratelimit_data::RatelimitStateData;
use crate::ratelimit_set::add_entries;
use crate::ratelimit_set::reported_size;
use crate::SgxStatus;
use vstd::bytes::spec_u32_from_le_bytes;
use vstd::bytes::spec_u32_to_le_bytes;
use vstd::bytes::u32_to_le_bytes;
use vstd::prelude::*;

verus! {

/// The largest slab the cell accepts: the AES-GCM single-message limit.
pub const MAX_RATELIMIT_DATA_LEN: usize = 0xffff_ffff;

/// Whether every byte of a slab is zero: an all-zero slab marks first use.
pub open spec fn all_zero(s: Seq<u8>) -> bool {
    forall|i: int| 0 <= i < s.len() ==> s[i] == 0
}

/// The 12-byte AES-GCM IV derived from a nonce: the nonce little-endian in
/// the first four bytes, the rest zero.
pub open spec fn iv_of(nonce: u32) -> Seq<u8> {
    spec_u32_to_le_bytes(nonce) + Seq::<u8>::new(8, |i: int| 0u8)
}

/// A freshly initialised slab's plaintext: the drawn size limit over the
/// first four bytes of the (all-zero) slab.
pub open spec fn fresh_plaintext(data: Seq<u8>, limit: u32) -> Seq<u8> {
    spec_u32_to_le_bytes(limit) + data.skip(4)
}

/// Whether `limit` is a size limit that first use may draw for a slab of this
/// size: half the effective slot count plus a random offset below that half.
pub open spec fn fresh_limit_ok(data: Seq<u8>, limit: u32) -> bool {
    let half = effective_slot_count(data) / 2;
    exists|off: u32|
        #![auto]
        (if half == 0 {
            off == 0
        } else {
            off < half
        }) && limit == sat_add_u32(half, off)
}

/// The non-fresh slab clears authentication: it is well-sized, its tag
/// matches under the cell's current nonce, and the nonce can still be
/// incremented. What remains of success is only the rate-limit check.
pub open spec fn decrypt_auth_ok(key: Seq<u8>, nonce: u32, data: Seq<u8>, mac: Seq<u8>) -> bool {
    &&& !all_zero(data)
    &&& 4 <= data.len() <= 0xffff_ffff
    &&& mac == gcm_tag(key, iv_of(nonce), data)
    &&& nonce < u32::MAX
}

/// The exact condition under which an update of a non-fresh slab succeeds:
/// it authenticates, and after the phones are added the set size stays below
/// the slab's concealed limit.
pub open spec fn decrypt_path_ok(
    key: Seq<u8>,
    nonce: u32,
    data: Seq<u8>,
    mac: Seq<u8>,
    phones: Seq<u64>,
) -> bool {
    let pt = gcm_pt(key, iv_of(nonce), data);
    &&& decrypt_auth_ok(key, nonce, data, mac)
    &&& reported_size(add_entries(slots_of(pt), phones)) < size_limit_of(pt)
}

/// What a successful update reveals: the ciphertext of the slab with the
/// phones added, under the incremented nonce, and its authentication tag.
pub open spec fn update_output_ok(
    key: Seq<u8>,
    new_nonce: u32,
    pt: Seq<u8>,
    phones: Seq<u64>,
    out_data: Seq<u8>,
    out_mac: Seq<u8>,
) -> bool {
    &&& reported_size(add_entries(slots_of(pt), phones)) < size_limit_of(pt)
    &&& out_data == gcm_ct(key, iv_of(new_nonce), state_after_add(pt, phones))
    &&& out_mac == gcm_tag(key, iv_of(new_nonce), out_data)
    &&& gcm_pt(key, iv_of(new_nonce), out_data) == state_after_add(pt, phones)
}

/// The full effect of one successful update on a cell and a slab, split into
/// ciphertext and MAC: the key is kept, the nonce advances by one, and the
/// revealed ciphertext and tag are those of the slab's plaintext — decrypted,
/// or freshly initialised if the slab was all zero — with the phones added,
/// under the advanced nonce.
pub open spec fn update_ok(
    st_prev: RatelimitState,
    st_new: RatelimitState,
    data: Seq<u8>,
    mac: Seq<u8>,
    phones: Seq<u64>,
    out_data: Seq<u8>,
    out_mac: Seq<u8>,
) -> bool {
    &&& st_new.key@ == st_prev.key@
    &&& st_new.nonce == st_prev.nonce + 1
    &&& 4 <= data.len() <= 0xffff_ffff
    &&& if all_zero(data) {
        exists|limit: u32|
            #![auto]
            fresh_limit_ok(data, limit) && update_output_ok(
                st_prev.key@,
                st_new.nonce,
                fresh_plaintext(data, limit),
                phones,
                out_data,
                out_mac,
            )
    } else {
        &&& decrypt_path_ok(st_prev.key@, st_prev.nonce, data, mac, phones)
        &&& update_output_ok(
            st_prev.key@,
            st_new.nonce,
            gcm_pt(st_prev.key@, iv_of(st_prev.nonce), data),
            phones,
            out_data,
            out_mac,
        )
    }
}

/// Per-client in-enclave rate-limit cell.
pub struct RatelimitState {
    /// Strictly monotonic, starting at 1; never wraps.
    pub nonce: u32,
    /// Fresh random AES-256-GCM key, drawn when the cell is created.
    pub key: Vec<u8>,
}

impl RatelimitState {
    /// A well-formed cell: the nonce has left 0 behind and the key is a full
    /// AES-256 key.
    pub open spec fn wf(self) -> bool {
        &&& self.nonce >= 1
        &&& self.key@.len() == 32
    }

    /// A fresh cell: nonce 1 and a random key. Fails only if the RNG does.
    pub fn fresh() -> (r: Result<RatelimitState, SgxStatus>)
        ensures
            r matches Ok(st) ==> st.wf() && st.nonce == 1,
            r is Err ==> r == Err::<RatelimitState, SgxStatus>(SgxStatus::Unexpected),
    {
        match random_bytes(32) {
            Ok(key) => Ok(RatelimitState { nonce: 1, key }),
            Err(_) => Err(SgxStatus::Unexpected),
        }
    }

    /// The AES-GCM IV for the cell's current nonce.
    pub fn get_iv(&self) -> (iv: Vec<u8>)
        ensures
            iv@ == iv_of(self.nonce),
            iv@.len() == 12,
    {
        let mut iv = u32_to_le_bytes(self.nonce);
        let mut z: usize = 0;
        while z < 8
            invariant
                z <= 8,
                iv@ == spec_u32_to_le_bytes(self.nonce) + Seq::<u8>::new(z as nat, |i: int| 0u8),
            decreases 8 - z,
        {
            iv.push(0);
            assert(iv@ =~= spec_u32_to_le_bytes(self.nonce) + Seq::<u8>::new(
                (z + 1) as nat,
                |i: int| 0u8,
            ));
            z += 1;
        }
        iv
    }

    /// Decrypt-or-initialise, add, re-encrypt.
    ///
    /// An all-zero slab marks first use and is initialised with a randomly
    /// drawn concealed size limit; any other slab must authenticate under the
    /// cell's current nonce. The nonce is incremented before the re-encrypted
    /// slab is revealed. On error nothing is revealed; only the errors that
    /// arise after the increment (the rate-limit check) leave the nonce
    /// advanced.
    pub fn update(
        &mut self,
        ratelimit_state_data: Vec<u8>,
        ratelimit_state_mac: &[u8],
        query_phones: &[u64],
    ) -> (r: Result<(Vec<u8>, [u8; 16]), SgxStatus>)
        requires
            old(self).wf(),
            ratelimit_state_mac@.len() == 16,
        ensures
            final(self).wf(),
            final(self).key == old(self).key,
            final(self).key@ == old(self).key@,
            r is Ok ==> old(self).nonce < u32::MAX && final(self).nonce == old(self).nonce + 1,
            r matches Ok(out) ==> out.0@.len() == ratelimit_state_data@.len(),
            r == Err::<(Vec<u8>, [u8; 16]), SgxStatus>(SgxStatus::RateLimitExceeded) ==> final(self).nonce
                == old(self).nonce + 1,
            (r is Err && r != Err::<(Vec<u8>, [u8; 16]), SgxStatus>(SgxStatus::RateLimitExceeded))
                ==> final(self).nonce == old(self).nonce,
            r is Err ==> (r == Err::<(Vec<u8>, [u8; 16]), SgxStatus>(
                SgxStatus::InvalidRateLimitState,
            ) || r == Err::<(Vec<u8>, [u8; 16]), SgxStatus>(SgxStatus::RateLimitExceeded) || r
                == Err::<(Vec<u8>, [u8; 16]), SgxStatus>(SgxStatus::Unexpected)),
            ratelimit_state_data@.len() < 4 || ratelimit_state_data@.len() > 0xffff_ffff ==> r
                == Err::<(Vec<u8>, [u8; 16]), SgxStatus>(SgxStatus::InvalidRateLimitState),
            !all_zero(ratelimit_state_data@) ==> (r is Ok <==> decrypt_path_ok(
                old(self).key@,
                old(self).nonce,
                ratelimit_state_data@,
                ratelimit_state_mac@,
                query_phones@,
            )),
            !all_zero(ratelimit_state_data@) ==> r != Err::<(Vec<u8>, [u8; 16]), SgxStatus>(
                SgxStatus::Unexpected,
            ),
            !all_zero(ratelimit_state_data@) ==> (r == Err::<(Vec<u8>, [u8; 16]), SgxStatus>(
                SgxStatus::InvalidRateLimitState,
            ) <==> !decrypt_auth_ok(
                old(self).key@,
                old(self).nonce,
                ratelimit_state_data@,
                ratelimit_state_mac@,
            )),
            !all_zero(ratelimit_state_data@) ==> (r == Err::<(Vec<u8>, [u8; 16]), SgxStatus>(
                SgxStatus::RateLimitExceeded,
            ) <==> (decrypt_auth_ok(
                old(self).key@,
                old(self).nonce,
                ratelimit_state_data@,
                ratelimit_state_mac@,
            ) && !decrypt_path_ok(
                old(self).key@,
                old(self).nonce,
                ratelimit_state_data@,
                ratelimit_state_mac@,
                query_phones@,
            ))),
            all_zero(ratelimit_state_data@) && 4 <= ratelimit_state_data@.len() <= 0xffff_ffff
                && old(self).nonce == u32::MAX ==> (r == Err::<(Vec<u8>, [u8; 16]), SgxStatus>(
                SgxStatus::InvalidRateLimitState,
            ) || r == Err::<(Vec<u8>, [u8; 16]), SgxStatus>(SgxStatus::Unexpected)),
            !all_zero(ratelimit_state_data@) ==> (r matches Ok(out) ==> update_output_ok(
                old(self).key@,
                (old(self).nonce + 1) as u32,
                gcm_pt(old(self).key@, iv_of(old(self).nonce), ratelimit_state_data@),
                query_phones@,
                out.0@,
                out.1@,
            )),
            all_zero(ratelimit_state_data@) ==> (r matches Ok(out) ==> exists|limit: u32|
                #![auto]
                fresh_limit_ok(ratelimit_state_data@, limit) && update_output_ok(
                    old(self).key@,
                    (old(self).nonce + 1) as u32,
                    fresh_plaintext(ratelimit_state_data@, limit),
                    query_phones@,
                    out.0@,
                    out.1@,
                )),
            all_zero(ratelimit_state_data@) && 4 <= ratelimit_state_data@.len() <= 0xffff_ffff
                && old(self).nonce < u32::MAX ==> (r is Ok || r == Err::<
                (Vec<u8>, [u8; 16]),
                SgxStatus,
            >(SgxStatus::Unexpected) || r == Err::<(Vec<u8>, [u8; 16]), SgxStatus>(
                SgxStatus::RateLimitExceeded,
            )),
    {
        let ghost data0 = ratelimit_state_data@;
        let mut data = ratelimit_state_data;
        if data.len() < 4 || data.len() > MAX_RATELIMIT_DATA_LEN {
            return Err(SgxStatus::InvalidRateLimitState);
        }
        let fresh_slab = is_all_zero(&data);
        let ghost mut limit_g: u32 = 0;
        let state_data: RatelimitStateData = if !fresh_slab {
            let iv = self.get_iv();
            match aes256_gcm_decrypt(
                self.key.as_slice(),
                iv.as_slice(),
                &mut data,
                ratelimit_state_mac,
            ) {
                Ok(()) => {},
                Err(_) => {
                    return Err(SgxStatus::InvalidRateLimitState);
                },
            }
            RatelimitStateData::new(data)
        } else {
            // the slab is already all zero; first use draws a concealed limit
            let mut state_data = RatelimitStateData::new(data);
            let slot_count = state_data.slot_count();
            match state_data.set_size_limit(slot_count / 2, slot_count / 2) {
                Ok(()) => {},
                Err(e) => {
                    return Err(e);
                },
            }
            proof {
                let half = slot_count / 2;
                let off = choose|off: u32|
                    #![auto]
                    (if half == 0 {
                        off == 0
                    } else {
                        off < half
                    }) && state_data@ == spec_u32_to_le_bytes(sat_add_u32(half, off))
                        + data0.skip(4);
                limit_g = sat_add_u32(half, off);
                assert(fresh_limit_ok(data0, limit_g));
                assert(state_data@ == fresh_plaintext(data0, limit_g));
                vstd::bytes::lemma_auto_spec_u32_to_from_le_bytes();
                assert(state_data@.len() == data0.len());
            }
            state_data
        };
        let ghost pt0 = state_data@;
        proof {
            assert(pt0.len() == data0.len());
        }
        // increment the nonce before revealing anything, so that a replay of
        // an earlier ciphertext cannot re-derive the next IV
        if self.nonce == u32::MAX {
            let mut spent = state_data;
            spent.zeroize();
            return Err(SgxStatus::InvalidRateLimitState);
        }
        self.nonce = self.nonce + 1;
        let new_state_data = match state_data.add(query_phones) {
            Ok(d) => d,
            Err(e) => {
                return Err(e);
            },
        };
        let mut out = new_state_data.into_inner();
        proof {
            lemma_state_after_add_len(pt0, query_phones@);
        }
        let iv = self.get_iv();
        let out_mac = aes256_gcm_encrypt(self.key.as_slice(), iv.as_slice(), &mut out);
        Ok((out, out_mac))
    }
}

/// Whether every byte of the slab is zero.
pub fn is_all_zero(data: &Vec<u8>) -> (r: bool)
    ensures
        r == all_zero(data@),
{
    let mut i: usize = 0;
    let n = data.len();
    let mut r = true;
    while i < n
        invariant
            i <= n,
            n == data@.len(),
            r <==> (forall|j: int| 0 <= j < i ==> data@[j] == 0),
        decreases n - i,
    {
        if data[i] != 0 {
            r = false;
        }
        i += 1;
    }
    r
}

/// For one cell, revealed IVs strictly increase: an update reveals only under
/// the incremented nonce, and reading the first four IV bytes as a
/// little-endian 32-bit word gives back exactly the nonce, so a later reveal
/// always carries a strictly larger IV word than an earlier one.
pub proof fn lemma_revealed_ivs_increase(n1: u32, n2: u32)
    requires
        n1 < n2,
    ensures
        iv_of(n1).len() == 12,
        spec_u32_from_le_bytes(iv_of(n1).subrange(0, 4)) == n1,
        spec_u32_from_le_bytes(iv_of(n2).subrange(0, 4)) == n2,
        spec_u32_from_le_bytes(iv_of(n1).subrange(0, 4)) < spec_u32_from_le_bytes(
            iv_of(n2).subrange(0, 4),
        ),
{
    vstd::bytes::lemma_auto_spec_u32_to_from_le_bytes();
    assert(iv_of(n1).subrange(0, 4) =~= spec_u32_to_le_bytes(n1));
    assert(iv_of(n2).subrange(0, 4) =~= spec_u32_to_le_bytes(n2));
}

/// The ciphertext revealed by one update decrypts under the nonce the cell
/// holds right after it: its tag is the tag of that ciphertext under the
/// advanced nonce, so the next update of the same cell — fed the revealed
/// slab, not all zero, with the nonce not yet exhausted and the added phones
/// within the limit — passes the authentication check and succeeds.
pub proof fn lemma_update_chain(
    key: Seq<u8>,
    nonce_after: u32,
    pt: Seq<u8>,
    phones: Seq<u64>,
    ct: Seq<u8>,
    mac: Seq<u8>,
    next_phones: Seq<u64>,
)
    requires
        update_output_ok(key, nonce_after, pt, phones, ct, mac),
        !all_zero(ct),
        4 <= ct.len() <= 0xffff_ffff,
        nonce_after < u32::MAX,
        reported_size(
            add_entries(slots_of(state_after_add(pt, phones)), next_phones),
        ) < size_limit_of(state_after_add(pt, phones)),
    ensures
        decrypt_path_ok(key, nonce_after, ct, mac, next_phones),
{
    assert(gcm_pt(key, iv_of(nonce_after), ct) == state_after_add(pt, phones));
}

/// A fresh slab's concealed size limit lies in `[slots/2, slots/2 + slots/2)`
/// — half the effective slot count plus a random offset below that half —
/// whenever the doubled half cannot saturate.
pub proof fn lemma_fresh_limit_range(data: Seq<u8>, limit: u32)
    requires
        fresh_limit_ok(data, limit),
        effective_slot_count(data) / 2 > 0,
        effective_slot_count(data) / 2 + effective_slot_count(data) / 2 <= u32::MAX,
    ensures
        effective_slot_count(data) / 2 <= limit,
        limit < effective_slot_count(data) / 2 + effective_slot_count(data) / 2,
{
    let half = effective_slot_count(data) / 2;
    let off = choose|off: u32|
        #![auto]
        (if half == 0 {
            off == 0
        } else {
            off < half
        }) && limit == sat_add_u32(half, off);
    assert(limit == sat_add_u32(half, off));
}

} // verus!
