//! Cryptographic primitives, taken as black boxes.
//!
//! SHA-1, SHA-2 and AES-256-GCM come from the `sha1`, `sha2` and `aes-gcm`
//! crates; random bytes come from the operating system through `rand_core`.
//! Each digest or cipher output is named by an uninterpreted spec function of
//! its inputs; the wrappers state how each call relates to those names.

use aes_gcm::AeadInPlace;
use aes_gcm::KeyInit;
use sha1::Digest;
use vstd::prelude::*;

verus! {

/// The 20-byte SHA-1 digest of a byte sequence.
pub uninterp spec fn sha1_of(data: Seq<u8>) -> Seq<u8>;

/// The 32-byte SHA-256 digest of a byte sequence.
pub uninterp spec fn sha256_of(data: Seq<u8>) -> Seq<u8>;

/// AES-256-GCM encryption (counter-mode keystream) of a plaintext, with empty
/// associated data. Same length as the plaintext; the tag is separate.
pub uninterp spec fn gcm_ct(key: Seq<u8>, iv: Seq<u8>, plaintext: Seq<u8>) -> Seq<u8>;

/// AES-256-GCM decryption of a ciphertext: the inverse keystream application.
pub uninterp spec fn gcm_pt(key: Seq<u8>, iv: Seq<u8>, ciphertext: Seq<u8>) -> Seq<u8>;

/// The 16-byte AES-256-GCM authentication tag over a ciphertext, with empty
/// associated data.
pub uninterp spec fn gcm_tag(key: Seq<u8>, iv: Seq<u8>, ciphertext: Seq<u8>) -> Seq<u8>;

/// Relies on `sha1::Sha1` (`Digest::digest`): the SHA-1 of the input bytes,
/// 20 bytes, a function of the input alone.
#[verifier::external_body]
pub fn sha1_digest(data: &[u8]) -> (r: [u8; 20])
    ensures
        r@ == sha1_of(data@),
{
    sha1::Sha1::digest(data).into()
}

/// Relies on `sha2::Sha256` (`Digest::digest`): the SHA-256 of the input
/// bytes, 32 bytes, a function of the input alone.
#[verifier::external_body]
pub fn sha256_digest(data: &[u8]) -> (r: [u8; 32])
    ensures
        r@ == sha256_of(data@),
{
    sha2::Sha256::digest(data).into()
}

/// Relies on `aes_gcm::Aes256Gcm::encrypt_in_place_detached` with empty
/// associated data: the buffer becomes the ciphertext, same length, and the
/// returned tag authenticates that ciphertext; applying the keystream again
/// gives the plaintext back.
#[verifier::external_body]
pub fn aes256_gcm_encrypt(key: &[u8], iv: &[u8], buffer: &mut Vec<u8>) -> (mac: [u8; 16])
    requires
        key@.len() == 32,
        iv@.len() == 12,
        old(buffer)@.len() <= 0xffff_ffff,
    ensures
        final(buffer)@ == gcm_ct(key@, iv@, old(buffer)@),
        final(buffer)@.len() == old(buffer)@.len(),
        mac@ == gcm_tag(key@, iv@, final(buffer)@),
        gcm_pt(key@, iv@, final(buffer)@) == old(buffer)@,
{
    let cipher = aes_gcm::Aes256Gcm::new(aes_gcm::Key::<aes_gcm::Aes256Gcm>::from_slice(key));
    let tag = cipher
        .encrypt_in_place_detached(aes_gcm::Nonce::from_slice(iv), &[], buffer.as_mut_slice())
        .expect("buffer length is below the GCM limit");
    tag.into()
}

/// Relies on `aes_gcm::Aes256Gcm::decrypt_in_place_detached` with empty
/// associated data: the tag is checked first, and succeeds exactly when it is
/// the tag of the given ciphertext; only on a match is the buffer replaced by
/// the decrypted plaintext, same length, else it is left untouched.
#[verifier::external_body]
pub fn aes256_gcm_decrypt(
    key: &[u8],
    iv: &[u8],
    buffer: &mut Vec<u8>,
    mac: &[u8],
) -> (r: Result<(), ()>)
    requires
        key@.len() == 32,
        iv@.len() == 12,
        mac@.len() == 16,
        old(buffer)@.len() <= 0xffff_ffff,
    ensures
        final(buffer)@.len() == old(buffer)@.len(),
        r is Ok <==> mac@ == gcm_tag(key@, iv@, old(buffer)@),
        r is Ok ==> final(buffer)@ == gcm_pt(key@, iv@, old(buffer)@),
        r is Err ==> final(buffer)@ == old(buffer)@,
{
    let cipher = aes_gcm::Aes256Gcm::new(aes_gcm::Key::<aes_gcm::Aes256Gcm>::from_slice(key));
    match cipher.decrypt_in_place_detached(
        aes_gcm::Nonce::from_slice(iv),
        &[],
        buffer.as_mut_slice(),
        aes_gcm::Tag::from_slice(mac),
    ) {
        Ok(()) => Ok(()),
        Err(_) => Err(()),
    }
}

/// Relies on `rand_core::OsRng::try_fill_bytes`: fills a buffer of the asked
/// length with random bytes from the operating system. Nothing is promised of
/// the bytes themselves.
#[verifier::external_body]
pub fn random_bytes(n: usize) -> (r: Result<Vec<u8>, ()>)
    ensures
        r matches Ok(buf) ==> buf@.len() == n,
{
    let mut buf = vec![0u8; n];
    match rand_core::RngCore::try_fill_bytes(&mut rand_core::OsRng, &mut buf) {
        Ok(()) => Ok(buf),
        Err(_) => Err(()),
    }
}

} // verus!
