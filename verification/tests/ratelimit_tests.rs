use cds_enclave::ratelimit_data::RatelimitStateData;
use cds_enclave::ratelimit_map::delete_ratelimit_state;
use cds_enclave::ratelimit_map::update_ratelimit_state;
use cds_enclave::ratelimit_map::RatelimitStateMap;
use cds_enclave::ratelimit_state::RatelimitState;
use cds_enclave::SgxStatus;
use cds_enclave::Uuid;

#[test]
fn test_fresh_state_single_phone() {
    // a 52-byte plaintext slab: 4 limit bytes and 6 raw slots, so an
    // effective capacity of 4 and a drawn limit in [2, 4)
    let mut state = RatelimitStateData::new(vec![0u8; 52]);
    assert_eq!(state.slot_count(), 4);
    let half = state.slot_count() / 2;
    state.set_size_limit(half, half).unwrap();
    let data = state.into_inner();
    let limit = u32::from_le_bytes(data[..4].try_into().unwrap());
    assert!((2..4).contains(&limit));
    // one phone is stored in the first slot and stays below the limit
    let updated = RatelimitStateData::new(data).add(&[0x1234]).unwrap().into_inner();
    assert_eq!(u64::from_le_bytes(updated[4..12].try_into().unwrap()), 0x1234);
    assert!(updated[12..].iter().all(|b| *b == 0));
}

#[test]
fn test_add_is_idempotent_per_entry() {
    let mut slab = vec![0u8; 52];
    slab[..4].copy_from_slice(&3u32.to_le_bytes());
    let updated = RatelimitStateData::new(slab).add(&[7, 7, 7]).unwrap().into_inner();
    assert_eq!(u64::from_le_bytes(updated[4..12].try_into().unwrap()), 7);
    assert!(updated[12..].iter().all(|b| *b == 0));
}

#[test]
fn test_rate_limit_exceeded() {
    // a slab whose concealed limit is 2, fed 3 distinct phones in one call
    let mut slab = vec![0u8; 4 + 24];
    slab[..4].copy_from_slice(&2u32.to_le_bytes());
    let err = match RatelimitStateData::new(slab.clone()).add(&[1, 2, 3]) {
        Ok(_) => panic!("expected the rate limit to trip"),
        Err(e) => e,
    };
    assert_eq!(err, SgxStatus::RateLimitExceeded);
    // one phone stays below the limit
    assert!(RatelimitStateData::new(slab).add(&[1]).is_ok());
}

#[test]
fn test_short_slab_rejected() {
    // a plaintext slab shorter than its size-limit field
    let err = match RatelimitStateData::new(vec![0u8; 3]).add(&[]) {
        Ok(_) => panic!("expected the short slab to be rejected"),
        Err(e) => e,
    };
    assert_eq!(err, SgxStatus::InvalidRateLimitState);
}

#[test]
fn test_nonce_sequence() {
    // the cell starts at nonce 1 and pre-increments before each reveal, so
    // the revealed IVs are 02.. and 03.., little-endian
    let mut cell = RatelimitState::fresh().unwrap();
    assert_eq!(cell.nonce, 1);
    assert_eq!(cell.get_iv(), vec![1, 0, 0, 0, 0, 0, 0, 0, 0, 0, 0, 0]);
    let (ct1, mac1) = cell.update(vec![0u8; 100], &[0u8; 16], &[0x1234]).unwrap();
    assert_eq!(cell.nonce, 2);
    assert_eq!(cell.get_iv(), vec![2, 0, 0, 0, 0, 0, 0, 0, 0, 0, 0, 0]);
    // the revealed ciphertext authenticates under the advanced nonce
    let (_ct2, _mac2) = cell.update(ct1, &mac1, &[0x5678]).unwrap();
    assert_eq!(cell.nonce, 3);
    assert_eq!(cell.get_iv(), vec![3, 0, 0, 0, 0, 0, 0, 0, 0, 0, 0, 0]);
}

#[test]
fn test_replay_rejected() {
    // replaying an earlier ciphertext fails: the nonce has moved on
    let mut cell = RatelimitState::fresh().unwrap();
    let (ct1, mac1) = cell.update(vec![0u8; 100], &[0u8; 16], &[1]).unwrap();
    let (_ct2, _mac2) = cell.update(ct1.clone(), &mac1, &[2]).unwrap();
    assert_eq!(
        cell.update(ct1, &mac1, &[3]).unwrap_err(),
        SgxStatus::InvalidRateLimitState
    );
}

#[test]
fn test_update_state_via_map() {
    // a fresh all-zero slab (with room for the 16-byte MAC) initialises,
    // takes a phone, and is written back the same size
    let mut map = RatelimitStateMap::new(4);
    let uuid = Uuid { data64: [1, 0] };
    let mut slab = vec![0u8; 116];
    update_ratelimit_state(&mut map, uuid, &mut slab, &[0x1234]).unwrap();
    assert_eq!(slab.len(), 116);
    assert!(slab.iter().any(|b| *b != 0));
    // the new ciphertext round-trips through the same cell
    update_ratelimit_state(&mut map, uuid, &mut slab, &[0x5678]).unwrap();
}

#[test]
fn test_delete_then_update_resets() {
    // after a delete the cell is fresh: a new random key is drawn, so a
    // ciphertext of the old key no longer authenticates, while an all-zero
    // slab initialises a new state
    let mut map = RatelimitStateMap::new(4);
    let uuid = Uuid { data64: [1, 0] };
    let mut slab = vec![0u8; 116];
    update_ratelimit_state(&mut map, uuid, &mut slab, &[]).unwrap();
    let old_ciphertext = slab.clone();
    delete_ratelimit_state(&mut map, uuid).unwrap();
    let mut replayed = old_ciphertext;
    assert_eq!(
        update_ratelimit_state(&mut map, uuid, &mut replayed, &[]).unwrap_err(),
        SgxStatus::InvalidRateLimitState
    );
    let mut fresh = vec![0u8; 116];
    update_ratelimit_state(&mut map, uuid, &mut fresh, &[]).unwrap();
}

#[test]
fn test_zero_uuid_rejected() {
    let mut map = RatelimitStateMap::new(4);
    let mut slab = vec![0u8; 116];
    assert_eq!(
        update_ratelimit_state(&mut map, Uuid { data64: [0, 0] }, &mut slab, &[]).unwrap_err(),
        SgxStatus::InvalidParameter
    );
    assert_eq!(
        delete_ratelimit_state(&mut map, Uuid { data64: [0, 0] }).unwrap_err(),
        SgxStatus::InvalidParameter
    );
}

#[test]
fn test_short_ciphertext_slab_rejected() {
    // a ciphertext slab shorter than the 16-byte MAC is invalid and untouched
    let mut map = RatelimitStateMap::new(4);
    let uuid = Uuid { data64: [1, 0] };
    let mut slab = vec![5u8; 10];
    assert_eq!(
        update_ratelimit_state(&mut map, uuid, &mut slab, &[]).unwrap_err(),
        SgxStatus::InvalidRateLimitState
    );
    assert_eq!(slab, vec![5u8; 10]);
}

#[test]
fn test_fresh_cells_draw_distinct_keys() {
    let a = RatelimitState::fresh().unwrap();
    let b = RatelimitState::fresh().unwrap();
    assert_eq!(a.key.len(), 32);
    assert_ne!(a.key, b.key);
}
