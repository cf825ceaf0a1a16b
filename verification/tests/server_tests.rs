use aes_gcm::AeadInPlace;
use aes_gcm::KeyInit;
use cds_enclave::ratelimit_map::RatelimitStateMap;
use cds_enclave::server::CallArgs;
use cds_enclave::server::CallOutcome;
use cds_enclave::server::CallQuery;
use cds_enclave::server::MsgFrom;
use cds_enclave::server::SgxsdServerState;
use cds_enclave::server::StartArgs;
use cds_enclave::server::StopArgs;
use cds_enclave::SgxStatus;
use cds_enclave::Uuid;
use sha2::Digest;

const TEST_KEY: [u8; 32] = [7u8; 32];
const TEST_IV: [u8; 12] = [9u8; 12];

fn empty_init_args() -> StartArgs {
    StartArgs { max_query_phones: 0, max_ratelimit_states: 1 }
}

fn empty_call_args() -> CallArgs {
    CallArgs {
        query: CallQuery { data: Vec::new(), iv: [0; 12], mac: [0; 16] },
        query_commitment: [0; 32],
        query_phone_count: 0,
        ratelimit_state_uuid: Uuid { data64: [0, 0] },
        ratelimit_state_data: Vec::new(),
    }
}

fn empty_stop_args() -> StopArgs {
    StopArgs { in_phones: Vec::new(), in_uuids: Vec::new(), in_phone_count: 0 }
}

fn valid_stop_args() -> StopArgs {
    StopArgs {
        in_phones: vec![0x1234],
        in_uuids: vec![Uuid { data64: [5, 6] }],
        in_phone_count: 1,
    }
}

fn encrypt_detached(key: &[u8; 32], iv: &[u8; 12], plaintext: &[u8]) -> (Vec<u8>, [u8; 16]) {
    let cipher = aes_gcm::Aes256Gcm::new(aes_gcm::Key::<aes_gcm::Aes256Gcm>::from_slice(key));
    let mut buffer = plaintext.to_vec();
    let tag = cipher
        .encrypt_in_place_detached(aes_gcm::Nonce::from_slice(iv), &[], &mut buffer)
        .unwrap();
    (buffer, tag.into())
}

/// A call whose query carries the given phones, with a correct commitment
/// unless told otherwise, and no rate-limit handle.
fn query_call_args(phones: &[u64], correct_commitment: bool) -> (CallArgs, Vec<u8>) {
    let mut plaintext = vec![0u8; 32];
    for p in phones {
        plaintext.extend_from_slice(&p.to_le_bytes());
    }
    let mut commitment: [u8; 32] = sha2::Sha256::digest(&plaintext).into();
    if !correct_commitment {
        commitment[0] = commitment[0].wrapping_add(1);
    }
    let (data, mac) = encrypt_detached(&TEST_KEY, &TEST_IV, &plaintext);
    let args = CallArgs {
        query: CallQuery { data, iv: TEST_IV, mac },
        query_commitment: commitment,
        query_phone_count: phones.len() as u32,
        ratelimit_state_uuid: Uuid { data64: [0, 0] },
        ratelimit_state_data: Vec::new(),
    };
    (args, TEST_KEY.to_vec())
}

#[test]
fn test_in_phones_outside_enclave() {
    // the phones slice does not cover the claimed count
    let server = SgxsdServerState::init(Some(&empty_init_args())).unwrap();
    let stop = StopArgs {
        in_phones: Vec::new(),
        in_uuids: vec![Uuid { data64: [5, 6] }],
        in_phone_count: 1,
    };
    assert_eq!(server.terminate(Some(&stop)).unwrap_err(), SgxStatus::InvalidParameter);
}

#[test]
fn test_in_uuids_outside_enclave() {
    // the uuids slice does not cover the claimed count
    let server = SgxsdServerState::init(Some(&empty_init_args())).unwrap();
    let stop = StopArgs { in_phones: vec![0x1234], in_uuids: Vec::new(), in_phone_count: 1 };
    assert_eq!(server.terminate(Some(&stop)).unwrap_err(), SgxStatus::InvalidParameter);
}

#[test]
fn test_in_phones_overflow() {
    let server = SgxsdServerState::init(Some(&empty_init_args())).unwrap();
    let stop = StopArgs {
        in_phones: vec![0x1234],
        in_uuids: vec![Uuid { data64: [5, 6] }],
        in_phone_count: 1 + usize::MAX / 8,
    };
    assert_eq!(server.terminate(Some(&stop)).unwrap_err(), SgxStatus::InvalidParameter);
}

#[test]
fn test_in_uuids_overflow() {
    let server = SgxsdServerState::init(Some(&empty_init_args())).unwrap();
    let stop = StopArgs {
        in_phones: vec![0x1234],
        in_uuids: vec![Uuid { data64: [5, 6] }],
        in_phone_count: 1 + usize::MAX / 16,
    };
    assert_eq!(server.terminate(Some(&stop)).unwrap_err(), SgxStatus::InvalidParameter);
}

#[test]
fn test_zero_max_batch() {
    let server = SgxsdServerState::init(Some(&empty_init_args())).unwrap();
    let replies = server.terminate(Some(&empty_stop_args())).unwrap();
    assert!(replies.is_empty());
}

#[test]
fn test_empty_batch() {
    let server = SgxsdServerState::init(
        Some(&StartArgs { max_query_phones: 1, max_ratelimit_states: 1 }),
    )
        .unwrap();
    let replies = server.terminate(Some(&valid_stop_args())).unwrap();
    assert!(replies.is_empty());
}

#[test]
fn test_empty_msg() {
    let mut server = SgxsdServerState::init(
        Some(&StartArgs { max_query_phones: 1, max_ratelimit_states: 1 }),
    )
        .unwrap();
    assert_eq!(
        server.handle_call(empty_call_args(), &[], MsgFrom { id: 1 }).unwrap_err().0,
        SgxStatus::InvalidParameter
    );
    let replies = server.terminate(Some(&empty_stop_args())).unwrap();
    assert!(replies.is_empty());
}

#[test]
fn test_init_none_rejected() {
    assert!(matches!(SgxsdServerState::init(None), Err(SgxStatus::InvalidParameter)));
}

#[test]
fn test_batch_capacity_exceeded() {
    // a phone count beyond the remaining accumulator capacity is rejected and
    // the accumulator is untouched
    let mut server = SgxsdServerState::init(
        Some(&StartArgs { max_query_phones: 4, max_ratelimit_states: 0 }),
    )
        .unwrap();
    let (args, key) = query_call_args(&[1, 2, 3, 4, 5], true);
    assert_eq!(
        server.handle_call(args, &key, MsgFrom { id: 1 }).unwrap_err().0,
        SgxStatus::InvalidParameter
    );
    // the accumulator still takes a batch that fits
    let (args, key) = query_call_args(&[1, 2, 3, 4], true);
    let outcome = server.handle_call(args, &key, MsgFrom { id: 2 }).unwrap();
    assert!(matches!(outcome, CallOutcome::Parked));
}

#[test]
fn test_commitment_mismatch() {
    // the query decrypts but its SHA-256 differs from the commitment
    let mut server = SgxsdServerState::init(
        Some(&StartArgs { max_query_phones: 4, max_ratelimit_states: 0 }),
    )
        .unwrap();
    let (args, key) = query_call_args(&[11, 22], false);
    assert_eq!(
        server.handle_call(args, &key, MsgFrom { id: 1 }).unwrap_err().0,
        SgxStatus::QueryCommitmentMismatch
    );
    // the accumulator is unchanged: termination yields no replies
    let replies = server.terminate(Some(&empty_stop_args())).unwrap();
    assert!(replies.is_empty());
}

#[test]
fn test_bad_request_sizes() {
    let mut server = SgxsdServerState::init(
        Some(&StartArgs { max_query_phones: 4, max_ratelimit_states: 0 }),
    )
        .unwrap();
    // declared phone count does not match the query size
    let (mut args, key) = query_call_args(&[11, 22], true);
    args.query_phone_count = 1;
    assert_eq!(
        server.handle_call(args, &key, MsgFrom { id: 1 }).unwrap_err().0,
        SgxStatus::InvalidRequestSize
    );
    // request key of the wrong length
    let (args, _) = query_call_args(&[11, 22], true);
    assert_eq!(
        server.handle_call(args, &[0u8; 31], MsgFrom { id: 1 }).unwrap_err().0,
        SgxStatus::InvalidRequestSize
    );
    // corrupted MAC
    let (mut args, key) = query_call_args(&[11, 22], true);
    args.query.mac[0] = args.query.mac[0].wrapping_add(1);
    assert_eq!(
        server.handle_call(args, &key, MsgFrom { id: 1 }).unwrap_err().0,
        SgxStatus::MacMismatch
    );
}

#[test]
fn test_batched_lookup_split() {
    // three calls with 2, 3 and 5 phones; the directory holds the 4th and the
    // 8th phone; each caller gets 16 bytes per phone, in arrival order
    let phones: Vec<u64> = (0..10).map(|i| 1000 + i as u64).collect();
    let mut server = SgxsdServerState::init(
        Some(&StartArgs { max_query_phones: 10, max_ratelimit_states: 0 }),
    )
        .unwrap();
    for (id, group) in [&phones[0..2], &phones[2..5], &phones[5..10]].iter().enumerate() {
        let (args, key) = query_call_args(group, true);
        let outcome = server.handle_call(args, &key, MsgFrom { id: id as u64 }).unwrap();
        assert!(matches!(outcome, CallOutcome::Parked));
    }
    let uuid_a = Uuid { data64: [0xaaaa, 0x1] };
    let uuid_b = Uuid { data64: [0xbbbb, 0x2] };
    let stop = StopArgs {
        in_phones: vec![phones[3], phones[7]],
        in_uuids: vec![uuid_a, uuid_b],
        in_phone_count: 2,
    };
    let replies = server.terminate(Some(&stop)).unwrap();
    assert_eq!(replies.len(), 3);
    assert_eq!(replies[0].from, MsgFrom { id: 0 });
    assert_eq!(replies[1].from, MsgFrom { id: 1 });
    assert_eq!(replies[2].from, MsgFrom { id: 2 });
    assert_eq!(replies[0].data.len(), 32);
    assert_eq!(replies[1].data.len(), 48);
    assert_eq!(replies[2].data.len(), 80);
    // first reply: no matches
    assert!(replies[0].data.iter().all(|b| *b == 0));
    // second reply: phones[3] is its second phone
    let mut expected_a = [0u8; 16];
    expected_a[..8].copy_from_slice(&0xaaaau64.to_le_bytes());
    expected_a[8..].copy_from_slice(&0x1u64.to_le_bytes());
    assert!(replies[1].data[0..16].iter().all(|b| *b == 0));
    assert_eq!(&replies[1].data[16..32], &expected_a);
    assert!(replies[1].data[32..48].iter().all(|b| *b == 0));
    // third reply: phones[7] is its third phone
    let mut expected_b = [0u8; 16];
    expected_b[..8].copy_from_slice(&0xbbbbu64.to_le_bytes());
    expected_b[8..].copy_from_slice(&0x2u64.to_le_bytes());
    assert!(replies[2].data[0..32].iter().all(|b| *b == 0));
    assert_eq!(&replies[2].data[32..48], &expected_b);
    assert!(replies[2].data[48..80].iter().all(|b| *b == 0));
}

#[test]
fn test_commitment_is_sha256_of_whole_buffer() {
    // the commitment covers the decrypted buffer including its leading nonce
    let data = vec![3u8; 32 + 16];
    let commitment: [u8; 32] = sha2::Sha256::digest(&data).into();
    assert!(SgxsdServerState::verify_commitment(&data, &commitment).is_ok());
    // the same phones under a different nonce do not match
    let mut other = data.clone();
    other[0] = other[0].wrapping_add(1);
    let other_commitment: [u8; 32] = sha2::Sha256::digest(&other).into();
    assert_eq!(
        SgxsdServerState::verify_commitment(&data, &other_commitment).unwrap_err(),
        SgxStatus::QueryCommitmentMismatch
    );
}

/// A call on the rate-limit path: the given phones, a correct commitment, a
/// non-zero UUID and the client's encrypted slab.
fn ratelimit_call_args(phones: &[u64], uuid: Uuid, slab: Vec<u8>) -> (CallArgs, Vec<u8>) {
    let mut plaintext = vec![0u8; 32];
    for p in phones {
        plaintext.extend_from_slice(&p.to_le_bytes());
    }
    let commitment: [u8; 32] = sha2::Sha256::digest(&plaintext).into();
    let (data, mac) = encrypt_detached(&TEST_KEY, &TEST_IV, &plaintext);
    let args = CallArgs {
        query: CallQuery { data, iv: TEST_IV, mac },
        query_commitment: commitment,
        query_phone_count: phones.len() as u32,
        ratelimit_state_uuid: uuid,
        ratelimit_state_data: slab,
    };
    (args, TEST_KEY.to_vec())
}

#[test]
fn test_shared_map_across_instances() {
    // one process-wide map moved in and out of two instances: the second
    // instance can decrypt what the first revealed, so the per-client cell
    // (key and nonce) carried over
    let mut shared = RatelimitStateMap::new(4);
    let uuid = Uuid { data64: [9, 0] };
    let start = StartArgs { max_query_phones: 4, max_ratelimit_states: 0 };

    let mut first = SgxsdServerState::init(Some(&start)).unwrap();
    first.install_ratelimit_state_map(shared);
    let (args, key) = ratelimit_call_args(&[77], uuid, vec![0u8; 116]);
    let outcome = first.handle_call(args, &key, MsgFrom { id: 1 }).unwrap();
    let slab = match outcome {
        CallOutcome::RatelimitUpdated { ratelimit_state_data, .. } => ratelimit_state_data,
        CallOutcome::Parked => panic!("expected the rate-limit path"),
    };
    shared = first.take_ratelimit_state_map().unwrap();

    let mut second = SgxsdServerState::init(Some(&start)).unwrap();
    second.install_ratelimit_state_map(shared);
    let (args, key) = ratelimit_call_args(&[88], uuid, slab);
    let outcome = second.handle_call(args, &key, MsgFrom { id: 2 }).unwrap();
    assert!(matches!(outcome, CallOutcome::RatelimitUpdated { .. }));
}

#[test]
fn test_ratelimit_disabled_rejected() {
    // the rate-limit path without a map fails with the invalid-state error
    let mut server = SgxsdServerState::init(
        Some(&StartArgs { max_query_phones: 4, max_ratelimit_states: 0 }),
    )
        .unwrap();
    let (args, key) = ratelimit_call_args(&[77], Uuid { data64: [9, 0] }, vec![0u8; 116]);
    assert_eq!(
        server.handle_call(args, &key, MsgFrom { id: 1 }).unwrap_err().0,
        SgxStatus::InvalidState
    );
}
