use cds_enclave::phone_hash::hash_query_phone;
use sha1::Digest;

fn expected_phone_hash(phone: u64) -> u64 {
    let decimal = format!("+{}", phone);
    let digest = sha1::Sha1::digest(decimal.as_bytes());
    u64::from_le_bytes(digest[..8].try_into().unwrap())
}

fn check_hash_query_phone(mut phone: u64) {
    let expected = expected_phone_hash(phone);
    hash_query_phone(&mut phone);
    assert_eq!(phone, expected);
}

#[test]
fn test_hash_query_phone_zero() {
    for phone in 1..10 {
        check_hash_query_phone(phone);
    }
}

#[test]
fn test_hash_query_phone_1_digit() {
    for phone in 1..10 {
        check_hash_query_phone(phone);
    }
}

#[test]
fn test_hash_query_phone_2_digit() {
    for phone in 10..100 {
        check_hash_query_phone(phone);
    }
}

#[test]
fn test_hash_query_phone_13_digit() {
    for phone in 1..10 {
        check_hash_query_phone(1_000_000_000_000 * phone);
        check_hash_query_phone(1_000_000_000_000 * phone + 234_567_890_123);
    }
}

#[test]
fn test_hash_query_phone_too_large() {
    check_hash_query_phone((u64::MAX >> 1) + 0);
    check_hash_query_phone((u64::MAX >> 1) + 1);
    check_hash_query_phone((u64::MAX >> 1) + 2);
    check_hash_query_phone(u64::MAX - 1);
    check_hash_query_phone(u64::MAX - 0);
}

#[test]
fn test_hash_query_phone_input_zero_unchanged() {
    let mut phone = 0u64;
    hash_query_phone(&mut phone);
    assert_eq!(phone, 0);
}
