//! Phone canonicalisation and hashing.
//!
//! A numeric phone is replaced in place by the 64-bit little-endian prefix of
//! `SHA1("+" || decimal form)`, where the decimal form has no leading zeros.
//! The phone is rendered as exactly 20 zero-padded digits and all 20 suffix
//! hashes are computed; the hash of the suffix that starts at the first
//! non-zero digit is selected by constant-time assignment, so that neither
//! branches nor loop bounds depend on the phone's length.

use crate::crypto::sha1_digest;
use crate::crypto::sha1_of;
use crate::ct::choice_and;
use crate::ct::choice_from_bit;
use crate::ct::choice_is_set;
use crate::ct::choice_not;
use crate::ct::conditional_assign_u64;
use crate::ct::ct_eq_u8;
use crate::secret::zeroize_bytes;
use vstd::arithmetic::div_mod::lemma_div_denominator;
use vstd::arithmetic::div_mod::lemma_fundamental_div_mod;
use vstd::arithmetic::div_mod::lemma_fundamental_div_mod_converse;
use vstd::arithmetic::div_mod::lemma_multiply_divide_lt;
use vstd::bytes::spec_u64_from_le_bytes;
use vstd::bytes::u64_from_le_bytes;
use vstd::prelude::*;
use vstd::slice::slice_subrange;

verus! {

/// ASCII code of the digit `0`.
pub const DIGIT_ZERO: u8 = 0x30;

/// ASCII code of `+`, the prefix of every hashed phone string.
pub const PLUS: u8 = 0x2b;

/// The number of decimal digits a phone is rendered as: enough for 2^64.
pub const PHONE_DIGITS: usize = 20;

/// `10^k`.
pub open spec fn pow10(k: nat) -> nat
    decreases k,
{
    if k == 0 {
        1
    } else {
        10 * pow10((k - 1) as nat)
    }
}

/// The ASCII digits of `v`, written with exactly `k` places, zero-padded on
/// the left. Only the low `k` decimal digits of `v` appear.
pub open spec fn dec_digits(v: nat, k: nat) -> Seq<u8>
    decreases k,
{
    if k == 0 {
        seq![]
    } else {
        dec_digits(v / 10, (k - 1) as nat).push((0x30 + v % 10) as u8)
    }
}

/// The numeric value of a string of ASCII digits.
pub open spec fn dec_value(s: Seq<u8>) -> nat
    decreases s.len(),
{
    if s.len() == 0 {
        0
    } else {
        dec_value(s.drop_last()) * 10 + (if s.last() >= 0x30 {
            (s.last() - 0x30) as nat
        } else {
            0
        })
    }
}

/// The index of the first byte that is not ASCII `0`, or `s.len()` if all are.
pub open spec fn first_nonzero(s: Seq<u8>) -> int
    decreases s.len(),
{
    if s.len() == 0 {
        0
    } else if s[0] != 0x30 {
        0
    } else {
        1 + first_nonzero(s.skip(1))
    }
}

/// The decimal form of `p` with no leading zeros (empty for `p == 0`).
pub open spec fn canonical_decimal(p: u64) -> Seq<u8> {
    dec_digits(p as nat, 20).skip(first_nonzero(dec_digits(p as nat, 20)))
}

/// The 64-bit little-endian prefix of `SHA1("+" || ascii[k..])`.
pub open spec fn suffix_hash(ascii: Seq<u8>, k: int) -> u64 {
    spec_u64_from_le_bytes(sha1_of(seq![0x2bu8] + ascii.skip(k)).subrange(0, 8))
}

/// The canonical hash of a phone: the 64-bit little-endian prefix of
/// `SHA1("+" || decimal form of p)`, the decimal form having no leading zeros.
pub open spec fn phone_hash(p: u64) -> u64 {
    spec_u64_from_le_bytes(sha1_of(seq![0x2bu8] + canonical_decimal(p)).subrange(0, 8))
}

proof fn lemma_pow10_pos(k: nat)
    ensures
        pow10(k) >= 1,
    decreases k,
{
    if k > 0 {
        lemma_pow10_pos((k - 1) as nat);
    }
}

proof fn lemma_u64_below_pow10_20(v: u64)
    ensures
        (v as nat) < pow10(20),
{
    reveal_with_fuel(pow10, 21);
    assert(pow10(20) == 100_000_000_000_000_000_000nat);
}

proof fn lemma_dec_digits_len(v: nat, k: nat)
    ensures
        dec_digits(v, k).len() == k,
    decreases k,
{
    if k > 0 {
        lemma_dec_digits_len(v / 10, (k - 1) as nat);
    }
}

proof fn lemma_dec_digits_index(v: nat, k: nat, i: int)
    requires
        0 <= i < k,
    ensures
        dec_digits(v, k).len() == k,
        dec_digits(v, k)[i] == ((0x30 + (v / pow10((k - 1 - i) as nat)) % 10) as u8),
    decreases k,
{
    lemma_dec_digits_len(v, k);
    lemma_dec_digits_len(v / 10, (k - 1) as nat);
    if i == k - 1 {
        assert(pow10(0) == 1);
        assert(v / 1 == v);
    } else {
        lemma_dec_digits_index(v / 10, (k - 1) as nat, i);
        let j = (k - 2 - i) as nat;
        lemma_pow10_pos(j);
        lemma_div_denominator(v as int, 10, pow10(j) as int);
        assert(pow10((k - 1 - i) as nat) == 10 * pow10(j));
        assert((v / 10) / pow10(j) == v / (10 * pow10(j)));
    }
}

proof fn lemma_dec_digits_are_digits(v: nat, k: nat)
    ensures
        dec_digits(v, k).len() == k,
        forall|i: int|
            0 <= i < k ==> 0x30 <= #[trigger] dec_digits(v, k)[i] && dec_digits(v, k)[i] <= 0x39,
    decreases k,
{
    lemma_dec_digits_len(v, k);
    if k > 0 {
        lemma_dec_digits_are_digits(v / 10, (k - 1) as nat);
        assert forall|i: int| 0 <= i < k implies 0x30 <= #[trigger] dec_digits(v, k)[i]
            && dec_digits(v, k)[i] <= 0x39 by {
            if i < k - 1 {
                assert(dec_digits(v, k)[i] == dec_digits(v / 10, (k - 1) as nat)[i]);
            }
        }
    }
}

proof fn lemma_dec_value_of_digits(v: nat, k: nat)
    requires
        v < pow10(k),
    ensures
        dec_value(dec_digits(v, k)) == v,
    decreases k,
{
    if k == 0 {
        assert(v == 0);
    } else {
        let s = dec_digits(v, k);
        let rest = dec_digits(v / 10, (k - 1) as nat);
        lemma_dec_digits_len(v, k);
        lemma_dec_digits_len(v / 10, (k - 1) as nat);
        assert(s.drop_last() =~= rest);
        lemma_pow10_pos((k - 1) as nat);
        lemma_multiply_divide_lt(v as int, 10, pow10((k - 1) as nat) as int);
        lemma_dec_value_of_digits(v / 10, (k - 1) as nat);
        lemma_fundamental_div_mod(v as int, 10);
    }
}

proof fn lemma_dec_digits_of_zero(k: nat)
    ensures
        forall|i: int| 0 <= i < k ==> #[trigger] dec_digits(0, k)[i] == 0x30,
{
    assert forall|i: int| 0 <= i < k implies #[trigger] dec_digits(0, k)[i] == 0x30 by {
        lemma_dec_digits_index(0, k, i);
        lemma_pow10_pos((k - 1 - i) as nat);
    }
}

proof fn lemma_first_nonzero_bounds(s: Seq<u8>)
    ensures
        0 <= first_nonzero(s) <= s.len(),
        forall|j: int| 0 <= j < first_nonzero(s) ==> s[j] == 0x30,
        first_nonzero(s) < s.len() ==> s[first_nonzero(s)] != 0x30,
    decreases s.len(),
{
    if s.len() > 0 && s[0] == 0x30 {
        lemma_first_nonzero_bounds(s.skip(1));
        assert forall|j: int| 0 <= j < first_nonzero(s) implies s[j] == 0x30 by {
            if j > 0 {
                assert(s.skip(1)[j - 1] == s[j]);
            }
        }
        if first_nonzero(s) < s.len() {
            assert(s.skip(1)[first_nonzero(s) - 1] == s[first_nonzero(s)]);
        }
    }
}

proof fn lemma_all_zero_value(s: Seq<u8>)
    requires
        forall|j: int| 0 <= j < s.len() ==> s[j] == 0x30,
    ensures
        dec_value(s) == 0,
    decreases s.len(),
{
    if s.len() > 0 {
        lemma_all_zero_value(s.drop_last());
    }
}

proof fn lemma_dec_value_skip_zeros(s: Seq<u8>, m: int)
    requires
        0 <= m <= s.len(),
        forall|j: int| 0 <= j < m ==> s[j] == 0x30,
    ensures
        dec_value(s.skip(m)) == dec_value(s),
    decreases m,
{
    if m > 0 {
        lemma_dec_value_skip_one(s);
        lemma_dec_value_skip_zeros(s.skip(1), m - 1);
        assert(s.skip(1).skip(m - 1) =~= s.skip(m));
    } else {
        assert(s.skip(0) =~= s);
    }
}

proof fn lemma_dec_value_skip_one(s: Seq<u8>)
    requires
        s.len() >= 1,
        s[0] == 0x30,
    ensures
        dec_value(s.skip(1)) == dec_value(s),
    decreases s.len(),
{
    if s.len() == 1 {
        assert(s.skip(1) =~= Seq::<u8>::empty());
    } else {
        assert(s.drop_last()[0] == 0x30);
        lemma_dec_value_skip_one(s.drop_last());
        assert(s.skip(1).drop_last() =~= s.drop_last().skip(1));
        assert(s.skip(1).last() == s.last());
        let ghost tail_term: nat = if s.last() >= 0x30 {
            (s.last() - 0x30) as nat
        } else {
            0
        };
        assert(dec_value(s) == dec_value(s.drop_last()) * 10 + tail_term);
        assert(dec_value(s.skip(1)) == dec_value(s.skip(1).drop_last()) * 10 + tail_term);
    }
}

/// Canonicalisation: for a nonzero phone, the digit string that the hashing
/// selects is the exact decimal form of the phone — between 1 and 20 ASCII
/// digits, no leading zero, and its numeric value is the phone itself.
pub proof fn lemma_canonical_decimal(p: u64)
    requires
        p != 0,
    ensures
        1 <= canonical_decimal(p).len() <= 20,
        canonical_decimal(p)[0] != 0x30,
        forall|j: int|
            0 <= j < canonical_decimal(p).len() ==> 0x30 <= #[trigger] canonical_decimal(p)[j]
                && canonical_decimal(p)[j] <= 0x39,
        dec_value(canonical_decimal(p)) == p as nat,
{
    let s = dec_digits(p as nat, 20);
    let f = first_nonzero(s);
    lemma_u64_below_pow10_20(p);
    lemma_dec_digits_are_digits(p as nat, 20);
    lemma_first_nonzero_bounds(s);
    if f == s.len() {
        lemma_all_zero_value(s);
        lemma_dec_value_of_digits(p as nat, 20);
        assert(false);
    }
    lemma_dec_value_skip_zeros(s, f);
    lemma_dec_value_of_digits(p as nat, 20);
    assert(canonical_decimal(p)[0] == s[f]);
    assert forall|j: int| 0 <= j < canonical_decimal(p).len() implies 0x30 <= #[trigger] canonical_decimal(
        p,
    )[j] && canonical_decimal(p)[j] <= 0x39 by {
        assert(canonical_decimal(p)[j] == s[f + j]);
    }
}

/// Computes one suffix hash and conditionally reveals it: `phone` becomes the
/// 64-bit little-endian prefix of `SHA1("+" || data)` iff `choice` is set.
pub fn hash_truncated(data: &Vec<u8>, phone: &mut u64, choice: subtle::Choice)
    ensures
        *final(phone) == if choice_is_set(choice) {
            spec_u64_from_le_bytes(sha1_of(seq![0x2bu8] + data@).subrange(0, 8))
        } else {
            *old(phone)
        },
{
    let mut buf: Vec<u8> = Vec::new();
    buf.push(PLUS);
    let mut j: usize = 0;
    while j < data.len()
        invariant
            j <= data@.len(),
            buf@ == seq![0x2bu8] + data@.subrange(0, j as int),
        decreases data@.len() - j,
    {
        buf.push(data[j]);
        assert(buf@ =~= seq![0x2bu8] + data@.subrange(0, j + 1 as int));
        j += 1;
    }
    assert(data@.subrange(0, data@.len() as int) =~= data@);
    let digest: [u8; 20] = sha1_digest(buf.as_slice());
    let truncated: u64 = u64_from_le_bytes(slice_subrange(digest.as_slice(), 0, 8));
    proof {
        assert(digest@.subrange(0, 8) == sha1_of(buf@).subrange(0, 8));
    }
    zeroize_bytes(&mut buf);
    conditional_assign_u64(phone, truncated, choice);
}

/// Runs the 20 suffix hashes over a 20-digit ASCII rendering and selects, in
/// constant time, the hash of the suffix that starts at the first non-zero
/// digit. If every digit is zero, `phone` is left unchanged.
pub fn hash_ascii_phone(phone: &mut u64, ascii: &Vec<u8>)
    requires
        ascii@.len() == 20,
    ensures
        *final(phone) == if first_nonzero(ascii@) < 20 {
            suffix_hash(ascii@, first_nonzero(ascii@))
        } else {
            *old(phone)
        },
{
    let ghost phone0: u64 = *phone;
    let ghost fnz: int = first_nonzero(ascii@);
    proof {
        lemma_first_nonzero_bounds(ascii@);
    }
    let mut leading_zeroes: subtle::Choice = choice_from_bit(1);
    let mut i: usize = 0;
    while i < 20
        invariant
            i <= 20,
            ascii@.len() == 20,
            fnz == first_nonzero(ascii@),
            0 <= fnz <= 20,
            forall|j: int| 0 <= j < fnz ==> ascii@[j] == 0x30,
            fnz < 20 ==> ascii@[fnz] != 0x30,
            choice_is_set(leading_zeroes) <==> i <= fnz,
            *phone == if fnz < i {
                suffix_hash(ascii@, fnz)
            } else {
                phone0
            },
        decreases 20 - i,
    {
        let mut suffix: Vec<u8> = Vec::with_capacity(20 - i);
        let mut j: usize = i;
        while j < 20
            invariant
                i <= j <= 20,
                ascii@.len() == 20,
                suffix@ == ascii@.subrange(i as int, j as int),
            decreases 20 - j,
        {
            suffix.push(ascii[j]);
            assert(suffix@ =~= ascii@.subrange(i as int, j + 1 as int));
            j += 1;
        }
        proof {
            assert(suffix@ =~= ascii@.skip(i as int));
        }
        let digit_is_zero = ct_eq_u8(ascii[i], DIGIT_ZERO);
        let select = choice_and(leading_zeroes, choice_not(digit_is_zero));
        hash_truncated(&suffix, phone, select);
        let mut spent_suffix = suffix;
        zeroize_bytes(&mut spent_suffix);
        leading_zeroes = choice_and(leading_zeroes, digit_is_zero);
        i += 1;
    }
}

/// Replaces a numeric phone by its canonical hash: the 64-bit little-endian
/// prefix of `SHA1("+" || decimal form)`, the decimal form having no leading
/// zeros. A phone of 0 has no non-zero digit and is left unchanged; callers
/// pass non-zero phones. All secret-data steps run in constant time, and all
/// 20 suffix hashes are computed whatever the phone.
pub fn hash_query_phone(phone: &mut u64)
    ensures
        *old(phone) != 0 ==> *final(phone) == phone_hash(*old(phone)),
        *old(phone) == 0 ==> *final(phone) == 0,
{
    let ghost phone0: u64 = *phone;
    // digits of the phone, least significant first
    let mut rev: Vec<u8> = Vec::with_capacity(PHONE_DIGITS);
    let mut q: u64 = *phone;
    proof {
        assert(pow10(0) == 1);
        assert(phone0 as nat / 1 == phone0 as nat);
    }
    let mut k: usize = 0;
    while k < 20
        invariant
            k <= 20,
            rev@.len() == k,
            q as nat == phone0 as nat / pow10(k as nat),
            forall|j: int|
                0 <= j < k ==> rev@[j] == ((0x30 + (phone0 as nat / pow10(j as nat)) % 10) as u8),
        decreases 20 - k,
    {
        let d: u8 = (q % 10) as u8;
        rev.push(DIGIT_ZERO + d);
        proof {
            lemma_pow10_pos(k as nat);
            lemma_div_denominator(phone0 as int, pow10(k as nat) as int, 10);
            assert(pow10((k + 1) as nat) == 10 * pow10(k as nat));
        }
        q = q / 10;
        k += 1;
    }
    // reverse into the zero-padded rendering, most significant digit first
    let mut ascii: Vec<u8> = Vec::with_capacity(PHONE_DIGITS);
    let mut i: usize = 0;
    while i < 20
        invariant
            i <= 20,
            rev@.len() == 20,
            ascii@.len() == i,
            forall|j: int|
                0 <= j < 20 ==> rev@[j] == ((0x30 + (phone0 as nat / pow10(j as nat)) % 10) as u8),
            forall|j: int| 0 <= j < i ==> ascii@[j] == rev@[19 - j],
        decreases 20 - i,
    {
        let b: u8 = rev[19 - i];
        ascii.push(b);
        i += 1;
    }
    proof {
        lemma_dec_digits_len(phone0 as nat, 20);
        assert forall|j: int| 0 <= j < 20 implies ascii@[j] == dec_digits(phone0 as nat, 20)[j] by {
            lemma_dec_digits_index(phone0 as nat, 20, j);
        }
        assert(ascii@ =~= dec_digits(phone0 as nat, 20));
    }
    zeroize_bytes(&mut rev);
    hash_ascii_phone(phone, &ascii);
    let mut spent_ascii = ascii;
    zeroize_bytes(&mut spent_ascii);
    proof {
        let s = dec_digits(phone0 as nat, 20);
        lemma_first_nonzero_bounds(s);
        if phone0 != 0 {
            if first_nonzero(s) == 20 {
                lemma_all_zero_value(s);
                lemma_u64_below_pow10_20(phone0);
                lemma_dec_value_of_digits(phone0 as nat, 20);
                assert(false);
            }
        } else {
            lemma_dec_digits_of_zero(20);
            if first_nonzero(s) < 20 {
                assert(s[first_nonzero(s)] == 0x30);
                assert(false);
            }
        }
    }
}

proof fn lemma_dec_value_upper(s: Seq<u8>)
    requires
        forall|j: int| 0 <= j < s.len() ==> 0x30 <= #[trigger] s[j] && s[j] <= 0x39,
    ensures
        dec_value(s) < pow10(s.len() as nat),
    decreases s.len(),
{
    if s.len() == 0 {
    } else {
        assert forall|j: int| 0 <= j < s.drop_last().len() implies 0x30 <= #[trigger] s.drop_last()[j]
            && s.drop_last()[j] <= 0x39 by {
            assert(s.drop_last()[j] == s[j]);
        }
        lemma_dec_value_upper(s.drop_last());
        assert(pow10(s.len() as nat) == 10 * pow10((s.len() - 1) as nat));
    }
}

proof fn lemma_dec_value_lower(s: Seq<u8>)
    requires
        s.len() >= 1,
        s[0] != 0x30,
        forall|j: int| 0 <= j < s.len() ==> 0x30 <= #[trigger] s[j] && s[j] <= 0x39,
    ensures
        dec_value(s) >= pow10((s.len() - 1) as nat),
    decreases s.len(),
{
    if s.len() == 1 {
        assert(pow10(0) == 1);
    } else {
        assert(s.drop_last()[0] == s[0]);
        assert forall|j: int| 0 <= j < s.drop_last().len() implies 0x30 <= #[trigger] s.drop_last()[j]
            && s.drop_last()[j] <= 0x39 by {
            assert(s.drop_last()[j] == s[j]);
        }
        lemma_dec_value_lower(s.drop_last());
        assert(pow10((s.len() - 1) as nat) == 10 * pow10((s.len() - 2) as nat));
    }
}

proof fn lemma_pow10_monotone(a: nat, b: nat)
    requires
        a <= b,
    ensures
        pow10(a) <= pow10(b),
    decreases b,
{
    if a < b {
        lemma_pow10_monotone(a, (b - 1) as nat);
        lemma_pow10_pos((b - 1) as nat);
    }
}

/// Two digit strings without leading zeros and with the same value are the
/// same string: the decimal form of a positive number is unique.
proof fn lemma_digit_strings_unique(s: Seq<u8>, t: Seq<u8>)
    requires
        s.len() >= 1,
        t.len() >= 1,
        s[0] != 0x30,
        t[0] != 0x30,
        forall|j: int| 0 <= j < s.len() ==> 0x30 <= #[trigger] s[j] && s[j] <= 0x39,
        forall|j: int| 0 <= j < t.len() ==> 0x30 <= #[trigger] t[j] && t[j] <= 0x39,
        dec_value(s) == dec_value(t),
    ensures
        s == t,
    decreases s.len(),
{
    if s.len() < t.len() {
        lemma_dec_value_upper(s);
        lemma_dec_value_lower(t);
        lemma_pow10_monotone(s.len() as nat, (t.len() - 1) as nat);
        assert(false);
    }
    if t.len() < s.len() {
        lemma_dec_value_upper(t);
        lemma_dec_value_lower(s);
        lemma_pow10_monotone(t.len() as nat, (s.len() - 1) as nat);
        assert(false);
    }
    if s.len() == 1 {
        assert(dec_value(s) == (s[0] - 0x30) as nat);
        assert(dec_value(t) == (t[0] - 0x30) as nat);
        assert(s =~= t);
    } else {
        let v = dec_value(s);
        assert(v == dec_value(s.drop_last()) * 10 + ((s.last() - 0x30) as nat));
        assert(v == dec_value(t.drop_last()) * 10 + ((t.last() - 0x30) as nat));
        lemma_fundamental_div_mod_converse(
            v as int,
            10,
            dec_value(s.drop_last()) as int,
            s.last() - 0x30,
        );
        lemma_fundamental_div_mod_converse(
            v as int,
            10,
            dec_value(t.drop_last()) as int,
            t.last() - 0x30,
        );
        assert(s.last() == t.last());
        assert(dec_value(s.drop_last()) == dec_value(t.drop_last()));
        assert(s.drop_last()[0] == s[0]);
        assert(t.drop_last()[0] == t[0]);
        assert forall|j: int| 0 <= j < s.drop_last().len() implies 0x30 <= #[trigger] s.drop_last()[j]
            && s.drop_last()[j] <= 0x39 by {
            assert(s.drop_last()[j] == s[j]);
        }
        assert forall|j: int| 0 <= j < t.drop_last().len() implies 0x30 <= #[trigger] t.drop_last()[j]
            && t.drop_last()[j] <= 0x39 by {
            assert(t.drop_last()[j] == t[j]);
        }
        lemma_digit_strings_unique(s.drop_last(), t.drop_last());
        assert forall|j: int| 0 <= j < s.len() implies s[j] == t[j] by {
            if j < s.len() - 1 {
                assert(s.drop_last()[j] == s[j]);
                assert(t.drop_last()[j] == t[j]);
            }
        }
        assert(s =~= t);
    }
}

/// The decimal form is faithful both ways: any string of ASCII digits with no
/// leading zero whose value is a non-zero phone is exactly the digit string
/// whose suffix hash the canonicalisation selects.
pub proof fn lemma_decimal_representation_unique(s: Seq<u8>, p: u64)
    requires
        p != 0,
        s.len() >= 1,
        s[0] != 0x30,
        forall|j: int| 0 <= j < s.len() ==> 0x30 <= #[trigger] s[j] && s[j] <= 0x39,
        dec_value(s) == p as nat,
    ensures
        s == canonical_decimal(p),
{
    lemma_canonical_decimal(p);
    lemma_digit_strings_unique(s, canonical_decimal(p));
}

} // verus!
