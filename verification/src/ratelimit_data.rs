//! Layout over the decrypted rate-limit slab.
//!
//! The plaintext is `[size_limit: u32 LE][slots: raw_slot_count * 8 bytes]`,
//! with up to 7 trailing bytes that belong to no slot and are never touched.
//! A quarter of the raw slots are dummy slots, so the capacity advertised to
//! users is three quarters of the raw count. Adding entries must leave the
//! reported set size strictly below the concealed `size_limit`.

use crate::crypto::random_bytes;
use crate::ratelimit_set::add_entries;
use crate::ratelimit_set::ratelimit_set_add;
use crate::ratelimit_set::ratelimit_set_size;
use crate::ratelimit_set::reported_size;
use crate::secret::zeroize_bytes;
use crate::secret::zeroize_words;
use crate::SgxStatus;
use vstd::arithmetic::div_mod::lemma_fundamental_div_mod;
use vstd::arithmetic::div_mod::lemma_mod_division_less_than_divisor;
use vstd::bytes::spec_u32_from_le_bytes;
use vstd::bytes::spec_u32_to_le_bytes;
use vstd::bytes::spec_u64_from_le_bytes;
use vstd::bytes::spec_u64_to_le_bytes;
use vstd::bytes::u32_from_le_bytes;
use vstd::bytes::u32_to_le_bytes;
use vstd::bytes::u64_from_le_bytes;
use vstd::bytes::u64_to_le_bytes;
use vstd::prelude::*;
use vstd::slice::slice_subrange;

verus! {

/// Bytes of the leading little-endian `size_limit`.
pub const SIZE_LIMIT_DATA_LEN: usize = 4;

/// The concealed size limit: the first four bytes, little-endian.
pub open spec fn size_limit_of(data: Seq<u8>) -> u32
    recommends
        data.len() >= 4,
{
    spec_u32_from_le_bytes(data.subrange(0, 4))
}

/// The number of whole 8-byte slots behind the size limit.
pub open spec fn raw_slot_count(data: Seq<u8>) -> int {
    if data.len() < 4 {
        0
    } else {
        (data.len() - 4) as int / 8
    }
}

/// The slot values, little-endian.
pub open spec fn slots_of(data: Seq<u8>) -> Seq<u64> {
    Seq::new(
        raw_slot_count(data) as nat,
        |i: int| spec_u64_from_le_bytes(data.subrange(4 + 8 * i, 4 + 8 * i + 8)),
    )
}

/// Slot values written back to bytes, little-endian, in slot order.
pub open spec fn le_bytes_of_slots(slots: Seq<u64>) -> Seq<u8>
    decreases slots.len(),
{
    if slots.len() == 0 {
        seq![]
    } else {
        spec_u64_to_le_bytes(slots[0]) + le_bytes_of_slots(slots.skip(1))
    }
}

/// The slab after the given phones are added to its set: the size limit and
/// the trailing remainder are unchanged, the slots are updated in place.
pub open spec fn state_after_add(data: Seq<u8>, phones: Seq<u64>) -> Seq<u8> {
    data.subrange(0, 4) + le_bytes_of_slots(add_entries(slots_of(data), phones)) + data.subrange(
        4 + 8 * raw_slot_count(data),
        data.len() as int,
    )
}

/// The effective slot count advertised to users: three quarters of the raw
/// count, saturated at the `usize` and 32-bit maxima.
pub open spec fn effective_slot_count(data: Seq<u8>) -> u32 {
    let tripled = if raw_slot_count(data) * 3 > usize::MAX as int {
        usize::MAX as int
    } else {
        raw_slot_count(data) * 3
    };
    if tripled / 4 > 0xffff_ffff {
        0xffff_ffffu32
    } else {
        ((tripled / 4) as u32)
    }
}

///`a + b`, saturated at the 32-bit maximum.
pub open spec fn sat_add_u32(a: u32, b: u32) -> u32 {
    if a + b > 0xffff_ffff {
        0xffff_ffffu32
    } else {
        (a + b) as u32
    }
}

proof fn lemma_le_bytes_of_slots_len(slots: Seq<u64>)
    ensures
        le_bytes_of_slots(slots).len() == 8 * slots.len(),
    decreases slots.len(),
{
    if slots.len() > 0 {
        vstd::bytes::lemma_auto_spec_u64_to_from_le_bytes();
        lemma_le_bytes_of_slots_len(slots.skip(1));
    }
}

proof fn lemma_le_bytes_of_slots_snoc(slots: Seq<u64>, s: u64)
    ensures
        le_bytes_of_slots(slots.push(s)) == le_bytes_of_slots(slots) + spec_u64_to_le_bytes(s),
    decreases slots.len(),
{
    if slots.len() == 0 {
        assert(slots.push(s)[0] == s);
        assert(slots.push(s).skip(1) =~= Seq::<u64>::empty());
        assert(le_bytes_of_slots(Seq::<u64>::empty()) == Seq::<u8>::empty());
        assert(le_bytes_of_slots(slots.push(s)) == spec_u64_to_le_bytes(s) + Seq::<u8>::empty());
        assert(le_bytes_of_slots(slots) == Seq::<u8>::empty());
        assert(spec_u64_to_le_bytes(s) + Seq::<u8>::empty() =~= Seq::<u8>::empty()
            + spec_u64_to_le_bytes(s));
    } else {
        assert(slots.push(s)[0] == slots[0]);
        assert(slots.push(s).skip(1) =~= slots.skip(1).push(s));
        lemma_le_bytes_of_slots_snoc(slots.skip(1), s);
        assert(spec_u64_to_le_bytes(slots[0]) + (le_bytes_of_slots(slots.skip(1))
            + spec_u64_to_le_bytes(s)) =~= (spec_u64_to_le_bytes(slots[0]) + le_bytes_of_slots(
            slots.skip(1),
        )) + spec_u64_to_le_bytes(s));
    }
}

/// Adding phones never changes the length of the slab.
pub proof fn lemma_state_after_add_len(data: Seq<u8>, phones: Seq<u64>)
    requires
        data.len() >= 4,
    ensures
        state_after_add(data, phones).len() == data.len(),
{
    crate::ratelimit_set::lemma_add_entries_len(slots_of(data), phones);
    lemma_le_bytes_of_slots_len(add_entries(slots_of(data), phones));
    lemma_fundamental_div_mod((data.len() - 4) as int, 8);
    lemma_mod_division_less_than_divisor((data.len() - 4) as int, 8);
}

/// Reads the slot values out of a slab.
fn load_slots(data: &Vec<u8>) -> (r: Vec<u64>)
    requires
        data@.len() >= 4,
    ensures
        r@ == slots_of(data@),
{
    let n: usize = (data.len() - 4) / 8;
    proof {
        lemma_fundamental_div_mod((data@.len() - 4) as int, 8);
        lemma_mod_division_less_than_divisor((data@.len() - 4) as int, 8);
        assert(4 + 8 * (n as int) <= data@.len());
    }
    let mut r: Vec<u64> = Vec::new();
    let mut i: usize = 0;
    while i < n
        invariant
            i <= n,
            data@.len() >= 4,
            data@.len() <= usize::MAX,
            n == raw_slot_count(data@),
            4 + 8 * (n as int) <= data@.len(),
            r@.len() == i,
            forall|j: int| 0 <= j < i ==> r@[j] == slots_of(data@)[j],
        decreases n - i,
    {
        let start: usize = 4 + 8 * i;
        let word = u64_from_le_bytes(slice_subrange(data.as_slice(), start, start + 8));
        r.push(word);
        i += 1;
    }
    proof {
        assert(r@ =~= slots_of(data@));
    }
    r
}

/// Writes slot values back over a slab: the four-byte size limit and the
/// trailing remainder are kept, the slot bytes are replaced.
fn store_slots(data: &Vec<u8>, slots: &Vec<u64>) -> (r: Vec<u8>)
    requires
        data@.len() >= 4,
        slots@.len() == raw_slot_count(data@),
    ensures
        r@ == data@.subrange(0, 4) + le_bytes_of_slots(slots@) + data@.subrange(
            4 + 8 * raw_slot_count(data@),
            data@.len() as int,
        ),
        r@.len() == data@.len(),
{
    let n: usize = slots.len();
    let data_len: usize = data.len();
    proof {
        lemma_fundamental_div_mod((data@.len() - 4) as int, 8);
        lemma_mod_division_less_than_divisor((data@.len() - 4) as int, 8);
        assert(4 + 8 * (n as int) <= data@.len());
    }
    let mut r: Vec<u8> = Vec::new();
    let mut h: usize = 0;
    while h < 4
        invariant
            h <= 4,
            data@.len() >= 4,
            r@ == data@.subrange(0, h as int),
        decreases 4 - h,
    {
        r.push(data[h]);
        assert(r@ =~= data@.subrange(0, h + 1 as int));
        h += 1;
    }
    let mut i: usize = 0;
    while i < n
        invariant
            i <= n,
            data@.len() >= 4,
            data@.len() <= usize::MAX,
            n == slots@.len(),
            4 + 8 * (n as int) <= data@.len(),
            r@ == data@.subrange(0, 4) + le_bytes_of_slots(slots@.take(i as int)),
        decreases n - i,
    {
        let mut word_bytes = u64_to_le_bytes(slots[i]);
        proof {
            lemma_le_bytes_of_slots_snoc(slots@.take(i as int), slots@[i as int]);
            assert(slots@.take(i as int).push(slots@[i as int]) =~= slots@.take(i + 1 as int));
        }
        let ghost r_before = r@;
        r.append(&mut word_bytes);
        proof {
            assert(r@ =~= data@.subrange(0, 4) + le_bytes_of_slots(slots@.take(i + 1 as int)));
        }
        i += 1;
    }
    proof {
        assert(slots@.take(n as int) =~= slots@);
        lemma_le_bytes_of_slots_len(slots@);
    }
    let mut t: usize = 4 + 8 * n;
    while t < data_len
        invariant
            data@.len() >= 4,
            data_len == data@.len(),
            n == slots@.len(),
            4 + 8 * (n as int) <= data@.len(),
            4 + 8 * n <= t <= data@.len(),
            r@ == data@.subrange(0, 4) + le_bytes_of_slots(slots@) + data@.subrange(
                4 + 8 * (n as int),
                t as int,
            ),
        decreases data@.len() - t,
    {
        r.push(data[t]);
        assert(r@ =~= data@.subrange(0, 4) + le_bytes_of_slots(slots@) + data@.subrange(
            4 + 8 * (n as int),
            t + 1 as int,
        ));
        t += 1;
    }
    proof {
        lemma_le_bytes_of_slots_len(slots@);
    }
    r
}

/// A secret rate-limit slab: the concealed size limit followed by the slots.
pub struct RatelimitStateData {
    data: Vec<u8>,
}

impl View for RatelimitStateData {
    type V = Seq<u8>;

    closed spec fn view(&self) -> Seq<u8> {
        self.data@
    }
}

impl RatelimitStateData {
    /// Wraps a plaintext slab.
    pub fn new(data: Vec<u8>) -> (r: Self)
        ensures
            r@ == data@,
    {
        Self { data }
    }

    /// Releases the plaintext slab.
    pub fn into_inner(self) -> (r: Vec<u8>)
        ensures
            r@ == self@,
    {
        self.data
    }

    /// Zeroes the plaintext slab in place; every owner calls this before the
    /// slab is released without being handed on.
    pub fn zeroize(&mut self)
        ensures
            final(self)@.len() == old(self)@.len(),
            forall|j: int| 0 <= j < final(self)@.len() ==> final(self)@[j] == 0,
    {
        zeroize_bytes(&mut self.data);
    }

    /// The effective capacity advertised to users: three quarters of the raw
    /// slot count (one quarter are dummy slots).
    pub fn slot_count(&self) -> (r: u32)
        ensures
            r == effective_slot_count(self@),
    {
        let raw: usize = if self.data.len() < 4 {
            0
        } else {
            (self.data.len() - 4) / 8
        };
        let tripled: usize = match raw.checked_mul(3) {
            Some(t) => t,
            None => usize::MAX,
        };
        let quartered: usize = tripled / 4;
        if quartered > 0xffff_ffffusize {
            0xffff_ffffu32
        } else {
            quartered as u32
        }
    }

    /// Draws four random bytes, reduces them modulo `range`, adds
    /// `lower_limit_inclusive` with a saturating add, and writes the result
    /// into the leading size-limit field. A slab shorter than the size-limit
    /// field is rejected; an RNG failure is unexpected.
    pub fn set_size_limit(&mut self, lower_limit_inclusive: u32, range: u32) -> (r: Result<
        (),
        SgxStatus,
    >)
        ensures
            r is Err ==> final(self)@ == old(self)@,
            old(self)@.len() >= 4 ==> (r is Ok || r == Err::<(), SgxStatus>(SgxStatus::Unexpected)),
            old(self)@.len() < 4 ==> (r == Err::<(), SgxStatus>(SgxStatus::InvalidRateLimitState)
                || r == Err::<(), SgxStatus>(SgxStatus::Unexpected)),
            r is Ok ==> exists|off: u32|
                #![auto]
                (if range == 0 {
                    off == 0
                } else {
                    off < range
                }) && final(self)@ == spec_u32_to_le_bytes(
                    sat_add_u32(lower_limit_inclusive, off),
                ) + old(self)@.skip(4),
    {
        let rand = match random_bytes(SIZE_LIMIT_DATA_LEN) {
            Ok(v) => v,
            Err(_) => {
                return Err(SgxStatus::Unexpected);
            },
        };
        if self.data.len() < SIZE_LIMIT_DATA_LEN {
            return Err(SgxStatus::InvalidRateLimitState);
        }
        let rand_word = u32_from_le_bytes(slice_subrange(rand.as_slice(), 0, 4));
        let off: u32 = if range == 0 {
            0
        } else {
            rand_word % range
        };
        let limit: u32 = if lower_limit_inclusive > u32::MAX - off {
            u32::MAX
        } else {
            lower_limit_inclusive + off
        };
        let ghost data0 = self.data@;
        let limit_bytes = u32_to_le_bytes(limit);
        let mut b: usize = 0;
        while b < 4
            invariant
                b <= 4,
                data0.len() >= 4,
                limit_bytes@.len() == 4,
                self.data@.len() == data0.len(),
                forall|j: int| 0 <= j < b ==> self.data@[j] == limit_bytes@[j],
                forall|j: int| b <= j < data0.len() ==> self.data@[j] == data0[j],
            decreases 4 - b,
        {
            *vstd::std_specs::vec::vec_index_mut(&mut self.data, b) = limit_bytes[b];
            b += 1;
        }
        proof {
            assert(limit == sat_add_u32(lower_limit_inclusive, off));
            assert(self.data@ =~= spec_u32_to_le_bytes(limit) + data0.skip(4));
        }
        Ok(())
    }

    /// Adds the phones to the set and enforces the concealed limit: the call
    /// succeeds exactly when the reported set size stays strictly below the
    /// size limit, and then returns the updated slab.
    pub fn add(self, phones: &[u64]) -> (r: Result<RatelimitStateData, SgxStatus>)
        ensures
            self@.len() < 4 ==> r == Err::<RatelimitStateData, SgxStatus>(
                SgxStatus::InvalidRateLimitState,
            ),
            self@.len() >= 4 ==> {
                &&& (r is Ok <==> reported_size(add_entries(slots_of(self@), phones@))
                    < size_limit_of(self@))
                &&& (r matches Ok(d) ==> d@ == state_after_add(self@, phones@))
                &&& (r is Err ==> r == Err::<RatelimitStateData, SgxStatus>(
                    SgxStatus::RateLimitExceeded,
                ))
            },
    {
        let mut this = self;
        if this.data.len() < SIZE_LIMIT_DATA_LEN {
            this.zeroize();
            return Err(SgxStatus::InvalidRateLimitState);
        }
        let mut slots = load_slots(&this.data);
        ratelimit_set_add(&mut slots, phones);
        let size = ratelimit_set_size(&slots);
        let limit = u32_from_le_bytes(slice_subrange(this.data.as_slice(), 0, 4));
        if size < limit {
            let data = store_slots(&this.data, &slots);
            zeroize_words(&mut slots);
            this.zeroize();
            Ok(RatelimitStateData { data })
        } else {
            zeroize_words(&mut slots);
            this.zeroize();
            Err(SgxStatus::RateLimitExceeded)
        }
    }
}

} // verus!
