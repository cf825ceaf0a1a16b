//! The query-batching server state machine.
//!
//! A server instance accepts calls, each carrying an encrypted query of phone
//! numbers. A call on the rate-limit path is served synchronously: the
//! phones are canonicalised and added to the client's encrypted rate-limit
//! state. Any other call has its phones appended to a bounded accumulator
//! and its caller parked. Termination performs the bulk directory lookup
//! over the accumulated phones, in bounded chunks, and splits the result
//! back to the parked callers in arrival order.

use crate::crypto::aes256_gcm_decrypt;
use crate::crypto::gcm_pt;
use crate::crypto::gcm_tag;
use crate::crypto::sha256_digest;
use crate::crypto::sha256_of;
use crate::phone_hash::hash_query_phone;
use crate::phone_hash::phone_hash;
use crate::ratelimit_map::ratelimit_update_applied;
use crate::ratelimit_state::all_zero;
use crate::ratelimit_state::decrypt_path_ok;
use crate::secret::zeroize_bytes;
use crate::secret::zeroize_words;
use crate::ratelimit_map::update_ratelimit_state;
use crate::ratelimit_map::RatelimitStateMap;
use crate::uuid_value;
use crate::SgxStatus;
use crate::Uuid;
use vstd::arithmetic::div_mod::lemma_fundamental_div_mod;
use vstd::arithmetic::div_mod::lemma_fundamental_div_mod_converse;
use vstd::arithmetic::div_mod::lemma_mod_division_less_than_divisor;
use vstd::bytes::spec_u64_from_le_bytes;
use vstd::bytes::spec_u64_to_le_bytes;
use vstd::bytes::u64_from_le_bytes;
use vstd::bytes::u64_to_le_bytes;
use vstd::prelude::*;
use vstd::slice::slice_subrange;

verus! {

/// The largest number of phones handed to one bulk lookup.
pub const MAX_HASH_TABLE_SIZE: usize = 1024;

/// Bytes per phone in wire formats.
pub const BYTES_PER_PHONE: usize = 8;

/// Bytes per UUID in wire formats.
pub const BYTES_PER_UUID: usize = 16;

/// Bytes of the commitment nonce leading every query buffer.
pub const COMMITMENT_NONCE_SIZE: usize = 32;

/// A parked caller's handle: a token the transport uses to reply.
#[derive(Clone, Copy, Debug, PartialEq, Eq, Structural)]
pub struct MsgFrom {
    pub id: u64,
}

/// A parked caller and how many phones its request contributed.
#[derive(Clone, Copy, Debug, PartialEq, Eq, Structural)]
pub struct PendingRequest {
    pub from: MsgFrom,
    pub request_phone_count: u32,
}

/// The encrypted query of one call.
pub struct CallQuery {
    pub data: Vec<u8>,
    pub iv: [u8; 12],
    pub mac: [u8; 16],
}

/// The arguments of one call, as handed in by the transport. The query bytes
/// and the rate-limit slab are already copied out of untrusted memory.
pub struct CallArgs {
    pub query: CallQuery,
    pub query_commitment: [u8; 32],
    pub query_phone_count: u32,
    pub ratelimit_state_uuid: Uuid,
    pub ratelimit_state_data: Vec<u8>,
}

/// Arguments of `init`.
pub struct StartArgs {
    pub max_query_phones: usize,
    pub max_ratelimit_states: usize,
}

/// Arguments of `terminate`: the directory, already wrapped as slices of the
/// claimed element count.
pub struct StopArgs {
    pub in_phones: Vec<u64>,
    pub in_uuids: Vec<Uuid>,
    pub in_phone_count: usize,
}

/// One reply owed to a parked caller.
#[derive(Debug)]
pub struct Reply {
    pub from: MsgFrom,
    pub data: Vec<u8>,
}

/// What a successful call asks the transport to do.
#[derive(Debug)]
pub enum CallOutcome {
    /// The caller is parked; `terminate` will produce its reply.
    Parked,
    /// The rate-limit path: write the updated encrypted state back to the
    /// caller's slab and reply to the caller with an empty body.
    RatelimitUpdated { from: MsgFrom, ratelimit_state_data: Vec<u8> },
}

/// A bounded list of secret phones; the bound is fixed at construction and
/// the backing store is zeroed on drop.
pub struct PhoneList {
    phones: Vec<u64>,
    capacity: usize,
}

impl View for PhoneList {
    type V = Seq<u64>;

    closed spec fn view(&self) -> Seq<u64> {
        self.phones@
    }
}

impl PhoneList {
    /// The fixed bound.
    pub closed spec fn spec_capacity(self) -> usize {
        self.capacity
    }

    pub open spec fn wf(self) -> bool {
        self@.len() <= self.spec_capacity()
    }

    /// An empty list with a fixed capacity.
    pub fn new(capacity: usize) -> (r: Self)
        ensures
            r@ == Seq::<u64>::empty(),
            r.spec_capacity() == capacity,
            r.wf(),
    {
        PhoneList { phones: Vec::new(), capacity }
    }

    pub fn len(&self) -> (r: usize)
        ensures
            r == self@.len(),
    {
        self.phones.len()
    }

    pub fn capacity(&self) -> (r: usize)
        ensures
            r == self.spec_capacity(),
    {
        self.capacity
    }

    /// Appends phones; the capacity must not be exceeded.
    pub fn extend_from(&mut self, phones: &[u64])
        requires
            old(self)@.len() + phones@.len() <= old(self).spec_capacity(),
        ensures
            final(self)@ == old(self)@ + phones@,
            final(self).spec_capacity() == old(self).spec_capacity(),
    {
        self.phones.extend_from_slice(phones);
    }

    /// A read-only view of the phones.
    pub fn as_slice(&self) -> (r: &[u64])
        ensures
            r@ == self@,
    {
        self.phones.as_slice()
    }

    /// Canonicalises every phone in place: each non-zero phone is replaced by
    /// its hash; a zero phone stays zero.
    pub fn hash_all(&mut self)
        ensures
            final(self)@ == old(self)@.map_values(
                |p: u64|
                    if p == 0 {
                        0u64
                    } else {
                        phone_hash(p)
                    },
            ),
            final(self).spec_capacity() == old(self).spec_capacity(),
    {
        let ghost before = self.phones@;
        let n = self.phones.len();
        let mut i: usize = 0;
        while i < n
            invariant
                i <= n,
                n == self.phones@.len(),
                before.len() == n,
                self.capacity == old(self).capacity,
                forall|j: int|
                    0 <= j < i ==> self.phones@[j] == (if before[j] == 0 {
                        0u64
                    } else {
                        phone_hash(before[j])
                    }),
                forall|j: int| i <= j < n ==> self.phones@[j] == before[j],
            decreases n - i,
        {
            let elem = vstd::std_specs::vec::vec_index_mut(&mut self.phones, i);
            hash_query_phone(elem);
            i += 1;
        }
        proof {
            assert(self.phones@ =~= before.map_values(
                |p: u64|
                    if p == 0 {
                        0u64
                    } else {
                        phone_hash(p)
                    },
            ));
        }
    }

    /// Zeroes every phone in place; called wherever the list is released, so
    /// that the secret phones do not outlive it.
    pub fn zeroize(&mut self)
        ensures
            final(self)@.len() == old(self)@.len(),
            forall|j: int| 0 <= j < final(self)@.len() ==> final(self)@[j] == 0,
        no_unwind
    {
        let n = self.phones.len();
        let mut i: usize = 0;
        while i < n
            invariant
                i <= n,
                n == self.phones@.len(),
                forall|j: int| 0 <= j < i ==> self.phones@[j] == 0,
            decreases n - i,
        {
            *vstd::std_specs::vec::vec_index_mut(&mut self.phones, i) = 0;
            i += 1;
        }
    }
}

/// The decrypted query buffer of one request: a 32-byte commitment nonce
/// followed by the phones, 8 bytes each, little-endian. Secret; zeroed on
/// drop.
pub struct RequestPhoneList {
    data: Vec<u8>,
}

impl View for RequestPhoneList {
    type V = Seq<u8>;

    closed spec fn view(&self) -> Seq<u8> {
        self.data@
    }
}

/// The phones carried after the commitment nonce of a query buffer.
pub open spec fn phones_of(data: Seq<u8>) -> Seq<u64> {
    if data.len() < 32 {
        Seq::empty()
    } else {
        Seq::new(
            ((data.len() - 32) as int / 8) as nat,
            |i: int| spec_u64_from_le_bytes(data.subrange(32 + 8 * i, 32 + 8 * i + 8)),
        )
    }
}

impl RequestPhoneList {
    /// Wraps an owned query buffer.
    pub fn new(data: Vec<u8>) -> (r: Self)
        ensures
            r@ == data@,
    {
        RequestPhoneList { data }
    }

    /// Decodes the phones that follow the commitment nonce: exactly
    /// `(len - 32) / 8` of them, 8 little-endian bytes each.
    pub fn phones(&self) -> (r: Vec<u64>)
        ensures
            r@ == phones_of(self@),
    {
        let len = self.data.len();
        if len < COMMITMENT_NONCE_SIZE {
            let r: Vec<u64> = Vec::new();
            proof {
                assert(r@ =~= phones_of(self@));
            }
            return r;
        }
        let n: usize = (len - COMMITMENT_NONCE_SIZE) / 8;
        proof {
            lemma_fundamental_div_mod((self.data@.len() - 32) as int, 8);
            lemma_mod_division_less_than_divisor((self.data@.len() - 32) as int, 8);
            assert(32 + 8 * (n as int) <= self.data@.len());
        }
        let mut r: Vec<u64> = Vec::new();
        let mut i: usize = 0;
        while i < n
            invariant
                i <= n,
                self.data@.len() >= 32,
                self.data@.len() <= usize::MAX,
                n == (self.data@.len() - 32) as int / 8,
                32 + 8 * (n as int) <= self.data@.len(),
                r@.len() == i,
                forall|j: int| 0 <= j < i ==> r@[j] == phones_of(self.data@)[j],
            decreases n - i,
        {
            let start: usize = COMMITMENT_NONCE_SIZE + 8 * i;
            let word = u64_from_le_bytes(slice_subrange(self.data.as_slice(), start, start + 8));
            r.push(word);
            i += 1;
        }
        proof {
            assert(r@ =~= phones_of(self@));
        }
        r
    }

    /// The number of phones carried.
    pub fn phone_count(&self) -> (r: usize)
        ensures
            r == phones_of(self@).len(),
    {
        let len = self.data.len();
        if len < COMMITMENT_NONCE_SIZE {
            0
        } else {
            (len - COMMITMENT_NONCE_SIZE) / 8
        }
    }

    /// Zeroes the buffer in place; called wherever the buffer is released.
    pub fn zeroize(&mut self)
        ensures
            final(self)@.len() == old(self)@.len(),
            forall|j: int| 0 <= j < final(self)@.len() ==> final(self)@[j] == 0,
        no_unwind
    {
        let n = self.data.len();
        let mut i: usize = 0;
        while i < n
            invariant
                i <= n,
                n == self.data@.len(),
                forall|j: int| 0 <= j < i ==> self.data@[j] == 0,
            decreases n - i,
        {
            *vstd::std_specs::vec::vec_index_mut(&mut self.data, i) = 0;
            i += 1;
        }
    }
}

/// A decoded request: the decrypted phones, and the rate-limit handle if the
/// call carries one.
pub struct Request {
    pub phones: RequestPhoneList,
    pub ratelimit_state: Option<RequestRatelimitState>,
}

/// The rate-limit handle of a request: the client UUID (non-zero) and the
/// encrypted slab copied from the caller.
pub struct RequestRatelimitState {
    pub uuid: Uuid,
    pub data: Vec<u8>,
}

/// Compares two byte strings.
fn bytes_eq(a: &[u8], b: &[u8]) -> (r: bool)
    ensures
        r <==> a@ == b@,
{
    let n = a.len();
    if n != b.len() {
        proof {
            assert(a@.len() != b@.len());
        }
        return false;
    }
    let mut i: usize = 0;
    let mut r = true;
    while i < n
        invariant
            i <= n,
            n == a@.len(),
            n == b@.len(),
            r <==> (forall|j: int| 0 <= j < i ==> a@[j] == b@[j]),
        decreases n - i,
    {
        if a[i] != b[i] {
            r = false;
        }
        i += 1;
    }
    proof {
        if r {
            assert(a@ =~= b@);
        }
    }
    r
}

/// The index of the first directory phone equal to `q`, or `phones.len()`.
pub open spec fn first_match(phones: Seq<u64>, q: u64) -> int
    decreases phones.len(),
{
    if phones.len() == 0 {
        0
    } else if phones[0] == q {
        0
    } else {
        1 + first_match(phones.skip(1), q)
    }
}

/// A UUID on the wire: both words little-endian, low word first.
pub open spec fn uuid_bytes(u: Uuid) -> Seq<u8> {
    spec_u64_to_le_bytes(u.data64[0]) + spec_u64_to_le_bytes(u.data64[1])
}

/// What the directory lookup writes for one query phone: the UUID paired
/// with the first matching directory phone, or all zero if none matches.
pub open spec fn lookup_uuid(phones: Seq<u64>, uuids: Seq<Uuid>, q: u64) -> Seq<u8> {
    if first_match(phones, q) < phones.len() {
        uuid_bytes(uuids[first_match(phones, q)])
    } else {
        Seq::new(16, |i: int| 0u8)
    }
}

/// The full lookup result: one 16-byte block per query phone, in query order.
pub open spec fn lookup_results(phones: Seq<u64>, uuids: Seq<Uuid>, queries: Seq<u64>) -> Seq<u8> {
    Seq::new(
        (16 * queries.len()) as nat,
        |b: int| lookup_uuid(phones, uuids, queries[b / 16])[b % 16],
    )
}

proof fn lemma_first_match_bounds(phones: Seq<u64>, q: u64)
    ensures
        0 <= first_match(phones, q) <= phones.len(),
        forall|j: int| 0 <= j < first_match(phones, q) ==> phones[j] != q,
        first_match(phones, q) < phones.len() ==> phones[first_match(phones, q)] == q,
    decreases phones.len(),
{
    if phones.len() > 0 && phones[0] != q {
        lemma_first_match_bounds(phones.skip(1), q);
        assert forall|j: int| 0 <= j < first_match(phones, q) implies phones[j] != q by {
            if j > 0 {
                assert(phones.skip(1)[j - 1] == phones[j]);
            }
        }
        if first_match(phones, q) < phones.len() {
            assert(phones.skip(1)[first_match(phones, q) - 1] == phones[first_match(phones, q)]);
        }
    }
}

proof fn lemma_lookup_uuid_len(phones: Seq<u64>, uuids: Seq<Uuid>, q: u64)
    ensures
        lookup_uuid(phones, uuids, q).len() == 16,
{
    vstd::bytes::lemma_auto_spec_u64_to_from_le_bytes();
}

/// Splitting the query list splits the lookup result at the matching byte
/// offset.
proof fn lemma_lookup_results_concat(
    phones: Seq<u64>,
    uuids: Seq<Uuid>,
    queries: Seq<u64>,
    mid: int,
)
    requires
        0 <= mid <= queries.len(),
    ensures
        lookup_results(phones, uuids, queries) == lookup_results(phones, uuids, queries.take(mid))
            + lookup_results(phones, uuids, queries.skip(mid)),
{
    let lhs = lookup_results(phones, uuids, queries);
    let rhs = lookup_results(phones, uuids, queries.take(mid)) + lookup_results(
        phones,
        uuids,
        queries.skip(mid),
    );
    assert(lhs.len() == rhs.len());
    assert forall|b: int| 0 <= b < lhs.len() implies lhs[b] == rhs[b] by {
        lemma_fundamental_div_mod(b, 16);
        lemma_mod_division_less_than_divisor(b, 16);
        if b < 16 * mid {
            vstd::arithmetic::div_mod::lemma_multiply_divide_lt(b, 16, mid);
            assert(queries.take(mid)[b / 16] == queries[b / 16]);
        } else {
            let c = b - 16 * mid;
            lemma_fundamental_div_mod(c, 16);
            lemma_mod_division_less_than_divisor(c, 16);
            lemma_fundamental_div_mod_converse(b, 16, mid + c / 16, c % 16);
            assert(queries.skip(mid)[c / 16] == queries[mid + c / 16]);
            assert(rhs[b] == lookup_results(phones, uuids, queries.skip(mid))[c]);
        }
    };
    assert(lhs =~= rhs);
}

/// The oblivious bulk directory probe: for each query phone, writes the UUID
/// stored with the first equal directory phone, or the all-zero UUID if the
/// phone is not in the directory — one 16-byte block per query, in query
/// order.
pub fn hash_lookup(in_phones: &[u64], in_uuids: &[Uuid], query_phones: &[u64]) -> (out: Vec<u8>)
    requires
        in_phones@.len() == in_uuids@.len(),
        16 * query_phones@.len() <= usize::MAX,
    ensures
        out@ == lookup_results(in_phones@, in_uuids@, query_phones@),
{
    let mut out: Vec<u8> = Vec::new();
    let qn = query_phones.len();
    let n = in_phones.len();
    let mut i: usize = 0;
    while i < qn
        invariant
            i <= qn,
            qn == query_phones@.len(),
            n == in_phones@.len(),
            n == in_uuids@.len(),
            16 * qn <= usize::MAX,
            out@ == lookup_results(in_phones@, in_uuids@, query_phones@.take(i as int)),
        decreases qn - i,
    {
        let q = query_phones[i];
        let mut j: usize = 0;
        while j < n && in_phones[j] != q
            invariant
                j <= n,
                n == in_phones@.len(),
                forall|k: int| 0 <= k < j ==> in_phones@[k] != q,
            decreases n - j,
        {
            j += 1;
        }
        proof {
            lemma_first_match_bounds(in_phones@, q);
            if j < n {
                assert(in_phones@[j as int] == q);
                assert(first_match(in_phones@, q) == j);
            } else {
                assert(first_match(in_phones@, q) == n);
            }
        }
        let ghost block = lookup_uuid(in_phones@, in_uuids@, q);
        let ghost out_before = out@;
        if j < n {
            let u = in_uuids[j];
            let mut w0 = u64_to_le_bytes(u.data64[0]);
            let mut w1 = u64_to_le_bytes(u.data64[1]);
            out.append(&mut w0);
            out.append(&mut w1);
            proof {
                assert(out@ =~= out_before + block);
            }
        } else {
            let mut z: usize = 0;
            while z < 16
                invariant
                    z <= 16,
                    out@ == out_before + Seq::<u8>::new(z as nat, |t: int| 0u8),
                decreases 16 - z,
            {
                out.push(0);
                assert(out@ =~= out_before + Seq::<u8>::new((z + 1) as nat, |t: int| 0u8));
                z += 1;
            }
            proof {
                assert(out@ =~= out_before + block);
            }
        }
        proof {
            lemma_lookup_uuid_len(in_phones@, in_uuids@, q);
            lemma_lookup_results_concat(
                in_phones@,
                in_uuids@,
                query_phones@.take(i + 1 as int),
                i as int,
            );
            assert(query_phones@.take(i + 1 as int).take(i as int) =~= query_phones@.take(i as int));
            let single = query_phones@.take(i + 1 as int).skip(i as int);
            assert(single.len() == 1);
            assert(single[0] == query_phones@[i as int]);
            assert forall|b: int| 0 <= b < 16 implies lookup_results(in_phones@, in_uuids@, single)[b]
                == block[b] by {
                lemma_fundamental_div_mod_converse(b, 16, 0, b);
            }
            assert(lookup_results(in_phones@, in_uuids@, single) =~= block);
            assert(out@ =~= lookup_results(in_phones@, in_uuids@, query_phones@.take(i + 1 as int)));
        }
        i += 1;
    }
    proof {
        assert(query_phones@.take(qn as int) =~= query_phones@);
    }
    out
}

/// The total phone count of a batch of pending requests.
pub open spec fn total_pending(requests: Seq<PendingRequest>) -> int
    decreases requests.len(),
{
    if requests.len() == 0 {
        0
    } else {
        requests[0].request_phone_count + total_pending(requests.skip(1))
    }
}

proof fn lemma_total_pending_nonneg(requests: Seq<PendingRequest>)
    ensures
        total_pending(requests) >= 0,
    decreases requests.len(),
{
    if requests.len() > 0 {
        lemma_total_pending_nonneg(requests.skip(1));
    }
}

proof fn lemma_total_pending_snoc(requests: Seq<PendingRequest>, r: PendingRequest)
    ensures
        total_pending(requests.push(r)) == total_pending(requests) + r.request_phone_count,
    decreases requests.len(),
{
    if requests.len() == 0 {
        assert(requests.push(r)[0] == r);
        assert(requests.push(r).skip(1) =~= Seq::<PendingRequest>::empty());
        assert(total_pending(Seq::<PendingRequest>::empty()) == 0);
    } else {
        assert(requests.push(r)[0] == requests[0]);
        assert(requests.push(r).skip(1) =~= requests.skip(1).push(r));
        lemma_total_pending_snoc(requests.skip(1), r);
    }
}

/// A batch's total splits at any point into the prefix's and the suffix's.
proof fn lemma_total_pending_split(requests: Seq<PendingRequest>, k: int)
    requires
        0 <= k <= requests.len(),
    ensures
        total_pending(requests) == total_pending(requests.take(k)) + total_pending(
            requests.skip(k),
        ),
    decreases k,
{
    if k == 0 {
        assert(requests.take(0) =~= Seq::<PendingRequest>::empty());
        assert(requests.skip(0) =~= requests);
    } else {
        lemma_total_pending_split(requests, k - 1);
        lemma_total_pending_snoc(requests.take(k - 1), requests[k - 1]);
        assert(requests.take(k - 1).push(requests[k - 1]) =~= requests.take(k));
        assert(requests.skip(k - 1)[0] == requests[k - 1]);
        assert(requests.skip(k - 1).skip(1) =~= requests.skip(k));
    }
}

/// Whether a call's phone count fits the accumulator's remaining capacity.
pub open spec fn request_count_ok(server: SgxsdServerState, count: u32) -> bool {
    &&& count != 0
    &&& count <= server.query_phones.spec_capacity() - server.query_phones@.len()
}

/// Whether a call's sizes line up: a full AES key, a query buffer of the
/// commitment nonce plus exactly the declared phones, within the single-
/// message crypto limit.
pub open spec fn request_sizes_ok(args: CallArgs, request_data: Seq<u8>) -> bool {
    &&& request_data.len() == 32
    &&& args.query.data@.len() >= 32
    &&& args.query.data@.len() <= 0xffff_ffff
    &&& (args.query.data@.len() - 32) % 8 == 0
    &&& (args.query.data@.len() - 32) / 8 == args.query_phone_count as int
}

/// Whether the query authenticates under the per-request key.
pub open spec fn request_mac_ok(args: CallArgs, request_data: Seq<u8>) -> bool {
    args.query.mac@ == gcm_tag(request_data, args.query.iv@, args.query.data@)
}

/// The decrypted query buffer, commitment nonce included.
pub open spec fn request_plaintext(args: CallArgs, request_data: Seq<u8>) -> Seq<u8> {
    gcm_pt(request_data, args.query.iv@, args.query.data@)
}

/// Whether the commitment is the SHA-256 of the whole decrypted buffer,
/// its leading nonce included.
pub open spec fn request_commit_ok(args: CallArgs, request_data: Seq<u8>) -> bool {
    sha256_of(request_plaintext(args, request_data)) == args.query_commitment@
}

/// Phones after canonicalisation: each non-zero phone replaced by its hash.
pub open spec fn hashed_phones(phones: Seq<u64>) -> Seq<u64> {
    phones.map_values(
        |p: u64|
            if p == 0 {
                0u64
            } else {
                phone_hash(p)
            },
    )
}

/// The per-instance aggregate: the parked callers, the phone accumulator,
/// and the rate-limit map if rate limiting is enabled.
pub struct SgxsdServerState {
    pub requests: Vec<PendingRequest>,
    pub query_phones: PhoneList,
    pub ratelimit_state_map: Option<RatelimitStateMap>,
}

impl SgxsdServerState {
    /// The parked requests account for exactly the accumulated phones, the
    /// accumulator respects its bound, and the map is well-formed.
    pub open spec fn wf(self) -> bool {
        &&& total_pending(self.requests@) == self.query_phones@.len()
        &&& self.query_phones.wf()
        &&& (self.ratelimit_state_map matches Some(m) ==> m.wf())
    }

    /// Constructs an instance: an empty accumulator of the given bound, and,
    /// if any rate-limit states are allowed, a rate-limit map. The map is the
    /// instance's own; an embedding program that runs several instances keeps
    /// one process-wide map and moves it in and out around each call with
    /// `install_ratelimit_state_map` and `take_ratelimit_state_map`, which is
    /// how per-client cells are shared across instances.
    pub fn init(args: Option<&StartArgs>) -> (r: Result<SgxsdServerState, SgxStatus>)
        ensures
            r is Err <==> args is None,
            r is Err ==> r == Err::<SgxsdServerState, SgxStatus>(SgxStatus::InvalidParameter),
            r matches Ok(s) ==> args matches Some(a) && {
                &&& s.wf()
                &&& s.requests@ == Seq::<PendingRequest>::empty()
                &&& s.query_phones@ == Seq::<u64>::empty()
                &&& s.query_phones.spec_capacity() == a.max_query_phones
                &&& (s.ratelimit_state_map is Some <==> a.max_ratelimit_states != 0)
                &&& (s.ratelimit_state_map matches Some(m) ==> forall|u: u128|
                    m.cell_state(u) is None)
            },
    {
        let args = match args {
            Some(a) => a,
            None => {
                return Err(SgxStatus::InvalidParameter);
            },
        };
        let ratelimit_state_map = if args.max_ratelimit_states == 0 {
            None
        } else {
            Some(RatelimitStateMap::new(args.max_ratelimit_states))
        };
        let s = SgxsdServerState {
            requests: Vec::with_capacity(args.max_query_phones / 4),
            query_phones: PhoneList::new(args.max_query_phones),
            ratelimit_state_map,
        };
        proof {
            assert(total_pending(s.requests@) == 0);
        }
        Ok(s)
    }

    /// Checks a query buffer against its commitment: the SHA-256 of the whole
    /// buffer, leading nonce included, must equal the expected commitment.
    pub fn verify_commitment(data: &[u8], expected_commitment: &[u8; 32]) -> (r: Result<
        (),
        SgxStatus,
    >)
        ensures
            r is Ok <==> sha256_of(data@) == expected_commitment@,
            r is Err ==> r == Err::<(), SgxStatus>(SgxStatus::QueryCommitmentMismatch),
    {
        let commitment = sha256_digest(data);
        if bytes_eq(commitment.as_slice(), expected_commitment.as_slice()) {
            Ok(())
        } else {
            Err(SgxStatus::QueryCommitmentMismatch)
        }
    }

    /// Parses and authenticates one call: bounds the phone count against the
    /// accumulator, validates the sizes, decrypts the query under the
    /// per-request key, checks the commitment, and wraps the rate-limit
    /// handle if the call carries a non-zero UUID.
    pub fn decode_request(&self, args: CallArgs, request_data: &[u8]) -> (r: Result<
        Request,
        SgxStatus,
    >)
        requires
            self.wf(),
        ensures
            r == Err::<Request, SgxStatus>(SgxStatus::InvalidParameter) <==> !request_count_ok(
                *self,
                args.query_phone_count,
            ),
            r == Err::<Request, SgxStatus>(SgxStatus::InvalidRequestSize) <==> request_count_ok(
                *self,
                args.query_phone_count,
            ) && !request_sizes_ok(args, request_data@),
            r == Err::<Request, SgxStatus>(SgxStatus::MacMismatch) <==> request_count_ok(
                *self,
                args.query_phone_count,
            ) && request_sizes_ok(args, request_data@) && !request_mac_ok(args, request_data@),
            r == Err::<Request, SgxStatus>(SgxStatus::QueryCommitmentMismatch) <==> request_count_ok(
                *self,
                args.query_phone_count,
            ) && request_sizes_ok(args, request_data@) && request_mac_ok(args, request_data@)
                && !request_commit_ok(args, request_data@),
            r is Ok <==> request_count_ok(*self, args.query_phone_count) && request_sizes_ok(
                args,
                request_data@,
            ) && request_mac_ok(args, request_data@) && request_commit_ok(args, request_data@),
            r matches Ok(req) ==> {
                &&& req.phones@ == request_plaintext(args, request_data@)
                &&& req.phones@.len() == args.query.data@.len()
                &&& (req.ratelimit_state is Some <==> uuid_value(args.ratelimit_state_uuid) != 0)
                &&& (req.ratelimit_state matches Some(rs) ==> rs.uuid == args.ratelimit_state_uuid
                    && rs.data@ == args.ratelimit_state_data@)
            },
    {
        let count = args.query_phone_count;
        let cap = self.query_phones.capacity();
        let len = self.query_phones.len();
        if count == 0 || count as usize > cap - len {
            return Err(SgxStatus::InvalidParameter);
        }
        let CallArgs {
            query,
            query_commitment,
            query_phone_count: _,
            ratelimit_state_uuid,
            ratelimit_state_data,
        } = args;
        let CallQuery { data: mut query_data, iv, mac } = query;
        let qlen = query_data.len();
        if !(request_data.len() == 32 && qlen >= COMMITMENT_NONCE_SIZE && qlen <= 0xffff_ffff
            && (qlen - COMMITMENT_NONCE_SIZE) % BYTES_PER_PHONE == 0 && (qlen
            - COMMITMENT_NONCE_SIZE) / BYTES_PER_PHONE == count as usize) {
            return Err(SgxStatus::InvalidRequestSize);
        }
        match aes256_gcm_decrypt(request_data, iv.as_slice(), &mut query_data, mac.as_slice()) {
            Ok(()) => {},
            Err(_) => {
                return Err(SgxStatus::MacMismatch);
            },
        }
        match Self::verify_commitment(query_data.as_slice(), &query_commitment) {
            Ok(()) => {},
            Err(e) => {
                zeroize_bytes(&mut query_data);
                return Err(e);
            },
        }
        let uval = crate::uuid_to_u128(&ratelimit_state_uuid);
        let ratelimit_state = if uval != 0 {
            Some(RequestRatelimitState { uuid: ratelimit_state_uuid, data: ratelimit_state_data })
        } else {
            None
        };
        Ok(Request { phones: RequestPhoneList::new(query_data), ratelimit_state })
    }
}

impl SgxsdServerState {
    /// The rate-limit path of one call: canonicalises the phones, then drives
    /// the client's cell to decrypt the slab, add the hashed phones, and
    /// re-encrypt, returning the bytes to write back to the caller's slab.
    /// The accumulator and the parked queue are not touched.
    pub fn update_ratelimit_state(
        &mut self,
        query_phones: PhoneList,
        request_ratelimit_state: RequestRatelimitState,
    ) -> (r: Result<Vec<u8>, SgxStatus>)
        requires
            old(self).wf(),
            uuid_value(request_ratelimit_state.uuid) != 0,
        ensures
            final(self).wf(),
            final(self).requests@ == old(self).requests@,
            final(self).query_phones@ == old(self).query_phones@,
            final(self).query_phones.spec_capacity() == old(self).query_phones.spec_capacity(),
            (final(self).ratelimit_state_map is Some) == (old(self).ratelimit_state_map is Some),
            request_ratelimit_state.data@.len() < 16 ==> r == Err::<Vec<u8>, SgxStatus>(
                SgxStatus::InvalidRateLimitState,
            ),
            r == Err::<Vec<u8>, SgxStatus>(SgxStatus::InvalidState) <==> (
            request_ratelimit_state.data@.len() >= 16 && old(self).ratelimit_state_map is None),
            r is Err ==> (r == Err::<Vec<u8>, SgxStatus>(SgxStatus::InvalidRateLimitState) || r
                == Err::<Vec<u8>, SgxStatus>(SgxStatus::InvalidState) || r == Err::<
                Vec<u8>,
                SgxStatus,
            >(SgxStatus::RateLimitExceeded) || r == Err::<Vec<u8>, SgxStatus>(
                SgxStatus::Unexpected,
            )),
            (old(self).ratelimit_state_map is Some && final(self).ratelimit_state_map is Some)
                ==> forall|u: u128|
                u != uuid_value(request_ratelimit_state.uuid) ==> final(self).ratelimit_state_map.unwrap().cell_state(u) == old(self).ratelimit_state_map.unwrap().cell_state(u),
            r matches Ok(out) ==> old(self).ratelimit_state_map is Some && final(self).ratelimit_state_map is Some && ratelimit_update_applied(
                old(self).ratelimit_state_map.unwrap(),
                final(self).ratelimit_state_map.unwrap(),
                uuid_value(request_ratelimit_state.uuid),
                request_ratelimit_state.data@,
                out@,
                hashed_phones(query_phones@),
            ),
            // success is owed on the RNG-free path: with an installed cell
            // and a non-fresh slab, the call succeeds exactly when the slab
            // authenticates and the hashed phones stay below the limit
            old(self).ratelimit_state_map matches Some(m0) ==> (request_ratelimit_state.data@.len()
                >= 16 && !all_zero(
                request_ratelimit_state.data@.subrange(
                    0,
                    request_ratelimit_state.data@.len() - 16,
                ),
            ) ==> (m0.cell_state(uuid_value(request_ratelimit_state.uuid)) matches Some(st) ==> (
            r is Ok <==> decrypt_path_ok(
                st.key@,
                st.nonce,
                request_ratelimit_state.data@.subrange(
                    0,
                    request_ratelimit_state.data@.len() - 16,
                ),
                request_ratelimit_state.data@.subrange(
                    request_ratelimit_state.data@.len() - 16,
                    request_ratelimit_state.data@.len() as int,
                ),
                hashed_phones(query_phones@),
            )))),
            // on a fresh (all-zero) slab only the RNG and the drawn limit
            // decide
            old(self).ratelimit_state_map matches Some(m0) ==> ((request_ratelimit_state.data@.len()
                >= 20 && request_ratelimit_state.data@.len() - 16 <= 0xffff_ffff && all_zero(
                request_ratelimit_state.data@.subrange(
                    0,
                    request_ratelimit_state.data@.len() - 16,
                ),
            ) && (m0.cell_state(uuid_value(request_ratelimit_state.uuid)) matches Some(st)
                ==> st.nonce < u32::MAX)) ==> (r is Ok || r == Err::<Vec<u8>, SgxStatus>(
                SgxStatus::Unexpected,
            ) || r == Err::<Vec<u8>, SgxStatus>(SgxStatus::RateLimitExceeded))),
    {
        let mut phones = query_phones;
        let RequestRatelimitState { uuid, data } = request_ratelimit_state;
        let mut slab = data;
        if slab.len() < 16 {
            phones.zeroize();
            return Err(SgxStatus::InvalidRateLimitState);
        }
        let map = match &mut self.ratelimit_state_map {
            Some(m) => m,
            None => {
                phones.zeroize();
                return Err(SgxStatus::InvalidState);
            },
        };
        phones.hash_all();
        let res = update_ratelimit_state(map, uuid, &mut slab, phones.as_slice());
        phones.zeroize();
        match res {
            Ok(()) => Ok(slab),
            Err(e) => Err(e),
        }
    }

    /// One call: decodes and authenticates the request, then either serves
    /// the rate-limit path synchronously or appends the phones to the batch
    /// and parks the caller. On any error the accumulator and the queue are
    /// untouched, and the error is handed back with the caller's own handle.
    pub fn handle_call(&mut self, args: CallArgs, request_data: &[u8], from: MsgFrom) -> (r: Result<
        CallOutcome,
        (SgxStatus, MsgFrom),
    >)
        requires
            old(self).wf(),
        ensures
            final(self).wf(),
            final(self).query_phones.spec_capacity() == old(self).query_phones.spec_capacity(),
            (final(self).ratelimit_state_map is Some) == (old(self).ratelimit_state_map is Some),
            r matches Err(ef) ==> ef.1 == from && final(self).query_phones@ == old(self).query_phones@ && final(self).requests@ == old(self).requests@,
            r == Err::<CallOutcome, (SgxStatus, MsgFrom)>((SgxStatus::InvalidParameter, from))
                <==> !request_count_ok(*old(self), args.query_phone_count),
            r == Err::<CallOutcome, (SgxStatus, MsgFrom)>((SgxStatus::InvalidRequestSize, from))
                <==> request_count_ok(*old(self), args.query_phone_count) && !request_sizes_ok(
                args,
                request_data@,
            ),
            r == Err::<CallOutcome, (SgxStatus, MsgFrom)>((SgxStatus::MacMismatch, from))
                <==> request_count_ok(*old(self), args.query_phone_count) && request_sizes_ok(
                args,
                request_data@,
            ) && !request_mac_ok(args, request_data@),
            r == Err::<CallOutcome, (SgxStatus, MsgFrom)>(
                (SgxStatus::QueryCommitmentMismatch, from),
            ) <==> request_count_ok(*old(self), args.query_phone_count) && request_sizes_ok(
                args,
                request_data@,
            ) && request_mac_ok(args, request_data@) && !request_commit_ok(args, request_data@),
            r == Ok::<CallOutcome, (SgxStatus, MsgFrom)>(CallOutcome::Parked) <==> (
            request_count_ok(*old(self), args.query_phone_count) && request_sizes_ok(
                args,
                request_data@,
            ) && request_mac_ok(args, request_data@) && request_commit_ok(args, request_data@)
                && uuid_value(args.ratelimit_state_uuid) == 0),
            r == Ok::<CallOutcome, (SgxStatus, MsgFrom)>(CallOutcome::Parked) ==> final(self).query_phones@ == old(self).query_phones@ + phones_of(
                request_plaintext(args, request_data@),
            ) && final(self).requests@ == old(self).requests@.push(
                PendingRequest { from, request_phone_count: args.query_phone_count },
            ),
            r matches Ok(CallOutcome::RatelimitUpdated { from: f, ratelimit_state_data: slab })
                ==> {
                &&& f == from
                &&& uuid_value(args.ratelimit_state_uuid) != 0
                &&& final(self).query_phones@ == old(self).query_phones@
                &&& final(self).requests@ == old(self).requests@
                &&& old(self).ratelimit_state_map is Some
                &&& final(self).ratelimit_state_map is Some
                &&& ratelimit_update_applied(
                    old(self).ratelimit_state_map.unwrap(),
                    final(self).ratelimit_state_map.unwrap(),
                    uuid_value(args.ratelimit_state_uuid),
                    args.ratelimit_state_data@,
                    slab@,
                    hashed_phones(phones_of(request_plaintext(args, request_data@))),
                )
            },
            // success is owed on the RNG-free rate-limit path: a decodable
            // call against an installed cell and a non-fresh slab succeeds
            // exactly when the slab authenticates and the hashed phones stay
            // below the limit
            request_count_ok(*old(self), args.query_phone_count) && request_sizes_ok(
                args,
                request_data@,
            ) && request_mac_ok(args, request_data@) && request_commit_ok(args, request_data@)
                && uuid_value(args.ratelimit_state_uuid) != 0 && args.ratelimit_state_data@.len()
                >= 16 && !all_zero(
                args.ratelimit_state_data@.subrange(0, args.ratelimit_state_data@.len() - 16),
            ) ==> (old(self).ratelimit_state_map matches Some(m0) ==> (m0.cell_state(
                uuid_value(args.ratelimit_state_uuid),
            ) matches Some(st) ==> (r is Ok <==> decrypt_path_ok(
                st.key@,
                st.nonce,
                args.ratelimit_state_data@.subrange(0, args.ratelimit_state_data@.len() - 16),
                args.ratelimit_state_data@.subrange(
                    args.ratelimit_state_data@.len() - 16,
                    args.ratelimit_state_data@.len() as int,
                ),
                hashed_phones(phones_of(request_plaintext(args, request_data@))),
            )))),
    {
        let count = args.query_phone_count;
        let ghost args0 = args;
        let request = match self.decode_request(args, request_data) {
            Ok(req) => req,
            Err(e) => {
                return Err((e, from));
            },
        };
        match request.ratelimit_state {
            Some(rs) => {
                let phone_vec = request.phones.phones();
                let mut req_phones = request.phones;
                req_phones.zeroize();
                let mut list = PhoneList::new(phone_vec.len());
                list.extend_from(phone_vec.as_slice());
                let mut spent_phones = phone_vec;
                zeroize_words(&mut spent_phones);
                proof {
                    assert(list@ =~= phones_of(request_plaintext(args0, request_data@)));
                }
                match self.update_ratelimit_state(list, rs) {
                    Ok(out) => Ok(
                        CallOutcome::RatelimitUpdated { from, ratelimit_state_data: out },
                    ),
                    Err(e) => Err((e, from)),
                }
            },
            None => {
                let phone_vec = request.phones.phones();
                let mut req_phones = request.phones;
                req_phones.zeroize();
                proof {
                    lemma_total_pending_snoc(
                        self.requests@,
                        PendingRequest { from, request_phone_count: count },
                    );
                    lemma_fundamental_div_mod(
                        (request_plaintext(args0, request_data@).len() - 32) as int,
                        8,
                    );
                }
                self.query_phones.extend_from(phone_vec.as_slice());
                self.requests.push(PendingRequest { from, request_phone_count: count });
                let mut spent_phones = phone_vec;
                zeroize_words(&mut spent_phones);
                Ok(CallOutcome::Parked)
            },
        }
    }

    /// Termination: validates the directory sizes, runs the bulk lookup over
    /// the accumulated phones in bounded chunks, and splits the result back
    /// into one reply per parked caller, in arrival order — each reply
    /// carrying 16 bytes per phone that request contributed.
    pub fn terminate(self, args: Option<&StopArgs>) -> (r: Result<Vec<Reply>, SgxStatus>)
        requires
            self.wf(),
        ensures
            r is Err ==> r == Err::<Vec<Reply>, SgxStatus>(SgxStatus::InvalidParameter),
            r is Err <==> (args is None || {
                let a = *args.unwrap();
                ||| a.in_phone_count * 8 > usize::MAX
                ||| a.in_phone_count * 16 > usize::MAX
                ||| a.in_phones@.len() != a.in_phone_count
                ||| a.in_uuids@.len() != a.in_phone_count
                ||| self.query_phones@.len() * 16 > usize::MAX
            }),
            r matches Ok(replies) ==> args matches Some(a) && {
                let results = lookup_results(a.in_phones@, a.in_uuids@, self.query_phones@);
                &&& replies@.len() == self.requests@.len()
                &&& forall|t: int|
                    0 <= t < replies@.len() ==> (#[trigger] replies@[t]).from
                        == self.requests@[t].from && replies@[t].data@ == results.subrange(
                        16 * total_pending(self.requests@.take(t)),
                        16 * total_pending(self.requests@.take(t + 1)),
                    ) && replies@[t].data@.len() == 16 * self.requests@[t].request_phone_count
            },
    {
        let SgxsdServerState { requests, mut query_phones, ratelimit_state_map: _ } = self;
        let args = match args {
            Some(a) => a,
            None => {
                query_phones.zeroize();
                return Err(SgxStatus::InvalidParameter);
            },
        };
        let count = args.in_phone_count;
        match count.checked_mul(BYTES_PER_PHONE) {
            Some(_) => {},
            None => {
                query_phones.zeroize();
                return Err(SgxStatus::InvalidParameter);
            },
        }
        match count.checked_mul(BYTES_PER_UUID) {
            Some(_) => {},
            None => {
                query_phones.zeroize();
                return Err(SgxStatus::InvalidParameter);
            },
        }
        if args.in_phones.len() != count || args.in_uuids.len() != count {
            query_phones.zeroize();
            return Err(SgxStatus::InvalidParameter);
        }
        let qlen = query_phones.len();
        match qlen.checked_mul(BYTES_PER_UUID) {
            Some(_) => {},
            None => {
                query_phones.zeroize();
                return Err(SgxStatus::InvalidParameter);
            },
        }
        let mut results: Vec<u8> = Vec::new();
        let mut done: usize = 0;
        while done < qlen
            invariant
                done <= qlen,
                qlen == query_phones@.len(),
                16 * qlen <= usize::MAX,
                args.in_phones@.len() == args.in_uuids@.len(),
                results@ == lookup_results(
                    args.in_phones@,
                    args.in_uuids@,
                    query_phones@.take(done as int),
                ),
            decreases qlen - done,
        {
            let chunk_end = if qlen - done < MAX_HASH_TABLE_SIZE {
                qlen
            } else {
                done + MAX_HASH_TABLE_SIZE
            };
            let chunk = slice_subrange(query_phones.as_slice(), done, chunk_end);
            let mut part = hash_lookup(args.in_phones.as_slice(), args.in_uuids.as_slice(), chunk);
            let ghost results_before = results@;
            results.append(&mut part);
            proof {
                lemma_lookup_results_concat(
                    args.in_phones@,
                    args.in_uuids@,
                    query_phones@.take(chunk_end as int),
                    done as int,
                );
                assert(query_phones@.take(chunk_end as int).take(done as int) =~= query_phones@.take(
                    done as int,
                ));
                assert(query_phones@.take(chunk_end as int).skip(done as int) =~= chunk@);
            }
            done = chunk_end;
        }
        proof {
            assert(query_phones@.take(qlen as int) =~= query_phones@);
        }
        let ghost all_phones = query_phones@;
        query_phones.zeroize();
        let rn = requests.len();
        let mut replies: Vec<Reply> = Vec::new();
        let mut offset: usize = 0;
        let mut k: usize = 0;
        proof {
            assert(requests@.take(0) =~= Seq::<PendingRequest>::empty());
        }
        while k < rn
            invariant
                k <= rn,
                rn == requests@.len(),
                total_pending(requests@) == qlen,
                16 * qlen <= usize::MAX,
                results@.len() == 16 * qlen,
                offset == total_pending(requests@.take(k as int)),
                0 <= offset <= qlen,
                replies@.len() == k,
                forall|t: int|
                    0 <= t < k ==> (#[trigger] replies@[t]).from == requests@[t].from
                        && replies@[t].data@ == results@.subrange(
                        16 * total_pending(requests@.take(t)),
                        16 * total_pending(requests@.take(t + 1)),
                    ) && replies@[t].data@.len() == 16 * requests@[t].request_phone_count,
            decreases rn - k,
        {
            let req = requests[k];
            let cnt = req.request_phone_count as usize;
            proof {
                lemma_total_pending_split(requests@, k as int);
                lemma_total_pending_snoc(requests@.take(k as int), requests@[k as int]);
                assert(requests@.take(k as int).push(requests@[k as int]) =~= requests@.take(
                    k + 1 as int,
                ));
                lemma_total_pending_split(requests@, k + 1 as int);
                lemma_total_pending_nonneg(requests@.skip(k + 1 as int));
                assert(offset + cnt <= qlen);
            }
            let start: usize = 16 * offset;
            let end: usize = start + 16 * cnt;
            let mut data: Vec<u8> = Vec::new();
            data.extend_from_slice(slice_subrange(results.as_slice(), start, end));
            replies.push(Reply { from: req.from, data });
            offset = offset + cnt;
            k += 1;
        }
        zeroize_bytes(&mut results);
        Ok(replies)
    }

    /// Installs the rate-limit map this instance should use — in a process
    /// with several instances, the shared process-wide map, handed in by the
    /// embedding program around each call.
    pub fn install_ratelimit_state_map(&mut self, map: RatelimitStateMap)
        requires
            old(self).wf(),
            map.wf(),
        ensures
            final(self).wf(),
            final(self).requests@ == old(self).requests@,
            final(self).query_phones@ == old(self).query_phones@,
            final(self).query_phones.spec_capacity() == old(self).query_phones.spec_capacity(),
            final(self).ratelimit_state_map == Some(map),
    {
        self.ratelimit_state_map = Some(map);
    }

    /// Takes the instance's rate-limit map out, disabling the rate-limit path
    /// until another map is installed; the embedding program uses this to
    /// hand the shared map back after a call.
    pub fn take_ratelimit_state_map(&mut self) -> (r: Option<RatelimitStateMap>)
        requires
            old(self).wf(),
        ensures
            final(self).wf(),
            final(self).requests@ == old(self).requests@,
            final(self).query_phones@ == old(self).query_phones@,
            final(self).query_phones.spec_capacity() == old(self).query_phones.spec_capacity(),
            r == old(self).ratelimit_state_map,
            final(self).ratelimit_state_map is None,
    {
        self.ratelimit_state_map.take()
    }
}

} // verus!
