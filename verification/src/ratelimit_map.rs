//! The per-UUID map of rate-limit cells, and the management entry points.
//!
//! Entries are created lazily on first access and hold `None` until the first
//! update installs a fresh cell; deletion clears a cell back to `None` but
//! keeps the entry. In a process one map is shared by every server instance
//! and a cell's updates are serialised by its own lock; here the map is
//! reached through exclusive references, which subsumes that discipline, and
//! the embedding program supplies the sharing.

use crate::ratelimit_state::all_zero;
use crate::ratelimit_state::decrypt_auth_ok;
use crate::ratelimit_state::decrypt_path_ok;
use crate::ratelimit_state::update_ok;
use crate::ratelimit_state::RatelimitState;
use crate::uuid_value;
use crate::SgxStatus;
use crate::Uuid;
use vstd::prelude::*;
use vstd::slice::slice_subrange;

verus! {

/// One per-client entry: the UUID key and the optional in-enclave cell.
pub struct RatelimitCell {
    pub uuid: u128,
    pub state: Option<RatelimitState>,
}

/// The index of the first cell keyed by `uuid`, or `cells.len()` if none is.
pub open spec fn spec_index_of(cells: Seq<RatelimitCell>, uuid: u128) -> int
    decreases cells.len(),
{
    if cells.len() == 0 {
        0
    } else if cells[0].uuid == uuid {
        0
    } else {
        1 + spec_index_of(cells.skip(1), uuid)
    }
}

proof fn lemma_index_of_bounds(cells: Seq<RatelimitCell>, uuid: u128)
    ensures
        0 <= spec_index_of(cells, uuid) <= cells.len(),
        forall|j: int| 0 <= j < spec_index_of(cells, uuid) ==> cells[j].uuid != uuid,
        spec_index_of(cells, uuid) < cells.len() ==> cells[spec_index_of(cells, uuid)].uuid
            == uuid,
    decreases cells.len(),
{
    if cells.len() > 0 && cells[0].uuid != uuid {
        lemma_index_of_bounds(cells.skip(1), uuid);
        assert forall|j: int| 0 <= j < spec_index_of(cells, uuid) implies cells[j].uuid != uuid by {
            if j > 0 {
                assert(cells.skip(1)[j - 1] == cells[j]);
            }
        }
        if spec_index_of(cells, uuid) < cells.len() {
            assert(cells.skip(1)[spec_index_of(cells, uuid) - 1] == cells[spec_index_of(
                cells,
                uuid,
            )]);
        }
    }
}

proof fn lemma_index_of_same_uuids(c1: Seq<RatelimitCell>, c2: Seq<RatelimitCell>, uuid: u128)
    requires
        c1.len() == c2.len(),
        forall|i: int| 0 <= i < c1.len() ==> c1[i].uuid == c2[i].uuid,
    ensures
        spec_index_of(c1, uuid) == spec_index_of(c2, uuid),
    decreases c1.len(),
{
    if c1.len() > 0 {
        assert(c1[0].uuid == c2[0].uuid);
        if c1[0].uuid != uuid {
            assert forall|i: int| 0 <= i < c1.skip(1).len() implies c1.skip(1)[i].uuid == c2.skip(
                1,
            )[i].uuid by {
                assert(c1.skip(1)[i] == c1[i + 1]);
                assert(c2.skip(1)[i] == c2[i + 1]);
            }
            lemma_index_of_same_uuids(c1.skip(1), c2.skip(1), uuid);
        }
    }
}

/// Mapping from client UUID to rate-limit cell.
pub struct RatelimitStateMap {
    cells: Vec<RatelimitCell>,
}

impl RatelimitStateMap {
    /// Well-formed: keys are unique and non-zero, and every installed cell is
    /// itself well-formed.
    pub closed spec fn wf(self) -> bool {
        &&& forall|i: int, j: int|
            0 <= i < j < self.cells@.len() ==> self.cells@[i].uuid != self.cells@[j].uuid
        &&& forall|i: int| 0 <= i < self.cells@.len() ==> self.cells@[i].uuid != 0
        &&& forall|i: int|
            #![trigger self.cells@[i]]
            0 <= i < self.cells@.len() ==> (self.cells@[i].state matches Some(st) ==> st.wf())
    }

    /// The cell contents recorded for a UUID; a UUID without an entry behaves
    /// as an entry holding `None`.
    pub closed spec fn cell_state(self, uuid: u128) -> Option<RatelimitState> {
        if spec_index_of(self.cells@, uuid) < self.cells@.len() {
            self.cells@[spec_index_of(self.cells@, uuid)].state
        } else {
            None
        }
    }

    /// An empty map. The capacity is a sizing hint: entries are created only
    /// when a UUID is first touched.
    pub fn new(capacity: usize) -> (r: Self)
        ensures
            r.wf(),
            forall|u: u128| r.cell_state(u) is None,
    {
        let r = RatelimitStateMap { cells: Vec::with_capacity(capacity) };
        proof {
            assert forall|u: u128| r.cell_state(u) is None by {
                lemma_index_of_bounds(r.cells@, u);
            }
        }
        r
    }

    /// Finds the entry for a UUID, creating one holding `None` if there is
    /// none yet, and returns its index.
    fn get_or_insert_cell(&mut self, uuid: u128) -> (idx: usize)
        requires
            old(self).wf(),
            uuid != 0,
        ensures
            final(self).wf(),
            idx < final(self).cells@.len(),
            idx == spec_index_of(final(self).cells@, uuid),
            final(self).cells@[idx as int].uuid == uuid,
            final(self).cells@[idx as int].state == old(self).cell_state(uuid),
            forall|u: u128| u != uuid ==> final(self).cell_state(u) == old(self).cell_state(u),
    {
        let n = self.cells.len();
        proof {
            lemma_index_of_bounds(self.cells@, uuid);
        }
        let mut i: usize = 0;
        while i < n
            invariant
                i <= n,
                n == self.cells@.len(),
                self == old(self),
                self.wf(),
                forall|j: int| 0 <= j < i ==> self.cells@[j].uuid != uuid,
            decreases n - i,
        {
            if self.cells[i].uuid == uuid {
                proof {
                    lemma_index_of_bounds(self.cells@, uuid);
                }
                return i;
            }
            i += 1;
        }
        proof {
            lemma_index_of_bounds(self.cells@, uuid);
            assert(spec_index_of(self.cells@, uuid) == n);
        }
        let ghost before = self.cells@;
        self.cells.push(RatelimitCell { uuid, state: None });
        proof {
            assert forall|u: u128| u != uuid implies self.cell_state(u) == old(self).cell_state(
                u,
            ) by {
                lemma_index_of_bounds(before, u);
                lemma_index_of_bounds(self.cells@, u);
                if spec_index_of(before, u) < before.len() {
                    lemma_index_of_prefix(before, self.cells@, u);
                } else {
                    if spec_index_of(self.cells@, u) < self.cells@.len() {
                        lemma_index_of_absent_push(before, self.cells@, u);
                    }
                }
            }
            lemma_index_of_bounds(self.cells@, uuid);
            lemma_index_of_prefix_holds(before, self.cells@, uuid);
        }
        n
    }
}

proof fn lemma_index_of_prefix(c1: Seq<RatelimitCell>, c2: Seq<RatelimitCell>, uuid: u128)
    requires
        c1.len() <= c2.len(),
        forall|i: int| 0 <= i < c1.len() ==> c1[i] == c2[i],
        spec_index_of(c1, uuid) < c1.len(),
    ensures
        spec_index_of(c2, uuid) == spec_index_of(c1, uuid),
    decreases c1.len(),
{
    if c1.len() > 0 {
        assert(c1[0] == c2[0]);
        if c1[0].uuid != uuid {
            assert forall|i: int| 0 <= i < c1.skip(1).len() implies c1.skip(1)[i] == c2.skip(
                1,
            )[i] by {
                assert(c1.skip(1)[i] == c1[i + 1]);
                assert(c2.skip(1)[i] == c2[i + 1]);
            }
            lemma_index_of_prefix(c1.skip(1), c2.skip(1), uuid);
        }
    }
}

proof fn lemma_index_of_absent_push(c1: Seq<RatelimitCell>, c2: Seq<RatelimitCell>, uuid: u128)
    requires
        c2.len() == c1.len() + 1,
        forall|i: int| 0 <= i < c1.len() ==> c1[i] == c2[i],
        spec_index_of(c1, uuid) == c1.len(),
        c2[c1.len() as int].uuid != uuid,
    ensures
        spec_index_of(c2, uuid) == c2.len(),
    decreases c1.len(),
{
    if c1.len() == 0 {
        assert(c2.len() == 1);
        assert(c2[0].uuid != uuid);
        assert(c2.skip(1) =~= Seq::<RatelimitCell>::empty());
        assert(spec_index_of(Seq::<RatelimitCell>::empty(), uuid) == 0);
    } else {
        assert(c1[0] == c2[0]);
        assert(c1[0].uuid != uuid) by {
            lemma_index_of_bounds(c1, uuid);
        }
        assert forall|i: int| 0 <= i < c1.skip(1).len() implies c1.skip(1)[i] == c2.skip(1)[i] by {
            assert(c1.skip(1)[i] == c1[i + 1]);
            assert(c2.skip(1)[i] == c2[i + 1]);
        }
        assert(c2.skip(1)[c1.skip(1).len() as int] == c2[c1.len() as int]);
        lemma_index_of_absent_push(c1.skip(1), c2.skip(1), uuid);
    }
}

proof fn lemma_index_of_prefix_holds(c1: Seq<RatelimitCell>, c2: Seq<RatelimitCell>, uuid: u128)
    requires
        c2.len() == c1.len() + 1,
        forall|i: int| 0 <= i < c1.len() ==> c1[i] == c2[i],
        spec_index_of(c1, uuid) == c1.len(),
        c2[c1.len() as int].uuid == uuid,
    ensures
        spec_index_of(c2, uuid) == c1.len(),
    decreases c1.len(),
{
    if c1.len() == 0 {
        assert(c2[0].uuid == uuid);
    } else {
        assert(c1[0] == c2[0]);
        assert(c1[0].uuid != uuid) by {
            lemma_index_of_bounds(c1, uuid);
        }
        assert forall|i: int| 0 <= i < c1.skip(1).len() implies c1.skip(1)[i] == c2.skip(1)[i] by {
            assert(c1.skip(1)[i] == c1[i + 1]);
            assert(c2.skip(1)[i] == c2[i + 1]);
        }
        assert(c2.skip(1)[c1.skip(1).len() as int] == c2[c1.len() as int]);
        lemma_index_of_prefix_holds(c1.skip(1), c2.skip(1), uuid);
    }
}

/// The full effect of one successful rate-limit update on the map and the
/// encrypted slab: the client's cell advances by one nonce (a fresh cell,
/// nonce 1, is installed if the entry held none) and the slab's ciphertext
/// and trailing 16-byte MAC are replaced by those of the updated plaintext.
pub open spec fn ratelimit_update_applied(
    m0: RatelimitStateMap,
    m1: RatelimitStateMap,
    uval: u128,
    slab0: Seq<u8>,
    slab1: Seq<u8>,
    phones: Seq<u64>,
) -> bool {
    &&& slab1.len() == slab0.len()
    &&& slab0.len() >= 16
    &&& exists|st_prev: RatelimitState, st_new: RatelimitState|
        #![trigger st_prev.wf(), st_new.wf()]
        {
            &&& st_prev.wf()
            &&& (m0.cell_state(uval) matches Some(s) ==> st_prev == s)
            &&& (m0.cell_state(uval) is None ==> st_prev.nonce == 1)
            &&& m1.cell_state(uval) == Some(st_new)
            &&& update_ok(
                st_prev,
                st_new,
                slab0.subrange(0, slab0.len() - 16),
                slab0.subrange(slab0.len() - 16, slab0.len() as int),
                phones,
                slab1.subrange(0, slab0.len() - 16),
                slab1.subrange(slab0.len() - 16, slab0.len() as int),
            )
        }
}

/// Updates one client's encrypted rate-limit state in place: looks the cell
/// up (installing a fresh one on first touch), splits the slab into
/// ciphertext and 16-byte MAC, drives the cell's update, and writes the new
/// ciphertext and MAC back. The phones are inserted verbatim, without
/// re-hashing. Fails on a zero UUID, a slab shorter than the MAC, a MAC or
/// size failure, or the rate limit; on failure the slab is untouched.
pub fn update_ratelimit_state(
    map: &mut RatelimitStateMap,
    ratelimit_state_uuid: Uuid,
    encrypted_ratelimit_state: &mut Vec<u8>,
    query_phones: &[u64],
) -> (r: Result<(), SgxStatus>)
    requires
        old(map).wf(),
    ensures
        final(map).wf(),
        r is Err ==> final(encrypted_ratelimit_state)@ == old(encrypted_ratelimit_state)@,
        uuid_value(ratelimit_state_uuid) == 0 <==> r == Err::<(), SgxStatus>(
            SgxStatus::InvalidParameter,
        ),
        uuid_value(ratelimit_state_uuid) == 0 ==> *final(map) == *old(map),
        uuid_value(ratelimit_state_uuid) != 0 && old(encrypted_ratelimit_state)@.len() < 16 ==> r
            == Err::<(), SgxStatus>(SgxStatus::InvalidRateLimitState) && *final(map) == *old(map),
        forall|u: u128|
            u != uuid_value(ratelimit_state_uuid) ==> final(map).cell_state(u) == old(map).cell_state(u),
        r is Ok ==> final(encrypted_ratelimit_state)@.len() == old(
            encrypted_ratelimit_state,
        )@.len() >= 16,
        r is Ok ==> ratelimit_update_applied(
            *old(map),
            *final(map),
            uuid_value(ratelimit_state_uuid),
            old(encrypted_ratelimit_state)@,
            final(encrypted_ratelimit_state)@,
            query_phones@,
        ),
        r is Err ==> (r == Err::<(), SgxStatus>(SgxStatus::InvalidParameter) || r == Err::<
            (),
            SgxStatus,
        >(SgxStatus::InvalidRateLimitState) || r == Err::<(), SgxStatus>(
            SgxStatus::RateLimitExceeded,
        ) || r == Err::<(), SgxStatus>(SgxStatus::Unexpected)),
        // success is owed on the RNG-free path: an installed cell and a
        // non-fresh slab succeed exactly when the slab authenticates under
        // the cell's nonce and the added phones stay below the limit
        uuid_value(ratelimit_state_uuid) != 0 && old(encrypted_ratelimit_state)@.len() >= 16
            && !all_zero(
            old(encrypted_ratelimit_state)@.subrange(
                0,
                old(encrypted_ratelimit_state)@.len() - 16,
            ),
        ) ==> (old(map).cell_state(uuid_value(ratelimit_state_uuid)) matches Some(st) ==> (r is Ok
            <==> decrypt_path_ok(
            st.key@,
            st.nonce,
            old(encrypted_ratelimit_state)@.subrange(
                0,
                old(encrypted_ratelimit_state)@.len() - 16,
            ),
            old(encrypted_ratelimit_state)@.subrange(
                old(encrypted_ratelimit_state)@.len() - 16,
                old(encrypted_ratelimit_state)@.len() as int,
            ),
            query_phones@,
        ))),
        uuid_value(ratelimit_state_uuid) != 0 && old(encrypted_ratelimit_state)@.len() >= 16
            && !all_zero(
            old(encrypted_ratelimit_state)@.subrange(
                0,
                old(encrypted_ratelimit_state)@.len() - 16,
            ),
        ) ==> (old(map).cell_state(uuid_value(ratelimit_state_uuid)) matches Some(st) ==> (r
            == Err::<(), SgxStatus>(SgxStatus::RateLimitExceeded) <==> (decrypt_auth_ok(
            st.key@,
            st.nonce,
            old(encrypted_ratelimit_state)@.subrange(
                0,
                old(encrypted_ratelimit_state)@.len() - 16,
            ),
            old(encrypted_ratelimit_state)@.subrange(
                old(encrypted_ratelimit_state)@.len() - 16,
                old(encrypted_ratelimit_state)@.len() as int,
            ),
        ) && !decrypt_path_ok(
            st.key@,
            st.nonce,
            old(encrypted_ratelimit_state)@.subrange(
                0,
                old(encrypted_ratelimit_state)@.len() - 16,
            ),
            old(encrypted_ratelimit_state)@.subrange(
                old(encrypted_ratelimit_state)@.len() - 16,
                old(encrypted_ratelimit_state)@.len() as int,
            ),
            query_phones@,
        )))),
        // on a fresh (all-zero) slab only the RNG and the drawn limit decide
        uuid_value(ratelimit_state_uuid) != 0 && old(encrypted_ratelimit_state)@.len() >= 20
            && old(encrypted_ratelimit_state)@.len() - 16 <= 0xffff_ffff && all_zero(
            old(encrypted_ratelimit_state)@.subrange(
                0,
                old(encrypted_ratelimit_state)@.len() - 16,
            ),
        ) && (old(map).cell_state(uuid_value(ratelimit_state_uuid)) matches Some(st) ==> st.nonce
            < u32::MAX) ==> (r is Ok || r == Err::<(), SgxStatus>(SgxStatus::Unexpected) || r
            == Err::<(), SgxStatus>(SgxStatus::RateLimitExceeded)),
        // the rate-limit error leaves the cell's nonce advanced, so the
        // revealed-IV sequence cannot be replayed even across this failure
        r == Err::<(), SgxStatus>(SgxStatus::RateLimitExceeded) ==> (final(map).cell_state(
            uuid_value(ratelimit_state_uuid),
        ) matches Some(stn) && stn.wf() && (old(map).cell_state(uuid_value(ratelimit_state_uuid))
            matches Some(st) ==> stn.nonce == st.nonce + 1 && stn.key@ == st.key@) && (old(map).cell_state(uuid_value(ratelimit_state_uuid)) is None ==> stn.nonce == 2)),
        // every other error leaves the cell as it was, except that a first
        // touch may have installed a fresh cell at nonce 1
        (r is Err && r != Err::<(), SgxStatus>(SgxStatus::RateLimitExceeded)) ==> (final(map).cell_state(uuid_value(ratelimit_state_uuid)) == old(map).cell_state(
            uuid_value(ratelimit_state_uuid),
        ) || (old(map).cell_state(uuid_value(ratelimit_state_uuid)) is None && (final(map).cell_state(uuid_value(ratelimit_state_uuid)) matches Some(stn) && stn.wf() && stn.nonce
            == 1))),
{
    let uval: u128 = crate::uuid_to_u128(&ratelimit_state_uuid);
    if uval == 0 {
        return Err(SgxStatus::InvalidParameter);
    }
    let n = encrypted_ratelimit_state.len();
    if n < 16 {
        return Err(SgxStatus::InvalidRateLimitState);
    }
    let ct_len = n - 16;
    let mut ct: Vec<u8> = Vec::new();
    ct.extend_from_slice(slice_subrange(encrypted_ratelimit_state.as_slice(), 0, ct_len));
    let mac: &[u8] = slice_subrange(encrypted_ratelimit_state.as_slice(), ct_len, n);
    let ghost ct0 = ct@;
    let ghost mac0 = mac@;
    proof {
        assert(ct0 =~= old(encrypted_ratelimit_state)@.subrange(0, ct_len as int));
        assert(mac0 == old(encrypted_ratelimit_state)@.subrange(ct_len as int, n as int));
    }

    let idx = map.get_or_insert_cell(uval);
    let ghost map_mid = *map;
    let fresh_st: Option<RatelimitState> = if map.cells[idx].state.is_none() {
        match RatelimitState::fresh() {
            Ok(s) => Some(s),
            Err(e) => {
                return Err(e);
            },
        }
    } else {
        None
    };
    let cell_ref = vstd::std_specs::vec::vec_index_mut(&mut map.cells, idx);
    let mut st: RatelimitState = match cell_ref.state.take() {
        Some(s) => s,
        None => fresh_st.unwrap(),
    };
    let ghost st_prev = st;
    let res = st.update(ct, mac, query_phones);
    let ghost st_new = st;
    cell_ref.state = Some(st);
    proof {
        assert(map.cells@ == map_mid.cells@.update(
            idx as int,
            RatelimitCell { uuid: uval, state: Some(st_new) },
        ));
        assert forall|i: int| 0 <= i < map_mid.cells@.len() implies map.cells@[i].uuid
            == map_mid.cells@[i].uuid by {}
        assert forall|u: u128| u != uval implies map.cell_state(u) == old(map).cell_state(u) by {
            lemma_index_of_same_uuids(map_mid.cells@, map.cells@, u);
            lemma_index_of_bounds(map_mid.cells@, u);
        }
        lemma_index_of_same_uuids(map_mid.cells@, map.cells@, uval);
        assert(map.cell_state(uval) == Some(st_new));
    }
    match res {
        Ok((new_ct, new_mac)) => {
            let mut out = new_ct;
            let mut m: usize = 0;
            let ghost out_ct = out@;
            while m < 16
                invariant
                    m <= 16,
                    new_mac@.len() == 16,
                    out@ == out_ct + new_mac@.subrange(0, m as int),
                decreases 16 - m,
            {
                out.push(new_mac[m]);
                assert(out@ =~= out_ct + new_mac@.subrange(0, m + 1 as int));
                m += 1;
            }
            proof {
                assert(new_mac@.subrange(0, 16) =~= new_mac@);
            }
            *encrypted_ratelimit_state = out;
            proof {
                assert(encrypted_ratelimit_state@.subrange(0, ct_len as int) =~= out_ct);
                assert(encrypted_ratelimit_state@.subrange(ct_len as int, n as int) =~= new_mac@);
                assert(st_prev.wf());
                assert(st_new.wf());
                assert(update_ok(
                    st_prev,
                    st_new,
                    old(encrypted_ratelimit_state)@.subrange(0, ct_len as int),
                    old(encrypted_ratelimit_state)@.subrange(ct_len as int, n as int),
                    query_phones@,
                    encrypted_ratelimit_state@.subrange(0, ct_len as int),
                    encrypted_ratelimit_state@.subrange(ct_len as int, n as int),
                ));
            }
            Ok(())
        },
        Err(e) => Err(e),
    }
}

/// Clears one client's cell back to `None` (the entry itself stays). Fails
/// only on a zero UUID.
pub fn delete_ratelimit_state(map: &mut RatelimitStateMap, ratelimit_state_uuid: Uuid) -> (r:
    Result<(), SgxStatus>)
    requires
        old(map).wf(),
    ensures
        final(map).wf(),
        r is Ok <==> uuid_value(ratelimit_state_uuid) != 0,
        uuid_value(ratelimit_state_uuid) == 0 <==> r == Err::<(), SgxStatus>(
            SgxStatus::InvalidParameter,
        ),
        uuid_value(ratelimit_state_uuid) == 0 ==> *final(map) == *old(map),
        r is Ok ==> final(map).cell_state(uuid_value(ratelimit_state_uuid)) is None,
        forall|u: u128|
            u != uuid_value(ratelimit_state_uuid) ==> final(map).cell_state(u) == old(map).cell_state(u),
{
    let uval: u128 = crate::uuid_to_u128(&ratelimit_state_uuid);
    if uval == 0 {
        return Err(SgxStatus::InvalidParameter);
    }
    let idx = map.get_or_insert_cell(uval);
    let ghost map_mid = *map;
    let cell_ref = vstd::std_specs::vec::vec_index_mut(&mut map.cells, idx);
    cell_ref.state = None;
    proof {
        assert(map.cells@ == map_mid.cells@.update(
            idx as int,
            RatelimitCell { uuid: uval, state: None },
        ));
        assert forall|u: u128| u != uval implies map.cell_state(u) == old(map).cell_state(u) by {
            lemma_index_of_same_uuids(map_mid.cells@, map.cells@, u);
            lemma_index_of_bounds(map_mid.cells@, u);
        }
        lemma_index_of_same_uuids(map_mid.cells@, map.cells@, uval);
        assert(map.cell_state(uval) is None);
    }
    Ok(())
}

} // verus!
