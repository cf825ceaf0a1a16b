//! The rate-limit set: an append-only, bounded set of 64-bit entries held in
//! a fixed number of slots.
//!
//! A slot holding 0 is vacant; an entry is stored by writing it into the first
//! vacant slot. Adding is idempotent per entry, an entry of 0 is treated as
//! already present, and an entry that finds no vacant slot is dropped — the
//! set is then over its capacity and the size check that follows every add
//! fails the call. The size of the set is the number of distinct non-zero
//! slot values.

use vstd::prelude::*;

verus! {

/// The index of the first vacant (zero) slot, or `slots.len()` if none.
pub open spec fn first_vacant(slots: Seq<u64>) -> int
    decreases slots.len(),
{
    if slots.len() == 0 {
        0
    } else if slots[0] == 0 {
        0
    } else {
        1 + first_vacant(slots.skip(1))
    }
}

/// The slots after one entry is added: unchanged if the entry is 0, already
/// present, or no slot is vacant; else the first vacant slot now holds it.
pub open spec fn add_one(slots: Seq<u64>, e: u64) -> Seq<u64> {
    if e == 0 || slots.contains(e) {
        slots
    } else if first_vacant(slots) < slots.len() {
        slots.update(first_vacant(slots), e)
    } else {
        slots
    }
}

/// The slots after each entry is added in order.
pub open spec fn add_entries(slots: Seq<u64>, entries: Seq<u64>) -> Seq<u64>
    decreases entries.len(),
{
    if entries.len() == 0 {
        slots
    } else {
        add_entries(add_one(slots, entries[0]), entries.skip(1))
    }
}

/// The number of distinct non-zero slot values.
pub open spec fn distinct_count(slots: Seq<u64>) -> nat
    decreases slots.len(),
{
    if slots.len() == 0 {
        0
    } else {
        distinct_count(slots.drop_last()) + if slots.last() != 0 && !slots.drop_last().contains(
            slots.last(),
        ) {
            1nat
        } else {
            0nat
        }
    }
}

/// The set size as reported: the distinct count, saturated to 32 bits.
pub open spec fn reported_size(slots: Seq<u64>) -> u32 {
    if distinct_count(slots) > 0xffff_ffff {
        0xffff_ffffu32
    } else {
        distinct_count(slots) as u32
    }
}

proof fn lemma_first_vacant_bounds(slots: Seq<u64>)
    ensures
        0 <= first_vacant(slots) <= slots.len(),
        forall|j: int| 0 <= j < first_vacant(slots) ==> slots[j] != 0,
        first_vacant(slots) < slots.len() ==> slots[first_vacant(slots)] == 0,
    decreases slots.len(),
{
    if slots.len() > 0 && slots[0] != 0 {
        lemma_first_vacant_bounds(slots.skip(1));
        assert forall|j: int| 0 <= j < first_vacant(slots) implies slots[j] != 0 by {
            if j > 0 {
                assert(slots.skip(1)[j - 1] == slots[j]);
            }
        }
        if first_vacant(slots) < slots.len() {
            assert(slots.skip(1)[first_vacant(slots) - 1] == slots[first_vacant(slots)]);
        }
    }
}

proof fn lemma_add_one_len(slots: Seq<u64>, e: u64)
    ensures
        add_one(slots, e).len() == slots.len(),
{
    lemma_first_vacant_bounds(slots);
}

pub proof fn lemma_add_entries_len(slots: Seq<u64>, entries: Seq<u64>)
    ensures
        add_entries(slots, entries).len() == slots.len(),
    decreases entries.len(),
{
    if entries.len() > 0 {
        lemma_add_one_len(slots, entries[0]);
        lemma_add_entries_len(add_one(slots, entries[0]), entries.skip(1));
    }
}

proof fn lemma_add_entries_snoc(slots: Seq<u64>, entries: Seq<u64>, e: u64)
    ensures
        add_entries(slots, entries.push(e)) == add_one(add_entries(slots, entries), e),
    decreases entries.len(),
{
    assert(add_entries(slots, entries.push(e)) == add_entries(
        add_one(slots, entries.push(e)[0]),
        entries.push(e).skip(1),
    ));
    if entries.len() == 0 {
        assert(entries.push(e)[0] == e);
        assert(entries.push(e).skip(1) =~= Seq::<u64>::empty());
        assert(add_entries(add_one(slots, e), Seq::<u64>::empty()) == add_one(slots, e));
        assert(add_entries(slots, Seq::<u64>::empty()) == slots);
    } else {
        assert(entries.push(e)[0] == entries[0]);
        assert(entries.push(e).skip(1) =~= entries.skip(1).push(e));
        lemma_add_entries_snoc(add_one(slots, entries[0]), entries.skip(1), e);
    }
}

/// Inserts each entry into the slots, first vacant slot first, skipping
/// entries that are 0 or already present; an entry that finds no vacant slot
/// is dropped.
pub fn ratelimit_set_add(slots: &mut Vec<u64>, entries: &[u64])
    ensures
        final(slots)@ == add_entries(old(slots)@, entries@),
        final(slots)@.len() == old(slots)@.len(),
{
    let ghost slots0 = slots@;
    let n = slots.len();
    let mut k: usize = 0;
    while k < entries.len()
        invariant
            k <= entries@.len(),
            slots@ == add_entries(slots0, entries@.take(k as int)),
            slots@.len() == n,
        decreases entries@.len() - k,
    {
        let ghost slots_before = slots@;
        let e = entries[k];
        if e != 0 {
            // look for the entry among the occupied slots
            let mut found: bool = false;
            let mut i: usize = 0;
            while i < n
                invariant
                    i <= n,
                    slots@ == slots_before,
                    slots@.len() == n,
                    found <==> exists|j: int| 0 <= j < i && slots@[j] == e,
                decreases n - i,
            {
                if slots[i] == e {
                    found = true;
                }
                i += 1;
            }
            if !found {
                // write the entry into the first vacant slot, if any
                proof {
                    lemma_first_vacant_bounds(slots@);
                    assert(!slots@.contains(e));
                }
                let mut v: usize = 0;
                while v < n && slots[v] != 0
                    invariant
                        v <= n,
                        slots@ == slots_before,
                        slots@.len() == n,
                        forall|j: int| 0 <= j < v ==> slots@[j] != 0,
                    decreases n - v,
                {
                    v += 1;
                }
                proof {
                    lemma_first_vacant_bounds(slots@);
                    if v < n {
                        assert(slots@[v as int] == 0);
                        assert(first_vacant(slots@) <= v);
                        assert(first_vacant(slots@) >= v);
                    } else {
                        assert(first_vacant(slots@) == n);
                    }
                }
                if v < n {
                    *vstd::std_specs::vec::vec_index_mut(slots, v) = e;
                    assert(slots@ == add_one(slots_before, e));
                } else {
                    assert(slots@ == add_one(slots_before, e));
                }
            } else {
                proof {
                    assert(slots@.contains(e));
                }
            }
        }
        proof {
            assert(slots@ == add_one(slots_before, e));
            lemma_add_entries_snoc(slots0, entries@.take(k as int), e);
            assert(entries@.take(k as int).push(e) =~= entries@.take(k + 1 as int));
        }
        k += 1;
    }
    proof {
        assert(entries@.take(entries@.len() as int) =~= entries@);
    }
}

/// Counts the distinct non-zero slot values, saturating at the 32-bit
/// maximum.
pub fn ratelimit_set_size(slots: &Vec<u64>) -> (r: u32)
    ensures
        r == reported_size(slots@),
{
    let n = slots.len();
    let mut count: usize = 0;
    let mut i: usize = 0;
    while i < n
        invariant
            i <= n,
            n == slots@.len(),
            count == distinct_count(slots@.take(i as int)),
            count <= i,
        decreases n - i,
    {
        let e = slots[i];
        if e != 0 {
            let mut seen: bool = false;
            let mut j: usize = 0;
            while j < i
                invariant
                    j <= i <= n,
                    n == slots@.len(),
                    seen <==> exists|m: int| 0 <= m < j && slots@[m] == e,
                decreases i - j,
            {
                if slots[j] == e {
                    seen = true;
                }
                j += 1;
            }
            if !seen {
                count += 1;
            }
            proof {
                if seen {
                    let m = choose|m: int| 0 <= m < i && slots@[m] == e;
                    assert(slots@.take(i as int)[m] == e);
                    assert(slots@.take(i as int).contains(e));
                }
                if slots@.take(i as int).contains(e) {
                    let m = choose|m: int|
                        0 <= m < slots@.take(i as int).len() && slots@.take(i as int)[m] == e;
                    assert(slots@[m] == e);
                    assert(seen);
                }
            }
        }
        proof {
            assert(slots@.take(i + 1 as int).drop_last() =~= slots@.take(i as int));
            assert(slots@.take(i + 1 as int).last() == slots@[i as int]);
        }
        i += 1;
    }
    proof {
        assert(slots@.take(n as int) =~= slots@);
    }
    if count > 0xffff_ffffusize {
        0xffff_ffffu32
    } else {
        count as u32
    }
}

} // verus!
