//! A handle as one 128-bit value, the form in which generated code carries
//! it: the revision in the low 64 bits, the continuation in the high 64.

use crate::continuation::VMContObj;
use vstd::prelude::*;

verus! {

/// The 128-bit value with `low` in bits 0 to 63 and `high` in bits 64 to 127.
pub open spec fn join_lanes(low: u64, high: u64) -> u128 {
    (low as int + high as int * 0x1_0000_0000_0000_0000) as u128
}

/// The value of bits 0 to 63.
pub open spec fn low_lane(value: u128) -> u64 {
    (value as int % 0x1_0000_0000_0000_0000) as u64
}

/// The value of bits 64 to 127.
pub open spec fn high_lane(value: u128) -> u64 {
    (value as int / 0x1_0000_0000_0000_0000) as u64
}

/// Builds the 128-bit form of a handle from the revision and the
/// continuation. A continuation of zero stands for the null reference.
pub fn construct(revision_counter: u64, contref_addr: u64) -> (contobj: u128)
    ensures
        contobj == join_lanes(revision_counter, contref_addr),
        low_lane(contobj) == revision_counter,
        high_lane(contobj) == contref_addr,
{
    let contobj: u128 = ((contref_addr as u128) << 64) | (revision_counter as u128);
    assert(((contref_addr as u128) << 64) | (revision_counter as u128) == revision_counter as int
        + contref_addr as int * 0x1_0000_0000_0000_0000) by (bit_vector);
    contobj
}

/// Splits the 128-bit form of a handle into the revision and the
/// continuation, in this order.
pub fn deconstruct(contobj: u128) -> (lanes: (u64, u64))
    ensures
        lanes.0 == low_lane(contobj),
        lanes.1 == high_lane(contobj),
        join_lanes(lanes.0, lanes.1) == contobj,
{
    let revision_counter: u128 = contobj & 0xffff_ffff_ffff_ffff;
    let contref: u128 = contobj >> 64;
    assert(contobj & 0xffff_ffff_ffff_ffff == contobj % 0x1_0000_0000_0000_0000) by (bit_vector);
    assert(contobj >> 64 == contobj / 0x1_0000_0000_0000_0000) by (bit_vector);
    assert(contobj >> 64 <= 0xffff_ffff_ffff_ffff) by (bit_vector);
    (revision_counter as u64, contref as u64)
}

/// The 128-bit form of `handle`. The slot is carried plus one, so that zero
/// is left for the null reference. `None` for a slot that does not fit.
pub fn pack(handle: VMContObj) -> (contobj: Option<u128>)
    ensures
        contobj == if handle.contref < u64::MAX {
            Some(join_lanes(handle.revision, (handle.contref + 1) as u64))
        } else {
            None
        },
{
    if (handle.contref as u64) < u64::MAX {
        Some(construct(handle.revision, handle.contref as u64 + 1))
    } else {
        None
    }
}

/// The handle that `contobj` carries, or `None` for the null reference and
/// for a slot that does not fit.
pub fn unpack(contobj: u128) -> (handle: Option<VMContObj>)
    ensures
        handle == if high_lane(contobj) == 0 || high_lane(contobj) - 1 > usize::MAX {
            None
        } else {
            Some(
                VMContObj {
                    revision: low_lane(contobj),
                    contref: (high_lane(contobj) - 1) as usize,
                },
            )
        },
{
    let (revision, contref) = deconstruct(contobj);
    if contref == 0 || contref - 1 > usize::MAX as u64 {
        None
    } else {
        Some(VMContObj::new((contref - 1) as usize, revision))
    }
}

/// A handle survives the trip through its 128-bit form, and no handle has
/// the form of the null reference.
pub proof fn lemma_unpack_inverts_pack(handle: VMContObj)
    requires
        handle.contref < u64::MAX,
    ensures
        high_lane(join_lanes(handle.revision, (handle.contref + 1) as u64)) == handle.contref + 1,
        low_lane(join_lanes(handle.revision, (handle.contref + 1) as u64)) == handle.revision,
        join_lanes(handle.revision, (handle.contref + 1) as u64) != join_lanes(0, 0),
{
}

} // verus!
