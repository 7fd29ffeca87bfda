//! FAT table entry constants and classification.
//!
//! Only the low 28 bits of an entry carry meaning; the top four bits are
//! reserved and every function here ignores them.

use vstd::prelude::*;

verus! {

/// Free cluster.
pub const FREE: u32 = 0x0000_0000;

/// Reserved cluster (the first data cluster is 2).
pub const RESERVED_START: u32 = 0x0000_0001;

/// End-of-chain markers are all values at or above this one.
pub const END_OF_CHAIN_MIN: u32 = 0x0FFF_FFF8;

/// The end-of-chain marker that is usually written.
pub const END_OF_CHAIN: u32 = 0x0FFF_FFFF;

/// Bad cluster marker.
pub const BAD_CLUSTER: u32 = 0x0FFF_FFF7;

/// Mask selecting the 28 meaningful bits of an entry.
pub const CLUSTER_MASK: u32 = 0x0FFF_FFFF;

/// Mask selecting the four reserved bits of an entry.
pub const RESERVED_MASK: u32 = 0xF000_0000;

/// The meaningful part of an entry: its low 28 bits.
pub open spec fn value(entry: u32) -> u32 {
    entry & CLUSTER_MASK
}

/// The reserved part of an entry: its top four bits, in place.
pub open spec fn reserved_bits(entry: u32) -> u32 {
    entry & RESERVED_MASK
}

pub open spec fn spec_is_free(entry: u32) -> bool {
    value(entry) == FREE
}

pub open spec fn spec_is_end_of_chain(entry: u32) -> bool {
    value(entry) >= END_OF_CHAIN_MIN
}

pub open spec fn spec_is_bad(entry: u32) -> bool {
    value(entry) == BAD_CLUSTER
}

pub open spec fn spec_is_chain(entry: u32) -> bool {
    2 <= value(entry) < BAD_CLUSTER
}

pub open spec fn spec_next_cluster(entry: u32) -> Option<u32> {
    if spec_is_chain(entry) {
        Some(value(entry))
    } else {
        None
    }
}

/// The value of an entry is the entry modulo 2^28, and an entry is the sum
/// of its value and its reserved bits.
pub proof fn lemma_value_is_low_28_bits(entry: u32)
    ensures
        value(entry) == entry % 0x1000_0000,
        value(entry) <= CLUSTER_MASK,
        reserved_bits(entry) == (entry / 0x1000_0000) * 0x1000_0000,
        value(entry) + reserved_bits(entry) == entry,
{
    assert(entry & 0x0FFF_FFFF == entry % 0x1000_0000) by (bit_vector);
    assert(entry & 0x0FFF_FFFF <= 0x0FFF_FFFF) by (bit_vector);
    assert(entry & 0xF000_0000 == (entry / 0x1000_0000) * 0x1000_0000) by (bit_vector);
}

/// Every entry falls in exactly one class: free, reserved value 1, chain
/// pointer, bad, or end of chain.
pub proof fn lemma_classes_partition(entry: u32)
    ensures
        spec_is_free(entry) ==> !spec_is_chain(entry) && !spec_is_bad(entry) && !spec_is_end_of_chain(
            entry,
        ),
        spec_is_chain(entry) ==> !spec_is_bad(entry) && !spec_is_end_of_chain(entry),
        spec_is_bad(entry) ==> !spec_is_end_of_chain(entry),
        spec_is_free(entry) || value(entry) == RESERVED_START || spec_is_chain(entry)
            || spec_is_bad(entry) || spec_is_end_of_chain(entry),
{
}

/// Whether the entry marks a free cluster.
pub fn is_free(entry: u32) -> (r: bool)
    ensures
        r == spec_is_free(entry),
{
    (entry & CLUSTER_MASK) == FREE
}

/// Whether the entry marks the end of a chain.
pub fn is_end_of_chain(entry: u32) -> (r: bool)
    ensures
        r == spec_is_end_of_chain(entry),
{
    (entry & CLUSTER_MASK) >= END_OF_CHAIN_MIN
}

/// Whether the entry marks a bad cluster.
pub fn is_bad(entry: u32) -> (r: bool)
    ensures
        r == spec_is_bad(entry),
{
    (entry & CLUSTER_MASK) == BAD_CLUSTER
}

/// Whether the entry points to another cluster.
pub fn is_chain(entry: u32) -> (r: bool)
    ensures
        r == spec_is_chain(entry),
{
    let masked: u32 = entry & CLUSTER_MASK;
    2 <= masked && masked < BAD_CLUSTER
}

/// The cluster that the entry points to, if it is a chain pointer.
pub fn next_cluster(entry: u32) -> (r: Option<u32>)
    ensures
        r == spec_next_cluster(entry),
{
    if is_chain(entry) {
        Some(entry & CLUSTER_MASK)
    } else {
        None
    }
}

} // verus!
