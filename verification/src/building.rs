//! The integer part of the building model: the kinds of rooms, openings and
//! roofs, the keys of mesh chunks, and the hash steps that fold integers
//! into a building's fingerprint.

use crate::authority::fingerprint::{push_u64, u128_bytes, u64_bytes, FNV_PRIME};
use vstd::prelude::*;

verus! {

#[derive(Clone, Copy, Debug, PartialEq, Eq, Structural, PartialOrd, Ord, Hash)]
pub enum RoomPurpose {
    Entry,
    Living,
    Sleeping,
    Cooking,
    Storage,
    Workshop,
    Retail,
    Circulation,
    Utility,
}

#[derive(Clone, Copy, Debug, PartialEq, Eq, Structural, PartialOrd, Ord, Hash)]
pub enum OpeningKind {
    Door,
    Window,
    Passage,
}

impl OpeningKind {
    /// Whether a person can pass through an opening of this kind.
    pub fn is_traversable(self) -> (traversable: bool)
        ensures
            traversable == (self is Door || self is Passage),
    {
        match self {
            OpeningKind::Door => true,
            OpeningKind::Window => false,
            OpeningKind::Passage => true,
        }
    }
}

#[derive(Clone, Copy, Debug, PartialEq, Eq, Structural, PartialOrd, Ord, Hash)]
pub enum RoofKind {
    Flat,
    GableX,
    GableZ,
}

#[derive(Clone, Copy, Debug, PartialEq, Eq, Structural, PartialOrd, Ord, Hash)]
pub enum ChunkLayer {
    Structure,
    Floor,
    Roof,
    ExteriorShell,
}

#[derive(Clone, Copy, Debug, PartialEq, Eq, Structural, PartialOrd, Ord, Hash)]
pub struct ChunkKey {
    pub level_index: i16,
    pub x: i32,
    pub z: i32,
    pub layer: ChunkLayer,
}

#[derive(Clone, Copy, Debug, PartialEq, Eq, Structural, PartialOrd, Ord, Hash)]
pub enum CutawayDirection {
    North,
    South,
    East,
    West,
    Roof,
}

/// An FNV-1a hash state after folding in `bytes`, one byte at a time.
pub open spec fn fnv_feed(hash: u64, bytes: Seq<u8>) -> u64
    decreases bytes.len(),
{
    if bytes.len() == 0 {
        hash
    } else {
        ((fnv_feed(hash, bytes.drop_last()) ^ (bytes.last() as u64)) * FNV_PRIME) as u64
    }
}

/// Folding in two byte strings one after the other folds in their concatenation.
pub proof fn lemma_fnv_feed_concat(hash: u64, a: Seq<u8>, b: Seq<u8>)
    ensures
        fnv_feed(fnv_feed(hash, a), b) == fnv_feed(hash, a + b),
    decreases b.len(),
{
    if b.len() > 0 {
        lemma_fnv_feed_concat(hash, a, b.drop_last());
        assert((a + b).drop_last() =~= a + b.drop_last());
        assert((a + b).last() == b.last());
    }
}

/// Folds a 64-bit value, least significant byte first, into a hash state.
pub fn feed_u64(hash: &mut u64, value: u64)
    ensures
        *final(hash) == fnv_feed(*old(hash), u64_bytes(value)),
{
    let mut bytes: Vec<u8> = Vec::new();
    push_u64(&mut bytes, value);
    assert(bytes@ =~= u64_bytes(value));
    let ghost start = *hash;
    let mut i: usize = 0;
    while i < bytes.len()
        invariant
            i <= bytes.len(),
            bytes@ == u64_bytes(value),
            *hash == fnv_feed(start, bytes@.take(i as int)),
        decreases bytes.len() - i,
    {
        let mixed = *hash ^ (bytes[i] as u64);
        let next = mixed.wrapping_mul(FNV_PRIME);
        proof {
            assert(mixed.wrapping_mul(0x0000_0100_0000_01b3u64) == (mixed * 0x0000_0100_0000_01b3u64) as u64)
                by (bit_vector);
            assert(bytes@.take(i + 1).drop_last() =~= bytes@.take(i as int));
        }
        *hash = next;
        i = i + 1;
    }
    assert(bytes@.take(bytes.len() as int) =~= bytes@);
}

/// Folds a 128-bit value, least significant byte first, into a hash state.
pub fn feed_u128(hash: &mut u64, value: u128)
    ensures
        *final(hash) == fnv_feed(*old(hash), u128_bytes(value)),
{
    let ghost start = *hash;
    feed_u64(hash, value as u64);
    feed_u64(hash, (value >> 64) as u64);
    proof {
        lemma_fnv_feed_concat(start, u64_bytes(value as u64), u64_bytes((value >> 64u128) as u64));
    }
}

} // verus!
