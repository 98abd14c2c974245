//! The arena of an extractor thread, and the packed lists that live in it.
//!
//! Keys and packed lists of document identifiers are allocated in a
//! `bumpalo::Bump`, which is freed as a whole once the batch is over. A
//! `bumparaw_collections::Bbbul` is a write-only list of integers that is read
//! back, block by block, once it is frozen.

use bumpalo::Bump;
use bumparaw_collections::bbbul::BitPacker4x;
use bumparaw_collections::{Bbbul, FrozenBbbul};
use vstd::prelude::*;

verus! {

#[verifier::external_type_specification]
#[verifier::external_body]
pub struct ExBump<const MIN_ALIGN: usize>(bumpalo::Bump<MIN_ALIGN>);

#[verifier::external_type_specification]
#[verifier::external_body]
pub struct ExBitPacker4x(bumparaw_collections::bbbul::BitPacker4x);

#[verifier::external_type_specification]
#[verifier::external_body]
#[verifier::reject_recursive_types(B)]
pub struct ExBbbul<'bump, B>(bumparaw_collections::Bbbul<'bump, B>);

#[verifier::external_type_specification]
#[verifier::external_body]
#[verifier::reject_recursive_types(B)]
pub struct ExFrozenBbbul<'bump, B>(bumparaw_collections::FrozenBbbul<'bump, B>);

/// The integers that were written to a packed list.
pub uninterp spec fn packed(list: Bbbul<'_, BitPacker4x>) -> Set<u32>;

/// The integers that a frozen packed list still holds.
pub uninterp spec fn frozen(list: FrozenBbbul<'_, BitPacker4x>) -> Set<u32>;

/// `Bump::allocated_bytes`: how many bytes the arena has handed out, padding
/// included. Nothing is promised of the number.
#[verifier::external_body]
pub(crate) fn arena_allocated_bytes(bump: &Bump) -> usize {
    bump.allocated_bytes()
}

/// `Bump::alloc_slice_copy`: a copy of the bytes that lives as long as the arena.
#[verifier::external_body]
pub(crate) fn arena_copy<'bump>(bump: &'bump Bump, bytes: &[u8]) -> (r: &'bump [u8])
    ensures
        r@ == bytes@,
{
    bump.alloc_slice_copy(bytes)
}

/// `Bbbul::new_in`: an empty packed list in the arena.
#[verifier::external_body]
pub(crate) fn packed_new<'bump>(bump: &'bump Bump) -> (r: Bbbul<'bump, BitPacker4x>)
    ensures
        packed(r) == Set::<u32>::empty(),
{
    Bbbul::new_in(bump)
}

/// `Bbbul::insert`: writes one more integer to the list.
///
/// The list must not be given an integer that it was given before; here it is only
/// ever given one that is greater than all it holds.
#[verifier::external_body]
pub(crate) fn packed_insert<'bump>(list: &mut Bbbul<'bump, BitPacker4x>, n: u32)
    requires
        forall|v: u32| packed(*old(list)).contains(v) ==> v < n,
    ensures
        packed(*final(list)) == packed(*old(list)).insert(n),
{
    list.insert(n)
}

/// `FrozenBbbul::new`: the list, closed for writing and open for reading.
#[verifier::external_body]
pub(crate) fn packed_freeze<'bump>(list: Bbbul<'bump, BitPacker4x>) -> (r: FrozenBbbul<
    'bump,
    BitPacker4x,
>)
    ensures
        frozen(r) == packed(list),
{
    FrozenBbbul::new(list)
}

/// `FrozenBbbul::iter_and_clear` and `IterAndClear::next_block` until it ends: the
/// blocks of the list, each in strictly ascending order, which together hold what
/// the list held. The list is empty afterwards.
#[verifier::external_body]
pub(crate) fn frozen_take_blocks<'bump>(list: &mut FrozenBbbul<'bump, BitPacker4x>) -> (r: Vec<
    Vec<u32>,
>)
    ensures
        frozen(*final(list)) == Set::<u32>::empty(),
        forall|b: int, i: int, j: int|
            0 <= b < r.len() && 0 <= i < j < r[b].len() ==> r[b][i] < r[b][j],
        forall|v: u32|
            #[trigger] frozen(*old(list)).contains(v) <==> exists|b: int|
                0 <= b < r.len() && (#[trigger] r[b])@.contains(v),
{
    let mut blocks = Vec::new();
    let mut iter = list.iter_and_clear();
    while let Some(block) = iter.next_block() {
        blocks.push(block.to_vec());
    }
    blocks
}

} // verus!
