//! Compressed sets of 32-bit identifiers.
//!
//! Task identifiers, batch identifiers and document identifiers are all kept in
//! `roaring::RoaringBitmap`. The bitmap itself is opaque to the verifier: what it
//! holds is named by [`members`], and every operation on it used by this crate is
//! given its contract here, as documented by the `roaring` crate.

use roaring::RoaringBitmap;
use vstd::prelude::*;

verus! {

#[verifier::external_type_specification]
#[verifier::external_body]
pub struct ExRoaringBitmap(roaring::RoaringBitmap);

/// The integers that a bitmap holds.
pub uninterp spec fn members(bitmap: RoaringBitmap) -> Set<u32>;

/// `RoaringBitmap::new`: the empty bitmap.
#[verifier::external_body]
pub(crate) fn bitmap_new() -> (r: RoaringBitmap)
    ensures
        members(r) == Set::<u32>::empty(),
{
    RoaringBitmap::new()
}

/// `RoaringBitmap::insert`: adds `value`; the result says whether it was absent.
#[verifier::external_body]
pub(crate) fn bitmap_insert(bitmap: &mut RoaringBitmap, value: u32) -> (fresh: bool)
    ensures
        members(*final(bitmap)) == members(*old(bitmap)).insert(value),
        fresh == !members(*old(bitmap)).contains(value),
{
    bitmap.insert(value)
}

/// `RoaringBitmap::remove`: removes `value`; the result says whether it was present.
#[verifier::external_body]
pub(crate) fn bitmap_remove(bitmap: &mut RoaringBitmap, value: u32) -> (present: bool)
    ensures
        members(*final(bitmap)) == members(*old(bitmap)).remove(value),
        present == members(*old(bitmap)).contains(value),
{
    bitmap.remove(value)
}

/// `RoaringBitmap::contains`: membership test.
#[verifier::external_body]
pub(crate) fn bitmap_contains(bitmap: &RoaringBitmap, value: u32) -> (r: bool)
    ensures
        r == members(*bitmap).contains(value),
{
    bitmap.contains(value)
}

/// `RoaringBitmap::len`: the number of distinct integers held.
#[verifier::external_body]
pub(crate) fn bitmap_len(bitmap: &RoaringBitmap) -> (r: u64)
    ensures
        r as nat == members(*bitmap).len(),
{
    bitmap.len()
}

/// `RoaringBitmap::is_empty`: true when no integer is held.
#[verifier::external_body]
pub(crate) fn bitmap_is_empty(bitmap: &RoaringBitmap) -> (r: bool)
    ensures
        r <==> members(*bitmap) == Set::<u32>::empty(),
{
    bitmap.is_empty()
}

/// `Clone::clone` of a bitmap: a bitmap that holds the same integers.
pub assume_specification[ <RoaringBitmap as Clone>::clone ](bitmap: &RoaringBitmap) -> (r:
    RoaringBitmap)
    ensures
        members(r) == members(*bitmap),
;

/// `BitOrAssign<&RoaringBitmap>`: `bitmap` becomes the union of the two.
#[verifier::external_body]
pub(crate) fn bitmap_union_with(bitmap: &mut RoaringBitmap, other: &RoaringBitmap)
    ensures
        members(*final(bitmap)) == members(*old(bitmap)).union(members(*other)),
{
    *bitmap |= other;
}

/// `BitAndAssign<&RoaringBitmap>`: `bitmap` becomes the intersection of the two.
#[verifier::external_body]
pub(crate) fn bitmap_intersect_with(bitmap: &mut RoaringBitmap, other: &RoaringBitmap)
    ensures
        members(*final(bitmap)) == members(*old(bitmap)).intersect(members(*other)),
{
    *bitmap &= other;
}

/// `SubAssign<&RoaringBitmap>`: `bitmap` loses what `other` holds.
#[verifier::external_body]
pub(crate) fn bitmap_subtract(bitmap: &mut RoaringBitmap, other: &RoaringBitmap)
    ensures
        members(*final(bitmap)) == members(*old(bitmap)).difference(members(*other)),
{
    *bitmap -= other;
}

/// The members of `s` that are below `bound`.
pub open spec fn below(s: Set<u32>, bound: u32) -> Set<u32> {
    Set::new(|v: u32| s.contains(v) && v < bound)
}

/// `RoaringBitmap::remove_range` on `start..`: `bitmap` keeps what is below `start`.
#[verifier::external_body]
pub(crate) fn bitmap_remove_from(bitmap: &mut RoaringBitmap, start: u32)
    ensures
        members(*final(bitmap)) == below(members(*old(bitmap)), start),
{
    bitmap.remove_range(start..);
}

/// `PartialEq::eq` of two bitmaps: true when they hold the same integers.
#[verifier::external_body]
pub(crate) fn bitmap_equal(a: &RoaringBitmap, b: &RoaringBitmap) -> (r: bool)
    ensures
        r == (members(*a) == members(*b)),
{
    a == b
}

/// `RoaringBitmap::iter`: the integers held, each once, in ascending order.
#[verifier::external_body]
pub(crate) fn bitmap_to_vec(bitmap: &RoaringBitmap) -> (r: Vec<u32>)
    ensures
        forall|i: int, j: int| 0 <= i < j < r.len() ==> r[i] < r[j],
        forall|v: u32| members(*bitmap).contains(v) <==> r@.contains(v),
{
    bitmap.iter().collect()
}

/// `RoaringBitmap::from_sorted_iter`: the bitmap of a strictly ascending list.
#[verifier::external_body]
pub(crate) fn bitmap_from_sorted(values: &Vec<u32>) -> (r: RoaringBitmap)
    requires
        forall|i: int, j: int| 0 <= i < j < values.len() ==> values[i] < values[j],
    ensures
        forall|v: u32| #[trigger] members(r).contains(v) <==> values@.contains(v),
{
    RoaringBitmap::from_sorted_iter(values.iter().copied()).unwrap()
}

/// Every set of 32-bit integers is finite.
pub proof fn lemma_u32_set_finite(s: Set<u32>)
    ensures
        s.finite(),
{
    let all = vstd::set_lib::set_int_range(0, 0x1_0000_0000);
    vstd::set_lib::lemma_int_range(0, 0x1_0000_0000);
    let image = all.map(|i: int| i as u32);
    all.lemma_map_finite(|i: int| i as u32);
    assert forall|v: u32| s.contains(v) implies image.contains(v) by {
        assert(all.contains(v as int));
        assert((v as int) as u32 == v);
    }
    vstd::set_lib::lemma_set_subset_finite(image, s);
}

} // verus!
