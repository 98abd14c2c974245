//! Deltas of a posting list: the documents to take out and the documents to put in.

use crate::arena::{
    frozen, frozen_take_blocks, packed, packed_freeze, packed_insert, packed_new,
};
use crate::bitmap::{
    bitmap_from_sorted, bitmap_insert, bitmap_new, bitmap_subtract, bitmap_union_with, members,
};
use bumpalo::Bump;
use bumparaw_collections::bbbul::BitPacker4x;
use bumparaw_collections::{Bbbul, FrozenBbbul};
use roaring::RoaringBitmap;
use vstd::prelude::*;

verus! {

/// One side of a delta while documents are being extracted.
///
/// Identifiers that come in ascending order go to the packed list; one that comes
/// late, below the greatest seen so far, goes to a bitmap beside it, so that the
/// packed list is never given an identifier twice.
pub struct Lane<'bump> {
    list: Bbbul<'bump, BitPacker4x>,
    greatest: u32,
    late: RoaringBitmap,
}

impl<'bump> Lane<'bump> {
    /// The greatest identifier seen is in the packed list, and nothing in the packed
    /// list is above it.
    pub closed spec fn wf(&self) -> bool {
        &&& packed(self.list).contains(self.greatest)
        &&& forall|v: u32| packed(self.list).contains(v) ==> v <= self.greatest
    }

    /// The identifiers that the lane holds.
    pub closed spec fn items(&self) -> Set<u32> {
        packed(self.list).union(members(self.late))
    }

    /// A lane that holds one identifier.
    pub fn new_in(n: u32, bump: &'bump Bump) -> (r: Lane<'bump>)
        ensures
            r.wf(),
            r.items() == set![n],
    {
        let mut list = packed_new(bump);
        packed_insert(&mut list, n);
        let r = Lane { list, greatest: n, late: bitmap_new() };
        assert(r.items() =~= set![n]);
        r
    }

    /// Adds an identifier, which the lane may hold already.
    pub fn insert(&mut self, n: u32)
        requires
            old(self).wf(),
        ensures
            final(self).wf(),
            final(self).items() == old(self).items().insert(n),
    {
        if n > self.greatest {
            packed_insert(&mut self.list, n);
            self.greatest = n;
        } else if n < self.greatest {
            bitmap_insert(&mut self.late, n);
        }
        assert(self.items() =~= old(self).items().insert(n));
    }

    /// Closes the lane for writing.
    pub fn freeze(self) -> (r: FrozenLane<'bump>)
        requires
            self.wf(),
        ensures
            r.items() == self.items(),
    {
        FrozenLane { list: packed_freeze(self.list), late: self.late }
    }
}

/// One side of a delta once extraction is over.
pub struct FrozenLane<'bump> {
    list: FrozenBbbul<'bump, BitPacker4x>,
    late: RoaringBitmap,
}

impl<'bump> FrozenLane<'bump> {
    /// The identifiers that the lane holds.
    pub closed spec fn items(&self) -> Set<u32> {
        frozen(self.list).union(members(self.late))
    }

    /// Moves every identifier of the lane into a bitmap.
    pub fn drain_into(self, into: &mut RoaringBitmap)
        ensures
            members(*final(into)) == members(*old(into)).union(self.items()),
    {
        let mut list = self.list;
        let blocks = frozen_take_blocks(&mut list);
        let ghost start = members(*into);
        let mut b: usize = 0;
        while b < blocks.len()
            invariant
                b <= blocks.len(),
                forall|k: int, i: int, j: int|
                    0 <= k < blocks.len() && 0 <= i < j < blocks[k].len() ==> blocks[k][i]
                        < blocks[k][j],
                forall|v: u32|
                    #[trigger] members(*into).contains(v) <==> start.contains(v) || exists|k: int|
                        0 <= k < b && (#[trigger] blocks[k])@.contains(v),
            decreases blocks.len() - b,
        {
            let ghost prev = members(*into);
            let block = bitmap_from_sorted(&blocks[b]);
            bitmap_union_with(into, &block);
            proof {
                assert(forall|v: u32|
                    #[trigger] members(block).contains(v) <==> blocks[b as int]@.contains(v));
                assert forall|v: u32|
                    #[trigger] members(*into).contains(v) <==> start.contains(v) || exists|k: int|
                        0 <= k < b + 1 && (#[trigger] blocks[k])@.contains(v) by {
                    if prev.contains(v) && !start.contains(v) {
                        let k = choose|k: int| 0 <= k < b && (#[trigger] blocks[k])@.contains(v);
                        assert(blocks[k]@.contains(v));
                    }
                    if members(block).contains(v) {
                        assert(blocks[b as int]@.contains(v));
                    }
                    if exists|k: int| 0 <= k < b + 1 && (#[trigger] blocks[k])@.contains(v) {
                        let k = choose|k: int|
                            0 <= k < b + 1 && (#[trigger] blocks[k])@.contains(v);
                        if k < b {
                            assert(blocks[k]@.contains(v));
                        }
                    }
                }
            }
            b += 1;
        }
        bitmap_union_with(into, &self.late);
        proof {
            assert forall|v: u32|
                #[trigger] members(*into).contains(v) <==> members(*old(into)).union(
                    self.items(),
                ).contains(v) by {
                if !start.contains(v) && exists|k: int|
                    0 <= k < blocks.len() && (#[trigger] blocks[k])@.contains(v) {
                    let k = choose|k: int|
                        0 <= k < blocks.len() && (#[trigger] blocks[k])@.contains(v);
                    assert(frozen(self.list).contains(v));
                }
                if frozen(self.list).contains(v) {
                    let k = choose|k: int|
                        0 <= k < blocks.len() && (#[trigger] blocks[k])@.contains(v);
                    assert(blocks[k]@.contains(v));
                }
            }
            assert(members(*into) =~= members(*old(into)).union(self.items()));
        }
    }
}

/// What a delta stands for: the identifiers to take out and those to put in, each
/// absent where nothing was ever asked of that side.
pub struct DelAddView {
    pub del: Option<Set<u32>>,
    pub add: Option<Set<u32>>,
}

/// The union of two sides, where an absent side adds nothing.
pub open spec fn joined(a: Option<Set<u32>>, b: Option<Set<u32>>) -> Option<Set<u32>> {
    match (a, b) {
        (None, None) => None,
        (Some(x), None) => Some(x),
        (None, Some(y)) => Some(y),
        (Some(x), Some(y)) => Some(x.union(y)),
    }
}

/// A side after one more identifier was asked of it.
pub open spec fn with_one(a: Option<Set<u32>>, n: u32) -> Option<Set<u32>> {
    match a {
        Some(x) => Some(x.insert(n)),
        None => Some(set![n]),
    }
}

/// What a side holds; an absent side holds nothing.
pub open spec fn side(a: Option<Set<u32>>) -> Set<u32> {
    match a {
        Some(x) => x,
        None => Set::empty(),
    }
}

impl DelAddView {
    pub open spec fn empty() -> DelAddView {
        DelAddView { del: None, add: None }
    }

    /// The delta that does what both do.
    pub open spec fn merged(self, other: DelAddView) -> DelAddView {
        DelAddView { del: joined(self.del, other.del), add: joined(self.add, other.add) }
    }

    pub open spec fn with_del(self, n: u32) -> DelAddView {
        DelAddView { del: with_one(self.del, n), add: self.add }
    }

    pub open spec fn with_add(self, n: u32) -> DelAddView {
        DelAddView { del: self.del, add: with_one(self.add, n) }
    }

    /// The documents after the delta was applied to `documents`: deletions first,
    /// additions second.
    pub open spec fn applied_to(self, documents: Set<u32>) -> Set<u32> {
        documents.difference(side(self.del)).union(side(self.add))
    }
}

/// Merging deltas does not depend on how they are grouped.
pub proof fn lemma_merged_associative(a: DelAddView, b: DelAddView, c: DelAddView)
    ensures
        a.merged(b).merged(c) == a.merged(b.merged(c)),
{
    lemma_joined_associative(a.del, b.del, c.del);
    lemma_joined_associative(a.add, b.add, c.add);
}

pub proof fn lemma_joined_associative(
    a: Option<Set<u32>>,
    b: Option<Set<u32>>,
    c: Option<Set<u32>>,
)
    ensures
        joined(joined(a, b), c) == joined(a, joined(b, c)),
{
    if a is Some && b is Some && c is Some {
        assert(a->0.union(b->0).union(c->0) =~= a->0.union(b->0.union(c->0)));
    }
}

/// Merging deltas does not depend on their order.
pub proof fn lemma_merged_commutative(a: DelAddView, b: DelAddView)
    ensures
        a.merged(b) == b.merged(a),
{
    if a.del is Some && b.del is Some {
        assert(a.del->0.union(b.del->0) =~= b.del->0.union(a.del->0));
    }
    if a.add is Some && b.add is Some {
        assert(a.add->0.union(b.add->0) =~= b.add->0.union(a.add->0));
    }
}

/// Asking one identifier of a side, and then joining, is joining and then asking.
pub proof fn lemma_with_one_joined(a: Option<Set<u32>>, b: Option<Set<u32>>, n: u32)
    ensures
        joined(with_one(a, n), b) == with_one(joined(a, b), n),
        joined(a, with_one(b, n)) == with_one(joined(a, b), n),
        joined(a, Some(set![n])) == with_one(a, n),
{
    match (a, b) {
        (Some(x), Some(y)) => {
            assert(x.insert(n).union(y) =~= x.union(y).insert(n));
            assert(x.union(y.insert(n)) =~= x.union(y).insert(n));
        },
        (None, Some(y)) => {
            assert(set![n].union(y) =~= y.insert(n));
        },
        (Some(x), None) => {
            assert(x.union(set![n]) =~= x.insert(n));
        },
        _ => {},
    }
    if a is Some {
        assert(a->0.union(set![n]) =~= a->0.insert(n));
    }
}

/// A delta while documents are being extracted.
pub struct DelAddBbbul<'bump> {
    pub del: Option<Lane<'bump>>,
    pub add: Option<Lane<'bump>>,
}

pub open spec fn lane_items(lane: Option<Lane<'_>>) -> Option<Set<u32>> {
    match lane {
        Some(l) => Some(l.items()),
        None => None,
    }
}

pub open spec fn lane_wf(lane: Option<Lane<'_>>) -> bool {
    match lane {
        Some(l) => l.wf(),
        None => true,
    }
}

impl<'bump> View for DelAddBbbul<'bump> {
    type V = DelAddView;

    open spec fn view(&self) -> DelAddView {
        DelAddView { del: lane_items(self.del), add: lane_items(self.add) }
    }
}

impl<'bump> DelAddBbbul<'bump> {
    pub open spec fn wf(&self) -> bool {
        lane_wf(self.del) && lane_wf(self.add)
    }

    /// A delta that takes out one document.
    pub fn new_del_u32_in(n: u32, bump: &'bump Bump) -> (r: Self)
        ensures
            r.wf(),
            r@ == DelAddView::empty().with_del(n),
    {
        DelAddBbbul { del: Some(Lane::new_in(n, bump)), add: None }
    }

    /// A delta that puts in one document.
    pub fn new_add_u32_in(n: u32, bump: &'bump Bump) -> (r: Self)
        ensures
            r.wf(),
            r@ == DelAddView::empty().with_add(n),
    {
        DelAddBbbul { del: None, add: Some(Lane::new_in(n, bump)) }
    }

    /// Asks that one more document be taken out.
    pub fn insert_del_u32(&mut self, n: u32, bump: &'bump Bump)
        requires
            old(self).wf(),
        ensures
            final(self).wf(),
            final(self)@ == old(self)@.with_del(n),
    {
        match &mut self.del {
            Some(lane) => {
                lane.insert(n);
            },
            None => {
                self.del = Some(Lane::new_in(n, bump));
            },
        }
    }

    /// Asks that one more document be put in.
    pub fn insert_add_u32(&mut self, n: u32, bump: &'bump Bump)
        requires
            old(self).wf(),
        ensures
            final(self).wf(),
            final(self)@ == old(self)@.with_add(n),
    {
        match &mut self.add {
            Some(lane) => {
                lane.insert(n);
            },
            None => {
                self.add = Some(Lane::new_in(n, bump));
            },
        }
    }

    /// Closes the delta for writing.
    pub fn freeze(self) -> (r: FrozenDelAddBbbul<'bump>)
        requires
            self.wf(),
        ensures
            r@ == self@,
    {
        FrozenDelAddBbbul {
            del: match self.del {
                Some(lane) => Some(lane.freeze()),
                None => None,
            },
            add: match self.add {
                Some(lane) => Some(lane.freeze()),
                None => None,
            },
        }
    }
}

/// A delta once extraction is over, not yet read.
pub struct FrozenDelAddBbbul<'bump> {
    pub del: Option<FrozenLane<'bump>>,
    pub add: Option<FrozenLane<'bump>>,
}

pub open spec fn frozen_lane_items(lane: Option<FrozenLane<'_>>) -> Option<Set<u32>> {
    match lane {
        Some(l) => Some(l.items()),
        None => None,
    }
}

impl<'bump> View for FrozenDelAddBbbul<'bump> {
    type V = DelAddView;

    open spec fn view(&self) -> DelAddView {
        DelAddView { del: frozen_lane_items(self.del), add: frozen_lane_items(self.add) }
    }
}

impl<'bump> FrozenDelAddBbbul<'bump> {
    /// Whether the delta was read already, or never asked anything.
    pub fn is_empty(&self) -> (r: bool)
        ensures
            r == (self@ == DelAddView::empty()),
    {
        self.del.is_none() && self.add.is_none()
    }
}

/// A delta as bitmaps.
#[derive(Debug, Clone, PartialEq)]
pub struct DelAddRoaringBitmap {
    pub del: Option<RoaringBitmap>,
    pub add: Option<RoaringBitmap>,
}

pub open spec fn bitmap_items(bitmap: Option<RoaringBitmap>) -> Option<Set<u32>> {
    match bitmap {
        Some(b) => Some(members(b)),
        None => None,
    }
}

impl View for DelAddRoaringBitmap {
    type V = DelAddView;

    open spec fn view(&self) -> DelAddView {
        DelAddView { del: bitmap_items(self.del), add: bitmap_items(self.add) }
    }
}

fn join_bitmaps(a: Option<RoaringBitmap>, b: Option<RoaringBitmap>) -> (r: Option<RoaringBitmap>)
    ensures
        bitmap_items(r) == joined(bitmap_items(a), bitmap_items(b)),
{
    match (a, b) {
        (None, None) => None,
        (None, Some(y)) => Some(y),
        (Some(x), None) => Some(x),
        (Some(x), Some(y)) => {
            let mut x = x;
            bitmap_union_with(&mut x, &y);
            Some(x)
        },
    }
}

fn join_bitmap_ref(a: &mut Option<RoaringBitmap>, b: &Option<RoaringBitmap>)
    ensures
        bitmap_items(*final(a)) == joined(bitmap_items(*old(a)), bitmap_items(*b)),
{
    match b {
        Some(y) => match a {
            Some(x) => {
                bitmap_union_with(x, y);
            },
            None => {
                *a = Some(y.clone());
            },
        },
        None => {},
    }
}

fn drain_lane(into: &mut Option<RoaringBitmap>, lane: &mut Option<FrozenLane<'_>>)
    ensures
        bitmap_items(*final(into)) == joined(bitmap_items(*old(into)), frozen_lane_items(*old(lane))),
        *final(lane) is None,
{
    match lane.take() {
        Some(taken) => {
            match into {
                Some(bitmap) => {
                    taken.drain_into(bitmap);
                },
                None => {
                    let mut bitmap = bitmap_new();
                    taken.drain_into(&mut bitmap);
                    assert(members(bitmap) =~= old(lane)->0.items());
                    *into = Some(bitmap);
                },
            }
        },
        None => {},
    }
}

/// The byte that says which sides of a delta are present where the delta is
/// written out: 1 for the deletions, 2 for the additions, 3 for both.
pub open spec fn flags_of(del: bool, add: bool) -> u8 {
    if del && add {
        3
    } else if add {
        2
    } else if del {
        1
    } else {
        0
    }
}

/// Which sides the byte says are present, deletions first; `None` for a byte
/// that no delta is written with.
pub fn sides_present(flags: u8) -> (r: Option<(bool, bool)>)
    ensures
        r is Some <==> flags < 4,
        forall|del: bool, add: bool| flags == flags_of(del, add) <==> r == Some((del, add)),
{
    if flags == 0 {
        Some((false, false))
    } else if flags == 1 {
        Some((true, false))
    } else if flags == 2 {
        Some((false, true))
    } else if flags == 3 {
        Some((true, true))
    } else {
        None
    }
}

impl DelAddRoaringBitmap {
    /// The byte that says which sides are present where the delta is written out.
    pub fn presence_flags(&self) -> (r: u8)
        ensures
            r == flags_of(self@.del is Some, self@.add is Some),
    {
        match (&self.del, &self.add) {
            (Some(_), Some(_)) => 3,
            (None, Some(_)) => 2,
            (Some(_), None) => 1,
            (None, None) => 0,
        }
    }

    /// The delta that does nothing.
    pub fn empty() -> (r: DelAddRoaringBitmap)
        ensures
            r@ == DelAddView::empty(),
    {
        DelAddRoaringBitmap { del: None, add: None }
    }

    /// Asks that one more document be taken out.
    pub fn insert_del_u32(&mut self, n: u32)
        ensures
            final(self)@ == old(self)@.with_del(n),
    {
        match &mut self.del {
            Some(bitmap) => {
                bitmap_insert(bitmap, n);
            },
            None => {
                let mut bitmap = bitmap_new();
                bitmap_insert(&mut bitmap, n);
                assert(members(bitmap) =~= set![n]);
                self.del = Some(bitmap);
            },
        }
    }

    /// Asks that one more document be put in.
    pub fn insert_add_u32(&mut self, n: u32)
        ensures
            final(self)@ == old(self)@.with_add(n),
    {
        match &mut self.add {
            Some(bitmap) => {
                bitmap_insert(bitmap, n);
            },
            None => {
                let mut bitmap = bitmap_new();
                bitmap_insert(&mut bitmap, n);
                assert(members(bitmap) =~= set![n]);
                self.add = Some(bitmap);
            },
        }
    }

    /// A delta that takes out one document.
    pub fn new_del_u32(n: u32) -> (r: Self)
        ensures
            r@ == DelAddView::empty().with_del(n),
    {
        let mut r = DelAddRoaringBitmap::empty();
        r.insert_del_u32(n);
        r
    }

    /// A delta that puts in one document.
    pub fn new_add_u32(n: u32) -> (r: Self)
        ensures
            r@ == DelAddView::empty().with_add(n),
    {
        let mut r = DelAddRoaringBitmap::empty();
        r.insert_add_u32(n);
        r
    }

    /// Takes over what a frozen delta holds, which is empty afterwards.
    pub fn union_and_clear_bbbul(&mut self, bbbul: &mut FrozenDelAddBbbul<'_>)
        ensures
            final(self)@ == old(self)@.merged(old(bbbul)@),
            final(bbbul)@ == DelAddView::empty(),
    {
        drain_lane(&mut self.del, &mut bbbul.del);
        drain_lane(&mut self.add, &mut bbbul.add);
    }

    /// The delta that does what both do.
    pub fn merge(self, rhs: DelAddRoaringBitmap) -> (r: DelAddRoaringBitmap)
        ensures
            r@ == self@.merged(rhs@),
    {
        DelAddRoaringBitmap {
            del: join_bitmaps(self.del, rhs.del),
            add: join_bitmaps(self.add, rhs.add),
        }
    }

    /// Takes over what another delta does, which stays as it is.
    pub fn merge_from(&mut self, rhs: &DelAddRoaringBitmap)
        ensures
            final(self)@ == old(self)@.merged(rhs@),
    {
        join_bitmap_ref(&mut self.del, &rhs.del);
        join_bitmap_ref(&mut self.add, &rhs.add);
    }

    /// Applies the delta to a set of documents: deletions first, additions second.
    pub fn apply_to(&self, documents_ids: &mut RoaringBitmap)
        ensures
            members(*final(documents_ids)) == self@.applied_to(members(*old(documents_ids))),
    {
        match &self.del {
            Some(del) => {
                bitmap_subtract(documents_ids, del);
            },
            None => {
                assert(members(*documents_ids).difference(Set::<u32>::empty()) =~= members(
                    *documents_ids,
                ));
            },
        }
        match &self.add {
            Some(add) => {
                bitmap_union_with(documents_ids, add);
            },
            None => {
                assert(members(*documents_ids).union(Set::<u32>::empty()) =~= members(
                    *documents_ids,
                ));
            },
        }
    }
}

} // verus!
