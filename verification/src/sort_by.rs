//! Sorting documents by what is stored of them.

use core::marker::PhantomData;
use vstd::prelude::*;

verus! {

/// A criterion that sorts documents by some of their stored attributes, read as a `T`.
pub struct SortBy<T> {
    _phantom: PhantomData<T>,
}

impl<T> SortBy<T> {
    /// The criterion that reads documents as a `T`. It holds nothing else.
    pub closed spec fn criterion() -> Self {
        SortBy { _phantom: PhantomData }
    }

    pub fn new() -> (r: Self)
        ensures
            r == Self::criterion(),
    {
        SortBy { _phantom: PhantomData }
    }
}

/// How two documents stand to each other when one or both could not be read: a
/// document that could not be read comes before any that could; `None` where both
/// could be read, so that what was read decides.
pub fn rank_unread(lhs_read: bool, rhs_read: bool) -> (r: Option<crate::order::Rank>)
    ensures
        r == (if lhs_read && rhs_read {
            None
        } else if !lhs_read && !rhs_read {
            Some(crate::order::Rank::Same)
        } else if !lhs_read {
            Some(crate::order::Rank::Before)
        } else {
            Some(crate::order::Rank::After)
        }),
{
    if lhs_read && rhs_read {
        None
    } else if !lhs_read && !rhs_read {
        Some(crate::order::Rank::Same)
    } else if !lhs_read {
        Some(crate::order::Rank::Before)
    } else {
        Some(crate::order::Rank::After)
    }
}

} // verus!
