//! Lists of document identifiers as bytes.

use crate::doc_index::DocumentId;
use vstd::bytes::{
    lemma_auto_spec_u64_to_from_le_bytes, spec_u64_from_le_bytes, spec_u64_to_le_bytes,
    u64_from_le_bytes, u64_to_le_bytes,
};
use vstd::prelude::*;
use vstd::slice::slice_subrange;

verus! {

/// The bytes that stand for a list of identifiers: 8 bytes each, least byte first.
pub open spec fn encoded(ids: Seq<DocumentId>) -> Seq<u8>
    decreases ids.len(),
{
    if ids.len() == 0 {
        Seq::empty()
    } else {
        encoded(ids.drop_last()) + spec_u64_to_le_bytes(ids.last().0)
    }
}

/// The encoding of a list takes 8 bytes for each identifier.
pub proof fn lemma_encoded_len(ids: Seq<DocumentId>)
    ensures
        encoded(ids).len() == 8 * ids.len(),
    decreases ids.len(),
{
    lemma_auto_spec_u64_to_from_le_bytes();
    if ids.len() > 0 {
        lemma_encoded_len(ids.drop_last());
    }
}

/// A list of document identifiers, kept as bytes.
#[derive(Debug, Clone, PartialEq, Eq)]
pub struct DocIds {
    bytes: Vec<u8>,
}

impl DocIds {
    pub closed spec fn spec_bytes(&self) -> Seq<u8> {
        self.bytes@
    }

    /// The bytes of a list of identifiers.
    pub fn new(ids: &Vec<DocumentId>) -> (r: DocIds)
        ensures
            r.spec_bytes() == encoded(ids@),
    {
        let mut bytes: Vec<u8> = Vec::new();
        let mut i: usize = 0;
        while i < ids.len()
            invariant
                i <= ids.len(),
                bytes@ == encoded(ids@.take(i as int)),
            decreases ids.len() - i,
        {
            let mut word = u64_to_le_bytes(ids[i].0);
            proof {
                assert(ids@.take(i + 1).drop_last() =~= ids@.take(i as int));
                assert(ids@.take(i + 1).last() == ids[i as int]);
            }
            bytes.append(&mut word);
            i += 1;
        }
        assert(ids@.take(ids.len() as int) =~= ids@);
        DocIds { bytes }
    }

    /// The list whose bytes these are, if they are the bytes of a list.
    pub fn from_bytes(bytes: Vec<u8>) -> (r: DocIds)
        ensures
            r.spec_bytes() == bytes@,
    {
        DocIds { bytes }
    }

    pub fn is_empty(&self) -> (r: bool)
        ensures
            r == (self.spec_bytes().len() == 0),
    {
        self.bytes.len() == 0
    }

    pub fn as_bytes(&self) -> (r: &[u8])
        ensures
            r@ == self.spec_bytes(),
    {
        self.bytes.as_slice()
    }

    /// How many identifiers the bytes hold; bytes left over at the end are not counted.
    pub fn len(&self) -> (r: usize)
        ensures
            r == self.spec_bytes().len() / 8,
    {
        self.bytes.len() / 8
    }

    /// The identifier at a place.
    pub fn get(&self, i: usize) -> (r: DocumentId)
        requires
            i < self.spec_bytes().len() / 8,
        ensures
            r.0 == spec_u64_from_le_bytes(self.spec_bytes().subrange(8 * i, 8 * i + 8)),
    {
        let n = self.bytes.len();
        assert(i + 1 <= n / 8);
        assert(8 * (i + 1) <= n);
        let word = slice_subrange(self.bytes.as_slice(), 8 * i, 8 * i + 8);
        DocumentId(u64_from_le_bytes(word))
    }

    /// The bytes as they are written to a file: their number as 8 bytes, least
    /// byte first, and then the bytes themselves.
    pub fn write_to_bytes(&self, bytes: &mut Vec<u8>)
        ensures
            final(bytes)@ == old(bytes)@ + spec_u64_to_le_bytes(self.spec_bytes().len() as u64)
                + self.spec_bytes(),
    {
        let mut len = u64_to_le_bytes(self.bytes.len() as u64);
        bytes.append(&mut len);
        let mut i: usize = 0;
        let ghost start = bytes@;
        while i < self.bytes.len()
            invariant
                i <= self.bytes.len(),
                bytes@ == start + self.bytes@.take(i as int),
            decreases self.bytes.len() - i,
        {
            bytes.push(self.bytes[i]);
            assert(self.bytes@.take(i + 1) =~= self.bytes@.take(i as int).push(self.bytes[i as int]));
            i += 1;
        }
        assert(self.bytes@.take(self.bytes.len() as int) =~= self.bytes@);
    }
}

/// Reading back the identifier at a place of an encoded list gives the identifier
/// that was encoded there.
pub proof fn lemma_encoded_get(ids: Seq<DocumentId>, i: int)
    requires
        0 <= i < ids.len(),
    ensures
        encoded(ids).len() == 8 * ids.len(),
        spec_u64_from_le_bytes(encoded(ids).subrange(8 * i, 8 * i + 8)) == ids[i].0,
    decreases ids.len(),
{
    lemma_auto_spec_u64_to_from_le_bytes();
    lemma_encoded_len(ids);
    lemma_encoded_len(ids.drop_last());
    if i == ids.len() - 1 {
        assert(encoded(ids).subrange(8 * i, 8 * i + 8) =~= spec_u64_to_le_bytes(ids.last().0));
    } else {
        lemma_encoded_get(ids.drop_last(), i);
        assert(encoded(ids).subrange(8 * i, 8 * i + 8) =~= encoded(ids.drop_last()).subrange(
            8 * i,
            8 * i + 8,
        ));
    }
}

} // verus!
