//! Where a word was found: the document, the attribute and the place in the text.

use vstd::prelude::*;

verus! {

/// Represent an internally generated document unique identifier.
#[derive(Debug, Copy, Clone, Eq, PartialEq, Structural, PartialOrd, Ord, Hash)]
pub struct DocumentId(pub u64);

/// An attribute number along with the index of the word in that attribute.
///
/// The attribute number takes the upper 10 bits and the word index the lower 22.
#[derive(Debug, Copy, Clone, PartialEq, Eq, Structural, PartialOrd, Ord, Hash)]
pub struct Attribute(pub u32);

pub const MAX_ATTRIBUTE: u16 = 0x3ff;

pub const MAX_WORD_INDEX: u32 = 0x3f_ffff;

pub const MAX_BYTE_INDEX: u32 = 0x3f_ffff;

pub const MAX_LENGTH: u16 = 0x3ff;

impl Attribute {
    /// The attribute number that is packed into the value.
    pub open spec fn spec_attribute(self) -> u16 {
        (self.0 >> 22) as u16
    }

    /// The word index that is packed into the value.
    pub open spec fn spec_word_index(self) -> u32 {
        self.0 & 0x3f_ffff
    }

    /// Construct an `Attribute` from an attribute number and the word position of a
    /// match according to the tokenizer used.
    ///
    /// The attribute must be below 1024 and the word index below 2^22.
    pub fn new(attribute: u16, index: u32) -> (r: Attribute)
        requires
            attribute <= MAX_ATTRIBUTE,
            index <= MAX_WORD_INDEX,
        ensures
            r.spec_attribute() == attribute,
            r.spec_word_index() == index,
            r.0 == attribute as u32 * 0x40_0000 + index,
    {
        let wide: u32 = attribute as u32;
        assert(wide <= 0x3ff && index <= 0x3f_ffff ==> ((wide << 22) | index) >> 22 == wide
            && ((wide << 22) | index) & 0x3f_ffff == index && ((wide << 22) | index) == wide
            * 0x40_0000 + index) by (bit_vector);
        Attribute((wide << 22) | index)
    }

    pub fn attribute(&self) -> (r: u16)
        ensures
            r == self.spec_attribute(),
            r <= MAX_ATTRIBUTE,
    {
        let packed: u32 = self.0;
        assert(packed >> 22 <= 0x3ff) by (bit_vector);
        (self.0 >> 22) as u16
    }

    pub fn word_index(&self) -> (r: u32)
        ensures
            r == self.spec_word_index(),
            r <= MAX_WORD_INDEX,
    {
        let packed: u32 = self.0;
        assert(packed & 0x3f_ffff <= 0x3f_ffff) by (bit_vector);
        self.0 & 0x3f_ffff
    }
}

/// A word position in bytes along with the length of the word.
///
/// The byte index takes the upper 22 bits and the length the lower 10.
#[derive(Debug, Copy, Clone, PartialEq, Eq, Structural, PartialOrd, Ord, Hash)]
pub struct WordArea(pub u32);

impl WordArea {
    /// The byte index that is packed into the value.
    pub open spec fn spec_byte_index(self) -> u32 {
        self.0 >> 10
    }

    /// The length that is packed into the value.
    pub open spec fn spec_length(self) -> u16 {
        (self.0 & 0x3ff) as u16
    }

    /// Construct a `WordArea` from a word position in bytes and the length of it.
    ///
    /// The byte index must be below 2^22 and the length below 1024.
    pub fn new(byte_index: u32, length: u16) -> (r: WordArea)
        requires
            byte_index <= MAX_BYTE_INDEX,
            length <= MAX_LENGTH,
        ensures
            r.spec_byte_index() == byte_index,
            r.spec_length() == length,
            r.0 == byte_index * 0x400 + length,
    {
        let wide: u32 = length as u32;
        assert(byte_index <= 0x3f_ffff && wide <= 0x3ff ==> ((byte_index << 10) | wide) >> 10
            == byte_index && ((byte_index << 10) | wide) & 0x3ff == wide && ((byte_index << 10)
            | wide) == byte_index * 0x400 + wide) by (bit_vector);
        WordArea((byte_index << 10) | wide)
    }

    pub fn byte_index(&self) -> (r: u32)
        ensures
            r == self.spec_byte_index(),
            r <= MAX_BYTE_INDEX,
    {
        let packed: u32 = self.0;
        assert(packed >> 10 <= 0x3f_ffff) by (bit_vector);
        self.0 >> 10
    }

    pub fn length(&self) -> (r: u16)
        ensures
            r == self.spec_length(),
            r <= MAX_LENGTH,
    {
        let packed: u32 = self.0;
        assert(packed & 0x3ff <= 0x3ff) by (bit_vector);
        (self.0 & 0x3ff) as u16
    }
}

/// An attribute with a greater number, or the same number and a greater word
/// index, is the greater value.
pub proof fn lemma_attribute_order(a: u16, i: u32, b: u16, j: u32)
    requires
        a <= MAX_ATTRIBUTE,
        b <= MAX_ATTRIBUTE,
        i <= MAX_WORD_INDEX,
        j <= MAX_WORD_INDEX,
    ensures
        (a as u32 * 0x40_0000 + i < b as u32 * 0x40_0000 + j) <==> (a < b || (a == b && i < j)),
{
}

/// A word area with a greater byte index, or the same byte index and a greater
/// length, is the greater value.
pub proof fn lemma_word_area_order(a: u32, i: u16, b: u32, j: u16)
    requires
        a <= MAX_BYTE_INDEX,
        b <= MAX_BYTE_INDEX,
        i <= MAX_LENGTH,
        j <= MAX_LENGTH,
    ensures
        (a * 0x400 + i < b * 0x400 + j) <==> (a < b || (a == b && i < j)),
{
}

/// The position of a word in a document and its attributes.
#[derive(Debug, Copy, Clone, PartialEq, Eq, Structural, PartialOrd, Ord, Hash)]
pub struct DocIndex {
    /// The document identifier where the word was found.
    pub document_id: DocumentId,
    /// The attribute in the document where the word was found along with the index in it.
    pub attribute: Attribute,
    /// The position in bytes where the word was found along with the length of it.
    pub word_area: WordArea,
}

/// A matching word with information on the location of the word in the document.
///
/// The order of the fields defines the way these structures are ordered between
/// themselves.
#[derive(Debug, Copy, Clone, PartialEq, Eq, Structural, PartialOrd, Ord, Hash)]
pub struct Match {
    /// The word index in the query sentence.
    pub query_index: u32,
    /// The distance the word has with the query word.
    pub distance: u8,
    /// The attribute in the document where the word was found along with the index in it.
    pub attribute: Attribute,
    /// Whether the word that match is an exact match or a prefix.
    pub is_exact: bool,
    /// The position in bytes where the word was found along with the length of it.
    pub word_area: WordArea,
}

impl Match {
    /// The least match there is.
    pub fn zero() -> (r: Match)
        ensures
            r == (Match {
                query_index: 0,
                distance: 0,
                attribute: Attribute(0),
                is_exact: false,
                word_area: WordArea(0),
            }),
    {
        Match {
            query_index: 0,
            distance: 0,
            attribute: Attribute::new(0, 0),
            is_exact: false,
            word_area: WordArea::new(0, 0),
        }
    }

    /// The greatest match there is.
    pub fn max() -> (r: Match)
        ensures
            r == (Match {
                query_index: u32::MAX,
                distance: u8::MAX,
                attribute: Attribute(u32::MAX),
                is_exact: true,
                word_area: WordArea(u32::MAX),
            }),
    {
        Match {
            query_index: u32::MAX,
            distance: u8::MAX,
            attribute: Attribute(u32::MAX),
            is_exact: true,
            word_area: WordArea(u32::MAX),
        }
    }
}

/// Whether two matches stand for the same word of the query.
pub fn match_query_index(a: &Match, b: &Match) -> (r: bool)
    ensures
        r == (a.query_index == b.query_index),
{
    a.query_index == b.query_index
}

} // verus!
