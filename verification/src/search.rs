//! The knobs of a search, and what a search for facet values gives back.

use vstd::prelude::*;

verus! {

/// How the criteria are evaluated.
#[derive(Debug, Clone, Copy, PartialEq, Eq, Structural, Hash)]
pub enum CriterionImplementationStrategy {
    OnlyIterative,
    OnlySetBased,
    Dynamic,
}

impl Default for CriterionImplementationStrategy {
    fn default() -> (r: Self)
        ensures
            r == CriterionImplementationStrategy::Dynamic,
    {
        CriterionImplementationStrategy::Dynamic
    }
}

/// Which words of the query may be dropped when too few documents match.
#[derive(Debug, Clone, Copy, PartialEq, Eq, Structural, Hash)]
pub enum TermsMatchingStrategy {
    /// Remove last word first.
    Last,
    /// Remove first word first.
    First,
    /// Remove more frequent word first.
    Frequency,
    /// Remove smallest word first.
    Size,
    /// Only one of the word is mandatory.
    Any,
    /// All words are mandatory.
    All,
}

impl Default for TermsMatchingStrategy {
    fn default() -> (r: Self)
        ensures
            r == TermsMatchingStrategy::Last,
    {
        TermsMatchingStrategy::Last
    }
}

/// A facet value and the number of documents that have it.
#[derive(Debug, Clone, PartialEq, Eq)]
pub struct FacetSearchResult {
    /// The original facet value.
    pub value: String,
    /// The number of documents associated to this facet.
    pub count: u64,
}

/// The most facet values that a search for facet values returns.
pub const MAX_NUMBER_OF_FACETS: usize = 1000;

/// A match of a word of the query in a document.
#[derive(Debug, Clone, Copy, PartialEq, Eq, Structural, PartialOrd, Ord, Hash)]
pub struct SimpleMatch {
    pub query_index: usize,
    pub distance: u8,
    pub attribute: u16,
    pub word_index: u16,
    pub is_exact: bool,
}

/// The settings of a search that are plain values.
#[derive(Debug, Clone, PartialEq, Eq)]
pub struct SearchOptions {
    pub query: Option<String>,
    pub offset: usize,
    pub limit: usize,
    pub terms_matching_strategy: TermsMatchingStrategy,
    pub authorize_typos: bool,
    pub words_limit: usize,
    pub exhaustive_number_hits: bool,
    pub criterion_implementation_strategy: CriterionImplementationStrategy,
}

impl SearchOptions {
    /// The settings that a search starts out with.
    pub fn new() -> (r: Self)
        ensures
            r.query is None,
            r.offset == 0,
            r.limit == 20,
            r.terms_matching_strategy == TermsMatchingStrategy::Last,
            r.authorize_typos,
            r.words_limit == 10,
            !r.exhaustive_number_hits,
            r.criterion_implementation_strategy == CriterionImplementationStrategy::Dynamic,
    {
        SearchOptions {
            query: None,
            offset: 0,
            limit: 20,
            terms_matching_strategy: TermsMatchingStrategy::Last,
            authorize_typos: true,
            words_limit: 10,
            exhaustive_number_hits: false,
            criterion_implementation_strategy: CriterionImplementationStrategy::Dynamic,
        }
    }

    /// Typos are tolerated only if both the index and the query allow it.
    pub fn is_typo_authorized(&self, index_authorizes_typos: bool) -> (r: bool)
        ensures
            r == (self.authorize_typos && index_authorizes_typos),
    {
        self.authorize_typos && index_authorizes_typos
    }

    /// Which of the documents found are returned: how many are passed over and
    /// how many are kept, of `found` documents.
    pub fn window(&self, found: usize) -> (r: (usize, usize))
        ensures
            r.0 == (if self.offset <= found {
                self.offset
            } else {
                found
            }),
            r.1 == (if found - r.0 <= self.limit {
                found - r.0
            } else {
                self.limit as int
            }),
    {
        let skipped = if self.offset <= found {
            self.offset
        } else {
            found
        };
        let rest = found - skipped;
        let kept = if rest <= self.limit {
            rest
        } else {
            self.limit
        };
        (skipped, kept)
    }
}

} // verus!
