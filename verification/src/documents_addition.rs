//! Documents gathered for one addition.

use vstd::prelude::*;

verus! {

/// The documents of an addition that is being put together.
pub struct DocumentsAddition<D> {
    documents: Vec<D>,
    is_partial: bool,
}

impl<D> DocumentsAddition<D> {
    /// The documents gathered so far, in the order in which they came.
    pub closed spec fn documents(&self) -> Seq<D> {
        self.documents@
    }

    /// Whether the documents are merged into the stored ones rather than replace them.
    pub closed spec fn spec_is_partial(&self) -> bool {
        self.is_partial
    }

    /// An addition whose documents replace the stored ones.
    pub fn new() -> (r: DocumentsAddition<D>)
        ensures
            r.documents() == Seq::<D>::empty(),
            !r.spec_is_partial(),
    {
        DocumentsAddition { documents: Vec::new(), is_partial: false }
    }

    /// An addition whose documents are merged into the stored ones.
    pub fn new_partial() -> (r: DocumentsAddition<D>)
        ensures
            r.documents() == Seq::<D>::empty(),
            r.spec_is_partial(),
    {
        DocumentsAddition { documents: Vec::new(), is_partial: true }
    }

    /// Adds one document.
    pub fn update_document(&mut self, document: D)
        ensures
            final(self).documents() == old(self).documents().push(document),
            final(self).spec_is_partial() == old(self).spec_is_partial(),
    {
        self.documents.push(document);
    }

    pub fn is_partial(&self) -> (r: bool)
        ensures
            r == self.spec_is_partial(),
    {
        self.is_partial
    }

    pub fn len(&self) -> (r: usize)
        ensures
            r == self.documents().len(),
    {
        self.documents.len()
    }

    /// Hands the documents over, in the order in which they came.
    pub fn into_documents(self) -> (r: Vec<D>)
        ensures
            r@ == self.documents(),
    {
        self.documents
    }
}

} // verus!
