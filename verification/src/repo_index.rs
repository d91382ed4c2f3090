//! An index built from file contents added one file at a time, then queried.
use vstd::prelude::*;
use crate::index::{counts_fit, counts_within_limits, indexed, InvertedIndex};
use crate::parser::{parse_file_lenient, parse_outcome, OutcomeView};
use crate::types::{doc_views, IndexDocument, IndexDocumentView};

verus! {

/// The documents that a file adds: those of its parse, none when it is unsupported or fails.
pub open spec fn file_documents(filepath: Seq<char>, content: Seq<char>, ts_docs: Seq<IndexDocumentView>) -> Seq<IndexDocumentView> {
    match parse_outcome(filepath, content, ts_docs) {
        OutcomeView::Parsed(ds) => ds,
        _ => Seq::empty(),
    }
}

/// A search index built from file contents: files are added, then the index is built once.
pub struct RepoIndex {
    documents: Vec<IndexDocument>,
    index: Option<InvertedIndex>,
}

impl RepoIndex {
    /// The documents added since the last build, in order.
    pub closed spec fn pending(&self) -> Seq<IndexDocumentView> {
        doc_views(self.documents@)
    }

    /// The built index, once `build` has been called.
    pub closed spec fn built(&self) -> Option<InvertedIndex> {
        self.index
    }

    /// Create a new empty index.
    pub fn new() -> (r: Self)
        ensures
            r.pending() == Seq::<IndexDocumentView>::empty(),
            r.built() is None,
    {
        RepoIndex { documents: Vec::new(), index: None }
    }

    /// Add a file to be indexed: its documents are appended to the pending ones. The file path
    /// chooses the parser; `ts_documents` are the documents that the TypeScript/JavaScript
    /// parser produced for the file. Unsupported files and parse failures add nothing.
    pub fn add_file(&mut self, filepath: &str, content: &str, ts_documents: Vec<IndexDocument>)
        requires
            content@.len() < u32::MAX,
        ensures
            final(self).pending() == old(self).pending() + file_documents(filepath@, content@, doc_views(ts_documents@)),
            final(self).built() == old(self).built(),
    {
        let ghost pre = self.documents@;
        match parse_file_lenient(filepath, content, ts_documents) {
            Some(mut docs) => {
                let ghost added = docs@;
                self.documents.append(&mut docs);
                proof {
                    assert(doc_views(pre + added) =~= doc_views(pre) + doc_views(added));
                }
            },
            None => {
                proof {
                    assert(doc_views(pre) + Seq::<IndexDocumentView>::empty() =~= doc_views(pre));
                }
            },
        }
    }

    /// Whether the pending documents can be indexed: fewer than `u32::MAX - 1` of them, and
    /// every term frequency and field length within the index's `u16` counters.
    pub fn can_build(&self) -> (r: bool)
        ensures
            r == (self.pending().len() < u32::MAX - 1 && counts_fit(indexed(self.pending()))),
    {
        self.documents.len() < u32::MAX as usize - 1 && counts_within_limits(&self.documents)
    }

    /// Build the search index from all added files; the pending documents are taken.
    pub fn build(&mut self)
        requires
            old(self).pending().len() < u32::MAX - 1,
            counts_fit(indexed(old(self).pending())),
        ensures
            final(self).pending() == Seq::<IndexDocumentView>::empty(),
            final(self).built() matches Some(ix) && ix.built_from(old(self).pending()),
    {
        let mut docs: Vec<IndexDocument> = Vec::new();
        std::mem::swap(&mut docs, &mut self.documents);
        self.index = Some(InvertedIndex::build(&docs));
    }

    /// The built index, to be queried; `None` before `build`.
    pub fn index(&self) -> (r: Option<&InvertedIndex>)
        ensures
            r == match self.built() {
                Some(ix) => Some(&ix),
                None => None::<&InvertedIndex>,
            },
    {
        self.index.as_ref()
    }

    /// The number of documents in the index, or of the pending ones before it is built.
    pub fn doc_count(&self) -> (r: usize)
        ensures
            r == match self.built() {
                Some(ix) => ix.stored().len(),
                None => self.pending().len(),
            },
    {
        match &self.index {
            Some(ix) => ix.doc_count(),
            None => self.documents.len(),
        }
    }
}

} // verus!
