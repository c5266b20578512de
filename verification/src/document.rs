//! A document of the host's document tree.

use vstd::prelude::*;

verus! {

/// What a document holds, as sequences of characters.
pub struct DocumentView {
    pub title: Seq<char>,
    pub path: Option<Seq<char>>,
    pub content: Seq<char>,
}

/// One document: its title, its path if it has one, and its text.
#[derive(Clone, Debug, PartialEq, Eq)]
pub struct Document {
    pub title: String,
    pub path: Option<String>,
    pub content: String,
}

impl View for Document {
    type V = DocumentView;

    open spec fn view(&self) -> DocumentView {
        DocumentView {
            title: self.title@,
            path: match self.path {
                Some(p) => Some(p@),
                None => None,
            },
            content: self.content@,
        }
    }
}

/// The views of a sequence of documents.
pub open spec fn document_views(documents: Seq<Document>) -> Seq<DocumentView> {
    documents.map_values(|d: Document| d@)
}

} // verus!
