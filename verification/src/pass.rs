//! What one pass over the documents yields, as a function of the documents
//! and the options.

use vstd::prelude::*;
use crate::checklist::checklist_path;
use crate::document::DocumentView;
use crate::marker::MarkerView;
use crate::render::{body, document_text, group_text, lemma_new_group_comes_last, lemma_no_records_no_body};
use crate::scan::{records, rewritten, scan};

verus! {

/// The document holds markers and has no path: no link could lead to its
/// markers, and the pass fails on it.
pub open spec fn lacks_path(d: DocumentView) -> bool {
    d.path is None && scan(d.content).len() > 0
}

/// The first of `docs` that holds markers and has no path is the one at `i`.
pub open spec fn is_first_lacking(docs: Seq<DocumentView>, i: int) -> bool {
    &&& 0 <= i < docs.len()
    &&& lacks_path(docs[i])
    &&& forall|j: int| 0 <= j < i ==> !lacks_path(#[trigger] docs[j])
}

/// The records of the markers of the document `d`, in the order in which
/// the markers stand in its text.
pub open spec fn document_records(d: DocumentView) -> Seq<MarkerView> {
    match d.path {
        Some(path) => records(d.title, path, d.content, scan(d.content)),
        None => Seq::empty(),
    }
}

/// The records of the markers of `docs`: those of the first document, then
/// those of the second, and so on.
pub open spec fn collected(docs: Seq<DocumentView>) -> Seq<MarkerView>
    decreases docs.len(),
{
    if docs.len() == 0 {
        Seq::empty()
    } else {
        collected(docs.drop_last()) + document_records(docs.last())
    }
}

/// The document `d` with its markers replaced.
pub open spec fn rewritten_document(d: DocumentView) -> DocumentView {
    DocumentView { title: d.title, path: d.path, content: rewritten(d.content) }
}

/// The checklist document with the given title for the markers of `docs`.
pub open spec fn checklist_document(title: Seq<char>, docs: Seq<DocumentView>) -> DocumentView {
    DocumentView {
        title,
        path: Some(checklist_path()),
        content: document_text(title, collected(docs)),
    }
}

/// What the pass hands back for `docs`: each document with its markers
/// replaced, in the same order, and behind them the checklist document.
pub open spec fn pass_output(title: Seq<char>, docs: Seq<DocumentView>) -> Seq<DocumentView> {
    docs.map_values(|d: DocumentView| rewritten_document(d)).push(checklist_document(title, docs))
}

/// The group of the document `d` in the checklist document: empty where
/// the document gives no records.
pub open spec fn document_group(d: DocumentView) -> Seq<char> {
    if document_records(d).len() > 0 {
        group_text(document_records(d)[0], document_records(d))
    } else {
        Seq::empty()
    }
}

/// The groups of `docs`, one after the other in the order of the
/// documents.
pub open spec fn document_groups(docs: Seq<DocumentView>) -> Seq<char>
    decreases docs.len(),
{
    if docs.len() == 0 {
        Seq::empty()
    } else {
        document_groups(docs.drop_last()) + document_group(docs.last())
    }
}

/// No two of `docs` have the same path.
pub open spec fn distinct_paths(docs: Seq<DocumentView>) -> bool {
    forall|i: int, j: int|
        0 <= i < j < docs.len() && (#[trigger] docs[i]).path is Some ==> docs[i].path != (
        #[trigger] docs[j]).path
}

/// Every record of a document carries the path of the document.
pub proof fn lemma_record_paths(d: DocumentView, k: int)
    requires
        0 <= k < document_records(d).len(),
    ensures
        d.path == Some(document_records(d)[k].source_path),
{
}

/// Every collected record carries the path of one of the documents.
pub proof fn lemma_collected_paths(docs: Seq<DocumentView>, k: int)
    requires
        0 <= k < collected(docs).len(),
    ensures
        exists|i: int| 0 <= i < docs.len() && (#[trigger] docs[i]).path == Some(collected(docs)[k].source_path),
    decreases docs.len(),
{
    let init = docs.drop_last();
    if k < collected(init).len() {
        lemma_collected_paths(init, k);
        let i = choose|i: int| 0 <= i < init.len() && (#[trigger] init[i]).path == Some(collected(init)[k].source_path);
        assert(docs[i] == init[i]);
    } else {
        lemma_record_paths(docs.last(), k - collected(init).len());
        assert(docs[docs.len() - 1] == docs.last());
    }
}

/// Where no two documents have the same path, the checklist document
/// lists the documents that hold markers in their order, one group for
/// each, and in each group the markers in the order in which they stand in
/// the document.
pub proof fn lemma_groups_in_document_order(docs: Seq<DocumentView>)
    requires
        distinct_paths(docs),
    ensures
        body(collected(docs)) == document_groups(docs),
    decreases docs.len(),
{
    if docs.len() == 0 {
        lemma_no_records_no_body(Seq::empty());
    } else {
        let init = docs.drop_last();
        let last = docs.last();
        assert forall|i: int, j: int| 0 <= i < j < init.len() && (#[trigger] init[i]).path is Some implies init[i].path
            != (#[trigger] init[j]).path by {
            assert(init[i] == docs[i]);
            assert(init[j] == docs[j]);
        }
        lemma_groups_in_document_order(init);
        let block = document_records(last);
        if block.len() > 0 {
            let ms = collected(init);
            assert forall|j: int| 0 <= j < ms.len() implies (#[trigger] ms[j]).source_path != block[0].source_path by {
                lemma_collected_paths(init, j);
                let i = choose|i: int| 0 <= i < init.len() && (#[trigger] init[i]).path == Some(ms[j].source_path);
                assert(init[i] == docs[i]);
                assert(docs[docs.len() - 1] == last);
            }
            lemma_new_group_comes_last(ms, block);
        } else {
            assert(collected(init) + block == collected(init));
        }
    }
}

} // verus!
